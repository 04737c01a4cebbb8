//! The environment variables that a command sees.

use vstd::prelude::*;

verus! {

/// Whether the entry at index `i` sets `name`.
pub open spec fn sets_at(entries: Seq<(String, String)>, i: int, name: Seq<char>) -> bool {
    0 <= i < entries.len() && entries[i].0@ == name
}

/// Whether no name is set twice.
pub open spec fn distinct_names(entries: Seq<(String, String)>) -> bool {
    forall|i: int, j: int|
        0 <= i < entries.len() && 0 <= j < entries.len() && i != j ==> (#[trigger] entries[i]).0@
            != (#[trigger] entries[j]).0@
}

/// What a list of entries that sets no name twice stands for.
pub open spec fn entries_map(entries: Seq<(String, String)>) -> Map<Seq<char>, Seq<char>> {
    Map::new(
        |name: Seq<char>| exists|i: int| sets_at(entries, i, name),
        |name: Seq<char>| entries[choose|i: int| sets_at(entries, i, name)].1@,
    )
}

/// What a list of entries stands for, where a later entry takes the place of an
/// earlier one with its name.
pub open spec fn latest(entries: Seq<(String, String)>) -> Map<Seq<char>, Seq<char>>
    decreases entries.len(),
{
    if entries.len() == 0 {
        Map::empty()
    } else {
        latest(entries.drop_last()).insert(entries.last().0@, entries.last().1@)
    }
}

/// Environment variables, each name with one value.
///
/// They are held as a list: they are walked and handed out one by one, for which
/// vstd's map with string keys has no method.
pub struct EnvVars {
    entries: Vec<(String, String)>,
}

impl View for EnvVars {
    type V = Map<Seq<char>, Seq<char>>;

    closed spec fn view(&self) -> Map<Seq<char>, Seq<char>> {
        entries_map(self.entries@)
    }
}

proof fn lemma_value(entries: Seq<(String, String)>, i: int)
    requires
        distinct_names(entries),
        0 <= i < entries.len(),
    ensures
        entries_map(entries).contains_key(entries[i].0@),
        entries_map(entries)[entries[i].0@] == entries[i].1@,
{
    assert(sets_at(entries, i, entries[i].0@));
    let j = choose|j: int| sets_at(entries, j, entries[i].0@);
    assert(entries[j].0@ == entries[i].0@);
}

proof fn lemma_appended(entries: Seq<(String, String)>, name: String, value: String)
    requires
        distinct_names(entries),
        forall|i: int| !sets_at(entries, i, name@),
    ensures
        distinct_names(entries.push((name, value))),
        entries_map(entries.push((name, value))) == entries_map(entries).insert(name@, value@),
{
    let longer = entries.push((name, value));
    assert forall|i: int, j: int|
        0 <= i < longer.len() && 0 <= j < longer.len() && i != j implies (#[trigger] longer[i]).0@
        != (#[trigger] longer[j]).0@ by {
        if i == entries.len() {
            assert(!sets_at(entries, j, name@));
        } else if j == entries.len() {
            assert(!sets_at(entries, i, name@));
        } else {
            assert(entries[i].0@ != entries[j].0@);
        }
    }
    let want = entries_map(entries).insert(name@, value@);
    let have = entries_map(longer);
    assert forall|n: Seq<char>| have.contains_key(n) == want.contains_key(n) by {
        if have.contains_key(n) {
            let i = choose|i: int| sets_at(longer, i, n);
            if i < entries.len() {
                assert(sets_at(entries, i, n));
            }
        }
        if want.contains_key(n) {
            if n == name@ {
                assert(sets_at(longer, entries.len() as int, n));
            } else {
                let i = choose|i: int| sets_at(entries, i, n);
                assert(sets_at(longer, i, n));
            }
        }
    }
    assert forall|n: Seq<char>| have.contains_key(n) implies have[n] == want[n] by {
        let i = choose|i: int| sets_at(longer, i, n);
        lemma_value(longer, i);
        if i < entries.len() {
            lemma_value(entries, i);
            assert(!sets_at(entries, i, name@));
        }
    }
    assert(have =~= want);
}

proof fn lemma_changed(entries: Seq<(String, String)>, at: int, name: String, value: String)
    requires
        distinct_names(entries),
        sets_at(entries, at, name@),
    ensures
        distinct_names(entries.update(at, (name, value))),
        entries_map(entries.update(at, (name, value))) == entries_map(entries).insert(
            name@,
            value@,
        ),
{
    let changed = entries.update(at, (name, value));
    assert forall|i: int| 0 <= i < entries.len() implies (#[trigger] changed[i]).0@
        == entries[i].0@ by {}
    assert forall|i: int, j: int|
        0 <= i < changed.len() && 0 <= j < changed.len() && i != j implies (#[trigger] changed[i]).0@
        != (#[trigger] changed[j]).0@ by {
        assert(entries[i].0@ != entries[j].0@);
    }
    let want = entries_map(entries).insert(name@, value@);
    let have = entries_map(changed);
    assert forall|n: Seq<char>| have.contains_key(n) == want.contains_key(n) by {
        if have.contains_key(n) {
            let i = choose|i: int| sets_at(changed, i, n);
            assert(sets_at(entries, i, n));
        }
        if want.contains_key(n) {
            if n == name@ {
                assert(sets_at(changed, at, n));
            } else {
                let i = choose|i: int| sets_at(entries, i, n);
                assert(sets_at(changed, i, n));
            }
        }
    }
    assert forall|n: Seq<char>| have.contains_key(n) implies have[n] == want[n] by {
        let i = choose|i: int| sets_at(changed, i, n);
        lemma_value(changed, i);
        if i != at {
            lemma_value(entries, i);
            assert(entries[i].0@ != entries[at].0@);
        }
    }
    assert(have =~= want);
}

impl EnvVars {
    #[verifier::type_invariant]
    spec fn names_are_distinct(self) -> bool {
        distinct_names(self.entries@)
    }

    /// No variable set.
    pub fn new() -> (r: EnvVars)
        ensures
            r@ == Map::<Seq<char>, Seq<char>>::empty(),
    {
        let r = EnvVars { entries: Vec::new() };
        assert(entries_map(r.entries@) =~= Map::<Seq<char>, Seq<char>>::empty());
        r
    }

    /// The index of the entry that sets `name`.
    fn find(&self, name: &String) -> (r: Option<usize>)
        ensures
            match r {
                Some(i) => sets_at(self.entries@, i as int, name@),
                None => forall|i: int| !sets_at(self.entries@, i, name@),
            },
    {
        let mut i: usize = 0;
        while i < self.entries.len()
            invariant
                i <= self.entries.len(),
                forall|j: int| 0 <= j < i ==> !sets_at(self.entries@, j, name@),
            decreases self.entries.len() - i,
        {
            if self.entries[i].0 == *name {
                return Some(i);
            }
            i += 1;
        }
        None
    }

    /// The value of `name`.
    pub fn get(&self, name: &String) -> (r: Option<String>)
        ensures
            match r {
                Some(value) => self@.contains_key(name@) && value@ == self@[name@],
                None => !self@.contains_key(name@),
            },
    {
        proof {
            use_type_invariant(self);
        }
        match self.find(name) {
            Some(i) => {
                proof {
                    lemma_value(self.entries@, i as int);
                }
                Some(self.entries[i].1.clone())
            },
            None => None,
        }
    }

    /// Sets `name` to `value`.
    pub fn set(self, name: String, value: String) -> (r: EnvVars)
        ensures
            r@ == self@.insert(name@, value@),
    {
        proof {
            use_type_invariant(&self);
        }
        let found = self.find(&name);
        let mut entries = self.entries;
        match found {
            Some(i) => {
                proof {
                    lemma_changed(entries@, i as int, name, value);
                }
                entries.set(i, (name, value));
            },
            None => {
                proof {
                    lemma_appended(entries@, name, value);
                }
                entries.push((name, value));
            },
        }
        EnvVars { entries }
    }

    /// The variables of a list of names and values, where a later one takes the
    /// place of an earlier one with its name.
    pub fn from_entries(entries: &Vec<(String, String)>) -> (r: EnvVars)
        ensures
            r@ == latest(entries@),
    {
        let mut r = EnvVars::new();
        let mut i: usize = 0;
        while i < entries.len()
            invariant
                i <= entries.len(),
                r@ == latest(entries@.take(i as int)),
            decreases entries.len() - i,
        {
            r = r.set(entries[i].0.clone(), entries[i].1.clone());
            i += 1;
            assert(entries@.take(i as int).drop_last() =~= entries@.take(i - 1));
        }
        assert(entries@.take(i as int) =~= entries@);
        r
    }

    /// Sets all the variables of `other` too.
    pub fn extend(self, other: &EnvVars) -> (r: EnvVars)
        ensures
            r@ == self@.union_prefer_right(other@),
    {
        proof {
            use_type_invariant(other);
        }
        let mut r = self;
        let mut i: usize = 0;
        let ghost done: Map<Seq<char>, Seq<char>> = Map::empty();
        assert(self@.union_prefer_right(done) =~= self@);
        while i < other.entries.len()
            invariant
                i <= other.entries.len(),
                distinct_names(other.entries@),
                r@ == self@.union_prefer_right(done),
                forall|n: Seq<char>|
                    #[trigger] done.contains_key(n) <==> exists|j: int|
                        j < i && sets_at(other.entries@, j, n),
                forall|n: Seq<char>| #[trigger] done.contains_key(n) ==> done[n] == other@[n],
            decreases other.entries.len() - i,
        {
            let name = other.entries[i].0.clone();
            let value = other.entries[i].1.clone();
            let ghost before = done;
            proof {
                lemma_value(other.entries@, i as int);
                done = done.insert(name@, value@);
                assert(self@.union_prefer_right(before).insert(name@, value@)
                    =~= self@.union_prefer_right(done));
                assert forall|n: Seq<char>| #[trigger] done.contains_key(n) <==> exists|j: int|
                    j < i + 1 && sets_at(other.entries@, j, n) by {
                    if done.contains_key(n) {
                        if n == name@ {
                            assert(sets_at(other.entries@, i as int, n));
                        } else {
                            assert(before.contains_key(n));
                        }
                    }
                    if exists|j: int| j < i + 1 && sets_at(other.entries@, j, n) {
                        let j = choose|j: int| j < i + 1 && sets_at(other.entries@, j, n);
                        if j < i {
                            assert(before.contains_key(n));
                        }
                    }
                }
            }
            r = r.set(name, value);
            i += 1;
        }
        proof {
            assert(done =~= other@) by {
                assert forall|n: Seq<char>| done.contains_key(n) == other@.contains_key(n) by {
                    if other@.contains_key(n) {
                        let j = choose|j: int| sets_at(other.entries@, j, n);
                        assert(j < i && sets_at(other.entries@, j, n));
                    }
                }
            }
        }
        r
    }

    /// The variables as a list of names and values in which no name occurs twice.
    pub fn into_entries(self) -> (r: Vec<(String, String)>)
        ensures
            distinct_names(r@),
            entries_map(r@) == self@,
    {
        proof {
            use_type_invariant(&self);
        }
        self.entries
    }
}

/// Of the entries of a list that set a name, the last one counts; a name that no
/// entry sets has no value.
pub proof fn law_last_entry_counts(entries: Seq<(String, String)>, name: Seq<char>, i: int)
    ensures
        (forall|j: int| 0 <= j < entries.len() ==> (#[trigger] entries[j]).0@ != name)
            ==> !latest(entries).contains_key(name),
        0 <= i < entries.len() && entries[i].0@ == name && (forall|j: int|
            i < j < entries.len() ==> (#[trigger] entries[j]).0@ != name) ==> latest(
            entries,
        ).contains_key(name) && latest(entries)[name] == entries[i].1@,
    decreases entries.len(),
{
    if entries.len() > 0 {
        let fewer = entries.drop_last();
        let last = entries.len() - 1;
        law_last_entry_counts(fewer, name, i);
        assert(entries[last].0@ == entries.last().0@);
        assert(forall|j: int| 0 <= j < fewer.len() ==> #[trigger] fewer[j] == entries[j]);
    }
}

/// A list in which no two entries set one name stands for just its entries.
pub proof fn law_list_stands_for_its_entries(entries: Seq<(String, String)>, name: Seq<char>, i: int)
    requires
        forall|j: int, k: int|
            0 <= j < k < entries.len() ==> (#[trigger] entries[j]).0@ != (
            #[trigger] entries[k]).0@,
    ensures
        distinct_names(entries),
        (forall|j: int| 0 <= j < entries.len() ==> (#[trigger] entries[j]).0@ != name)
            ==> !entries_map(entries).contains_key(name),
        0 <= i < entries.len() && entries[i].0@ == name ==> entries_map(entries).contains_key(name)
            && entries_map(entries)[name] == entries[i].1@,
{
    assert forall|j: int, k: int|
        0 <= j < entries.len() && 0 <= k < entries.len() && j != k implies (
    #[trigger] entries[j]).0@ != (#[trigger] entries[k]).0@ by {
        if j < k {
        } else {
            assert(entries[k].0@ != entries[j].0@);
        }
    }
    if 0 <= i < entries.len() && entries[i].0@ == name {
        lemma_value(entries, i);
    }
}

} // verus!
