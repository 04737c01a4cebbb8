//! The JSON values that hooks take and hand back.

use vstd::prelude::*;

verus! {

/// A JSON value of `serde_json`. Nothing inside it is visible here but what
/// [`json_members`] and [`json_strings`] name.
#[verifier::external_type_specification]
#[verifier::external_body]
pub struct ExValue(serde_json::Value);

/// The strings that a JSON value holds, each by the names of the object members
/// that lead to it. A string holds itself, by no name; an object holds what its
/// members hold, each by the member's name and the names that follow; any other
/// value holds nothing.
pub uninterp spec fn json_strings(value: serde_json::Value) -> Map<Seq<Seq<char>>, Seq<char>>;

/// The names of the members of a JSON object; no other value has members.
pub uninterp spec fn json_members(value: serde_json::Value) -> Set<Seq<char>>;

/// `serde_json::Value::get` with a string. What comes back is the object's member
/// of that name: it holds what the object holds below the name. Where nothing
/// comes back, the value has no such member and holds nothing below the name.
#[verifier::external_body]
fn member<'a>(value: &'a serde_json::Value, name: &str) -> (r: Option<&'a serde_json::Value>)
    ensures
        r is Some <==> json_members(*value).contains(name@),
        match r {
            Some(found) => forall|path: Seq<Seq<char>>|
                {
                    let whole = seq![name@] + path;
                    &&& #[trigger] json_strings(*found).contains_key(path) <==> json_strings(
                        *value,
                    ).contains_key(whole)
                    &&& json_strings(*found).contains_key(path) ==> json_strings(*found)[path]
                        == json_strings(*value)[whole]
                },
            None => forall|path: Seq<Seq<char>>|
                !(#[trigger] json_strings(*value).contains_key(seq![name@] + path)),
        },
{
    value.get(name)
}

/// `serde_json::Value::as_str`: the text of a string, and nothing for any other
/// value.
#[verifier::external_body]
fn string_of<'a>(value: &'a serde_json::Value) -> (r: Option<&'a str>)
    ensures
        match r {
            Some(text) => json_strings(*value).contains_key(Seq::empty()) && text@ == json_strings(
                *value,
            )[Seq::empty()],
            None => !json_strings(*value).contains_key(Seq::empty()),
        },
{
    value.as_str()
}

/// `serde_json::Value::from` on a string slice: the string with that text.
#[verifier::external_body]
fn string_value(text: &str) -> (r: serde_json::Value)
    ensures
        json_members(r) == Set::<Seq<char>>::empty(),
        json_strings(r) == map![Seq::<Seq<char>>::empty() => text@],
{
    serde_json::Value::from(text)
}

/// `serde_json::Value::from_iter` on one pair of strings: the object whose one
/// member has that name and is the string with that text.
#[verifier::external_body]
fn object_value(name: &str, text: &str) -> (r: serde_json::Value)
    ensures
        json_members(r) == set![name@],
        json_strings(r) == map![seq![name@] => text@],
{
    serde_json::Value::from_iter([(name, text)])
}

/// The path to the command in the input of a tool.
pub open spec fn command_path() -> Seq<Seq<char>> {
    seq!["command"@]
}

/// Whether a JSON value is the input of the shell tool: an object with the command
/// as its one member.
pub open spec fn is_tool_input(value: serde_json::Value, command: Seq<char>) -> bool {
    &&& json_members(value) == set!["command"@]
    &&& json_strings(value) == map![command_path() => command]
}

/// Whether a JSON value is the string with a text.
pub open spec fn is_json_string(value: serde_json::Value, text: Seq<char>) -> bool {
    &&& json_members(value) == Set::<Seq<char>>::empty()
    &&& json_strings(value) == map![Seq::<Seq<char>>::empty() => text]
}

/// The input of the shell tool: an object with the command as its one member.
pub fn tool_input(command: &str) -> (r: serde_json::Value)
    ensures
        is_tool_input(r, command@),
{
    object_value("command", command)
}

/// The response of the shell tool: a string.
pub fn tool_response(text: &str) -> (r: serde_json::Value)
    ensures
        is_json_string(r, text@),
{
    string_value(text)
}

/// The command in the input of a tool, where there is one and it is a string.
pub open spec fn input_command(input: serde_json::Value) -> Option<Seq<char>> {
    if json_strings(input).contains_key(command_path()) {
        Some(json_strings(input)[command_path()])
    } else {
        None
    }
}

/// The command in the input of a tool, where there is one and it is a string.
pub fn command_of_input(input: &serde_json::Value) -> (r: Option<String>)
    ensures
        match r {
            Some(command) => input_command(*input) == Some(command@),
            None => input_command(*input) is None,
        },
{
    assert(seq!["command"@] + Seq::<Seq<char>>::empty() =~= command_path());
    match member(input, "command") {
        Some(found) => match string_of(found) {
            Some(text) => Some(text.to_owned()),
            None => None,
        },
        None => None,
    }
}

} // verus!
