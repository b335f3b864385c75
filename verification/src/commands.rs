//! UI commands: deciding what a message from the display layer asks for, and
//! building the reply that pushes the note list back to it.
//!
//! A message is a JSON text with a string `type` field. The dispatcher
//! recognizes the type `update`, which asks for a note-list refresh; any
//! other well-formed command is reported as unrecognized, and malformed
//! messages are reported as such — none of them is fatal.

use vstd::prelude::*;
use serde_json::Value;

verus! {

/// serde_json's value type, declared so that a parsed message can be carried
/// through the library; the verifier treats it as opaque.
#[verifier::external_type_specification]
#[verifier::external_body]
pub struct ExValue(Value);

/// The command a message from the display layer asks for.
pub enum Command {
    /// Refresh the note list and push it to the display.
    Update,
    /// A well-formed command of a type the dispatcher does not know; carries
    /// that type.
    Unrecognized(String),
    /// Valid JSON without a string `type` field.
    MissingType,
}

/// Whether a text is a valid JSON document, that is, whether
/// serde_json::from_str parses it: a function of the text alone.
pub uninterp spec fn json_is_valid(text: Seq<char>) -> bool;

/// The string under `key` in a parsed JSON document: what the document
/// holds there when it is an object whose `key` field is a string, and
/// nothing otherwise. A function of the document alone.
pub uninterp spec fn string_field_of(v: Value, key: Seq<char>) -> Option<Seq<char>>;

/// The string under the `type` key of a valid JSON text: parsing is
/// deterministic, so this too is a function of the text alone.
pub uninterp spec fn json_type_field(text: Seq<char>) -> Option<Seq<char>>;

/// Relies on serde_json::from_str::<Value>: parsing is deterministic, it
/// succeeds exactly on valid JSON text, and the document it returns — in
/// particular that document's `type` field — is a function of the text
/// alone. On failure the parse error's message is returned instead.
#[verifier::external_body]
fn parse_json(s: &str) -> (r: Result<Value, String>)
    ensures
        r is Ok <==> json_is_valid(s@),
        r matches Ok(v) ==> string_field_of(v, "type"@) == json_type_field(s@),
{
    match serde_json::from_str::<Value>(s) {
        Ok(v) => Ok(v),
        Err(e) => Err(e.to_string()),
    }
}

/// Relies on serde_json's Value::get and the Value::String variant: a
/// deterministic lookup in the parsed document, returning the string under
/// `key` when the document is an object whose `key` field holds a string,
/// and nothing otherwise.
#[verifier::external_body]
fn string_field(v: &Value, key: &str) -> (r: Option<String>)
    ensures
        r matches Some(s) ==> string_field_of(*v, key@) == Some(s@),
        r is None ==> string_field_of(*v, key@) is None,
{
    match v.get(key) {
        Some(Value::String(s)) => Some(s.clone()),
        _ => None,
    }
}

/// What the dispatcher decides once the message's `type` field is known:
/// no string `type` field means the type is missing, the type `update`
/// asks for a refresh, and any other type is unrecognized and carried back
/// verbatim.
pub fn classify_command(type_field: Option<String>) -> (c: Command)
    ensures
        type_field is None ==> c is MissingType,
        type_field matches Some(t) ==> (if t@ == "update"@ {
            c is Update
        } else {
            c matches Command::Unrecognized(u) && u@ == t@
        }),
{
    match type_field {
        Some(t) => {
            let u = "update".to_owned();
            if t == u {
                Command::Update
            } else {
                Command::Unrecognized(t)
            }
        },
        None => Command::MissingType,
    }
}

/// Parse a message from the display layer and decide the command it asks
/// for. Text that is not JSON is an error carrying the parser's message;
/// valid JSON is classified by its `type` field: absent or not a string
/// means the type is missing, `update` asks for a refresh, and any other
/// type comes back verbatim as unrecognized.
pub fn parse_command(arg: &str) -> (r: Result<Command, String>)
    ensures
        r is Err <==> !json_is_valid(arg@),
        json_is_valid(arg@) ==> (match json_type_field(arg@) {
            Some(t) => if t == "update"@ {
                r matches Ok(c) && c is Update
            } else {
                r matches Ok(c) && c matches Command::Unrecognized(u) && u@ == t
            },
            None => r matches Ok(c) && c is MissingType,
        }),
{
    match parse_json(arg) {
        Ok(v) => Ok(classify_command(string_field(&v, "type"))),
        Err(e) => Err(e),
    }
}

/// What serde_json::to_string returns for a vector of strings: its JSON
/// array encoding, a function of the strings alone.
pub uninterp spec fn json_of_names(names: Seq<Seq<char>>) -> Seq<char>;

/// Relies on serde_json::to_string on a vector of strings: encodes it as a
/// JSON array of strings. Encoding a vector of strings cannot fail; the
/// encoding depends on the strings alone.
#[verifier::external_body]
fn json_names(names: &Vec<String>) -> (r: String)
    ensures
        r@ == json_of_names(names@.map_values(|s: String| s@)),
{
    match serde_json::to_string(names) {
        Ok(s) => s,
        // to_string fails only for maps with non-string keys or a failing
        // Serialize impl; a vector of strings has neither, so this arm is
        // unreachable.
        Err(_) => String::new(),
    }
}

/// The JavaScript statement that pushes the note names to the display
/// layer: a call of `update_note_list` on the JSON encoding of the names.
pub fn update_script(names: &Vec<String>) -> (r: String)
    ensures
        r@ == "update_note_list("@ + json_of_names(names@.map_values(|s: String| s@))
            + ")"@,
{
    let json = json_names(names);
    let mut s = String::from_str("update_note_list(");
    s.append(json.as_str());
    s.append(")");
    s
}

} // verus!
