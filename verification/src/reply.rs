//! What the program says of a reply of the running window manager.

use crate::text;
use crate::text::{chars_of, string_of, trimmed};
use serde_json::Value;
use vstd::prelude::*;

verus! {

/// `serde_json::Value`, what a JSON text holds.
#[verifier::external_type_specification]
#[verifier::external_body]
pub struct ExValue(serde_json::Value);

/// What `serde_json::from_str` makes of a text: the value it holds, or what is
/// said of the text.
pub uninterp spec fn value_read(text: Seq<char>) -> Result<serde_json::Value, Seq<char>>;

/// The value `serde_json::Value::String` of a text.
pub uninterp spec fn value_of_text(text: Seq<char>) -> serde_json::Value;

/// What `serde_json::to_string_pretty` writes of a value, or what is said of it.
pub uninterp spec fn value_printed(value: serde_json::Value) -> Result<Seq<char>, Seq<char>>;

/// What `serde_json::Value::get` finds under a name.
pub uninterp spec fn value_member(value: serde_json::Value, key: Seq<char>) -> Option<
    serde_json::Value,
>;

/// What `serde_json::Value::as_bool` says of a value.
pub uninterp spec fn value_bool(value: serde_json::Value) -> Option<bool>;

/// Read a text with `serde_json::from_str`. The result depends on the text
/// alone; an error is turned into its text.
#[verifier::external_body]
fn read_value(text: &str) -> (r: Result<Value, String>)
    ensures
        match r {
            Ok(v) => value_read(text@) == Ok::<serde_json::Value, Seq<char>>(v),
            Err(e) => value_read(text@) == Err::<serde_json::Value, Seq<char>>(e@),
        },
{
    match serde_json::from_str(text) {
        Ok(v) => Ok(v),
        Err(e) => Err(e.to_string()),
    }
}

/// Make a text a value: `serde_json::Value::String`.
#[verifier::external_body]
fn text_value(text: &str) -> (r: Value)
    ensures
        r == value_of_text(text@),
{
    Value::String(text.to_string())
}

/// Write a value over several lines with `serde_json::to_string_pretty`. The
/// result depends on the value alone; an error is turned into its text.
#[verifier::external_body]
fn print_value(value: &Value) -> (r: Result<String, String>)
    ensures
        match r {
            Ok(s) => value_printed(*value) == Ok::<Seq<char>, Seq<char>>(s@),
            Err(e) => value_printed(*value) == Err::<Seq<char>, Seq<char>>(e@),
        },
{
    match serde_json::to_string_pretty(value) {
        Ok(s) => Ok(s),
        Err(e) => Err(e.to_string()),
    }
}

/// Look a member up with `serde_json::Value::get`: `None` where the value is no
/// object or has no such member. The result depends on the value and the name of
/// the member alone.
#[verifier::external_body]
fn member_of<'a>(value: &'a Value, key: &str) -> (r: Option<&'a Value>)
    ensures
        match r {
            Some(m) => value_member(*value, key@) == Some(*m),
            None => value_member(*value, key@) is None,
        },
{
    value.get(key)
}

/// `serde_json::Value::as_bool`: the truth value that a value is, `None` where it
/// is neither. The result depends on the value alone.
pub assume_specification[ serde_json::Value::as_bool ](value: &serde_json::Value) -> (r: Option<
    bool,
>)
    ensures
        r == value_bool(*value),
;

/// The value of a reply: what the text without the white space around it holds,
/// or the text itself.
pub open spec fn value_of(reply: Seq<char>) -> serde_json::Value {
    match value_read(text::trim(reply)) {
        Ok(v) => v,
        Err(_) => value_of_text(reply),
    }
}

/// What a value says of how it went, under the name `ok`.
pub open spec fn says_ok(value: serde_json::Value) -> Option<bool> {
    match value_member(value, "ok"@) {
        Some(m) => value_bool(m),
        None => None,
    }
}

/// What is printed of a reply.
pub open spec fn printed(reply: Seq<char>) -> Seq<char> {
    match value_printed(value_of(reply)) {
        Ok(s) => s,
        Err(_) => reply,
    }
}

fn value_in(reply: &str) -> (r: Value)
    ensures
        r == value_of(reply@),
{
    let bare = string_of(&trimmed(&chars_of(reply)));
    match read_value(bare.as_str()) {
        Ok(v) => v,
        Err(_) => text_value(reply),
    }
}

/// The text to print of a reply: on several lines where it is JSON.
pub fn reply_text(reply: &str) -> (r: String)
    ensures
        r@ == printed(reply@),
{
    match print_value(&value_in(reply)) {
        Ok(s) => s,
        Err(_) => string_of(&chars_of(reply)),
    }
}

/// Whether a reply says that all went well; `None` where it does not say.
pub fn reply_ok(reply: &str) -> (r: Option<bool>)
    ensures
        r == says_ok(value_of(reply@)),
{
    match member_of(&value_in(reply), "ok") {
        Some(m) => m.as_bool(),
        None => None,
    }
}

/// The exit code of the program: a failure where the window manager reported
/// one.
pub fn exit_code(ok: Option<bool>) -> (r: i32)
    ensures
        r == (if ok == Some(false) {
            1int
        } else {
            0
        }),
{
    match ok {
        Some(false) => 1,
        _ => 0,
    }
}

} // verus!
