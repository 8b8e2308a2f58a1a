//! The entry that starts the program when a user signs in.
//!
//! The entry holds the path of the program in quotes, so that it survives
//! spaces.

use crate::text;
use crate::text::{chars_of, part, string_of};
use crate::wide;
use crate::wide::{bytes_to_wide, decode, wide_no_terminator, wide_to_bytes};
use vstd::prelude::*;

verus! {

/// Where the system looks for programs to start.
pub const RUN_KEY_PATH: &'static str = "Software\\Microsoft\\Windows\\CurrentVersion\\Run";

/// The name of the entry.
pub const RUN_VALUE_NAME: &'static str = "Dwmend";

/// Whether a text begins and ends with a quote. A single quote does both.
pub open spec fn quoted(s: Seq<char>) -> bool {
    s.len() > 0 && s[0] == '"' && s.last() == '"'
}

/// A path in quotes.
pub open spec fn quoting(path: Seq<char>) -> Seq<char> {
    if quoted(path) {
        path
    } else {
        seq!['"'] + path + seq!['"']
    }
}

/// A path without its quotes.
pub open spec fn unquoting(s: Seq<char>) -> Seq<char> {
    if quoted(s) && s.len() >= 2 {
        s.subrange(1, s.len() - 1)
    } else {
        s
    }
}

/// Without the zeros at the end.
pub open spec fn without_zeros(s: Seq<char>) -> Seq<char>
    decreases s.len(),
{
    if s.len() > 0 && s.last() == '\0' {
        without_zeros(s.drop_last())
    } else {
        s
    }
}

/// The path that an entry holds.
pub open spec fn entry_path(bytes: Seq<u8>) -> Seq<char> {
    unquoting(without_zeros(wide::decoded(wide::from_bytes(bytes))))
}

/// An entry that holds a path.
pub open spec fn entry_for(path: Seq<char>) -> Seq<u8> {
    wide::as_bytes(wide::encoded(quoting(path)))
}

fn is_quoted(s: &Vec<char>) -> (r: bool)
    ensures
        r == quoted(s@),
{
    s.len() > 0 && s[0] == '"' && s[s.len() - 1] == '"'
}

/// A path in quotes.
pub fn quote_path(path: &str) -> (r: String)
    ensures
        r@ == quoting(path@),
{
    let chars = chars_of(path);
    if is_quoted(&chars) {
        return string_of(&chars);
    }
    let mut all: Vec<char> = Vec::new();
    all.push('"');
    let mut i: usize = 0;
    while i < chars.len()
        invariant
            i <= chars@.len(),
            all@ == seq!['"'] + chars@.take(i as int),
        decreases chars@.len() - i,
    {
        all.push(chars[i]);
        i = i + 1;
        assert(all@ =~= seq!['"'] + chars@.take(i as int));
    }
    all.push('"');
    assert(chars@.take(i as int) =~= chars@);
    assert(all@ =~= quoting(path@));
    string_of(&all)
}

/// The bytes of an entry that holds a path.
pub fn entry(path: &str) -> (r: Vec<u8>)
    ensures
        r@ == entry_for(path@),
{
    let text = quote_path(path);
    wide_to_bytes(&wide_no_terminator(text.as_str()))
}

/// The path that an entry holds.
pub fn registered_path(bytes: &Vec<u8>) -> (r: String)
    ensures
        r@ == entry_path(bytes@),
{
    let chars = chars_of(decode(&bytes_to_wide(bytes)).as_str());
    let ghost all = chars@;
    let mut n: usize = chars.len();
    assert(all.take(n as int) =~= all);
    while n > 0 && chars[n - 1] == '\0'
        invariant
            n <= chars@.len(),
            chars@ == all,
            without_zeros(all) == without_zeros(all.take(n as int)),
        decreases n,
    {
        assert(all.take(n as int).last() == '\0');
        assert(all.take(n as int).drop_last() =~= all.take(n - 1));
        n = n - 1;
    }
    let text = part(&chars, 0, n);
    assert(text@ =~= all.take(n as int));
    if is_quoted(&text) && text.len() >= 2 {
        string_of(&part(&text, 1, text.len() - 1))
    } else {
        string_of(&text)
    }
}

/// The path that was registered is read back, but for one that was in quotes
/// already.
pub proof fn law_registered_path_is_read_back(path: Seq<char>)
    requires
        !quoted(path),
    ensures
        entry_path(entry_for(path)) == path,
{
    let s = quoting(path);
    wide::law_bytes_hold_the_units(wide::encoded(s));
    wide::law_decoding_undoes_encoding(s);
    assert(s.last() == '"');
    assert(without_zeros(s) == s);
    assert(s[0] == '"');
    assert(unquoting(s) =~= path);
}

/// A path is registered between quotes, which keep its spaces together; one that stands in
/// quotes already is registered as it is.
pub proof fn law_path_stands_in_quotes(path: Seq<char>)
    ensures
        ({
            let s = quoting(path);
            &&& s.len() > 0 && s[0] == '"' && s.last() == '"'
            &&& path.len() > 0 && path[0] == '"' && path.last() == '"' ==> s == path
            &&& path.len() == 0 || path[0] != '"' || path.last() != '"' ==> s == seq!['"'] + path
                + seq!['"']
        }),
{
}

} // verus!
