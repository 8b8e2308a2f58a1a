//! UTF-16, the text of the operating system.

use crate::text::{chars_of, push_char};
use vstd::prelude::*;
use vstd::utf8;

verus! {

/// What stands for a unit that stands for nothing.
pub open spec fn unknown() -> char {
    '\u{fffd}'
}

/// The units of a character: one, or a pair of surrogates.
pub open spec fn units(c: char) -> Seq<u16> {
    let n = c as int;
    if n < 0x1_0000 {
        seq![n as u16]
    } else {
        seq![
            (0xd800 + (n - 0x1_0000) / 0x400) as u16,
            (0xdc00 + (n - 0x1_0000) % 0x400) as u16,
        ]
    }
}

/// A text in UTF-16.
pub open spec fn encoded(s: Seq<char>) -> Seq<u16>
    decreases s.len(),
{
    if s.len() == 0 {
        Seq::empty()
    } else {
        units(s[0]) + encoded(s.drop_first())
    }
}

/// Whether a unit is the first of a pair.
pub open spec fn leads(u: u16) -> bool {
    0xd800 <= u < 0xdc00
}

/// Whether a unit is the second of a pair.
pub open spec fn trails(u: u16) -> bool {
    0xdc00 <= u < 0xe000
}

/// The character of a pair.
pub open spec fn paired(a: u16, b: u16) -> char {
    (0x1_0000 + (a - 0xd800) * 0x400 + (b - 0xdc00)) as char
}

/// The text of some units. A surrogate without its partner stands for nothing.
pub open spec fn decoded(u: Seq<u16>) -> Seq<char>
    decreases u.len(),
{
    if u.len() == 0 {
        Seq::empty()
    } else if leads(u[0]) && u.len() > 1 && trails(u[1]) {
        seq![paired(u[0], u[1])] + decoded(u.skip(2))
    } else if leads(u[0]) || trails(u[0]) {
        seq![unknown()] + decoded(u.skip(1))
    } else {
        seq![u[0] as char] + decoded(u.skip(1))
    }
}

/// What comes before the first zero.
pub open spec fn before_zero(u: Seq<u16>) -> Seq<u16>
    decreases u.len(),
{
    if u.len() == 0 || u[0] == 0 {
        Seq::empty()
    } else {
        seq![u[0]] + before_zero(u.skip(1))
    }
}

/// The character with a number: `char::from_u32`, which knows exactly the
/// numbers of Unicode scalar values.
#[verifier::external_body]
fn char_with(n: u32) -> (r: Option<char>)
    ensures
        match r {
            Some(c) => c as u32 == n,
            None => !utf8::is_scalar(n),
        },
{
    char::from_u32(n)
}

fn char_at(n: u32) -> (c: char)
    requires
        utf8::is_scalar(n),
    ensures
        c == n as char,
{
    match char_with(n) {
        Some(c) => {
            proof {
                utf8::char_u32_cast(c, n);
            }
            c
        },
        None => {
            assert(false);
            '\u{fffd}'
        },
    }
}

/// Append the units of a character.
fn push_units(out: &mut Vec<u16>, c: char)
    ensures
        final(out)@ == old(out)@ + units(c),
{
    let ghost before = out@;
    let n: u32 = c as u32;
    if n < 0x1_0000 {
        out.push(n as u16);
        assert(out@ =~= before + units(c));
    } else {
        let rest: u32 = n - 0x1_0000;
        out.push((0xd800 + rest / 0x400) as u16);
        out.push((0xdc00 + rest % 0x400) as u16);
        assert(out@ =~= before + units(c));
    }
}

/// A text in UTF-16.
pub fn wide_no_terminator(s: &str) -> (r: Vec<u16>)
    ensures
        r@ == encoded(s@),
{
    let chars = chars_of(s);
    let mut out: Vec<u16> = Vec::new();
    let mut i: usize = 0;
    assert(chars@.skip(0) =~= chars@);
    assert(out@ + encoded(chars@) =~= encoded(chars@));
    while i < chars.len()
        invariant
            i <= chars@.len(),
            out@ + encoded(chars@.skip(i as int)) == encoded(chars@),
        decreases chars@.len() - i,
    {
        let ghost before = out@;
        let ghost rest = chars@.skip(i as int);
        push_units(&mut out, chars[i]);
        proof {
            assert(rest.drop_first() =~= chars@.skip(i + 1));
            assert(out@ + encoded(rest.drop_first()) =~= before + encoded(rest));
        }
        i = i + 1;
    }
    assert(out@ + encoded(chars@.skip(i as int)) =~= out@);
    out
}

/// A text in UTF-16 with a zero at its end.
pub fn wide(s: &str) -> (r: Vec<u16>)
    ensures
        r@ == encoded(s@).push(0),
{
    let mut r = wide_no_terminator(s);
    r.push(0);
    r
}

/// Bytes as units, each for itself: the text of ASCII bytes.
pub fn utf16(bytes: &Vec<u8>) -> (r: Vec<u16>)
    ensures
        r@ == bytes@.map_values(|b: u8| b as u16),
{
    let mut out: Vec<u16> = Vec::new();
    let mut i: usize = 0;
    while i < bytes.len()
        invariant
            i <= bytes@.len(),
            out@.len() == i,
            forall|k: int| 0 <= k < i ==> #[trigger] out@[k] == bytes@[k] as u16,
        decreases bytes@.len() - i,
    {
        out.push(bytes[i] as u16);
        i = i + 1;
    }
    assert(out@ =~= bytes@.map_values(|b: u8| b as u16));
    out
}

/// The text of some units.
pub fn decode(u: &Vec<u16>) -> (r: String)
    ensures
        r@ == decoded(u@),
{
    let mut r = String::new();
    let mut i: usize = 0;
    assert(u@.skip(0) =~= u@);
    assert(r@ + decoded(u@) =~= decoded(u@));
    while i < u.len()
        invariant
            i <= u@.len(),
            r@ + decoded(u@.skip(i as int)) == decoded(u@),
        decreases u@.len() - i,
    {
        let ghost rest = u@.skip(i as int);
        let ghost before = r@;
        let a: u16 = u[i];
        if 0xd800 <= a && a < 0xdc00 && u.len() - i > 1 && 0xdc00 <= u[i + 1] && u[i + 1] < 0xe000 {
            let b: u16 = u[i + 1];
            let n: u32 = 0x1_0000 + (a as u32 - 0xd800) * 0x400 + (b as u32 - 0xdc00);
            push_char(&mut r, char_at(n));
            proof {
                assert(rest[1] == b);
                assert(rest.skip(2) =~= u@.skip(i + 2));
                assert(r@ + decoded(rest.skip(2)) =~= before + decoded(rest));
            }
            i = i + 2;
        } else if 0xd800 <= a && a < 0xe000 {
            push_char(&mut r, '\u{fffd}');
            proof {
                assert(rest.skip(1) =~= u@.skip(i + 1));
                assert(r@ + decoded(rest.skip(1)) =~= before + decoded(rest));
            }
            i = i + 1;
        } else {
            push_char(&mut r, char_at(a as u32));
            proof {
                assert(rest.skip(1) =~= u@.skip(i + 1));
                assert(r@ + decoded(rest.skip(1)) =~= before + decoded(rest));
            }
            i = i + 1;
        }
    }
    assert(r@ + decoded(u@.skip(i as int)) =~= r@);
    r
}

/// The text in a buffer, up to the first zero.
pub fn utf16_to_string(buf: &Vec<u16>) -> (r: String)
    ensures
        r@ == decoded(before_zero(buf@)),
{
    let mut text: Vec<u16> = Vec::new();
    let mut i: usize = 0;
    assert(buf@.skip(0) =~= buf@);
    assert(text@ + before_zero(buf@) =~= before_zero(buf@));
    while i < buf.len() && buf[i] != 0
        invariant
            i <= buf@.len(),
            text@ + before_zero(buf@.skip(i as int)) == before_zero(buf@),
        decreases buf@.len() - i,
    {
        let ghost rest = buf@.skip(i as int);
        let ghost before = text@;
        text.push(buf[i]);
        proof {
            assert(rest.skip(1) =~= buf@.skip(i + 1));
            assert(text@ + before_zero(rest.skip(1)) =~= before + before_zero(rest));
        }
        i = i + 1;
    }
    assert(text@ + before_zero(buf@.skip(i as int)) =~= text@);
    decode(&text)
}

// ---- units as bytes -------------------------------------------------------

/// Units as bytes, the low one of each first.
pub open spec fn as_bytes(u: Seq<u16>) -> Seq<u8>
    decreases u.len(),
{
    if u.len() == 0 {
        Seq::empty()
    } else {
        as_bytes(u.drop_last()).push((u.last() % 0x100) as u8).push((u.last() / 0x100) as u8)
    }
}

/// Bytes as units, the low one of each first. A single byte at the end is left
/// out.
pub open spec fn from_bytes(b: Seq<u8>) -> Seq<u16> {
    Seq::new((b.len() / 2) as nat, |i: int| (b[2 * i] + 0x100 * b[2 * i + 1]) as u16)
}

/// Units as bytes.
pub fn wide_to_bytes(u: &Vec<u16>) -> (r: Vec<u8>)
    ensures
        r@ == as_bytes(u@),
{
    let mut out: Vec<u8> = Vec::new();
    let mut i: usize = 0;
    assert(u@.take(0) =~= Seq::<u16>::empty());
    while i < u.len()
        invariant
            i <= u@.len(),
            out@ == as_bytes(u@.take(i as int)),
        decreases u@.len() - i,
    {
        assert(u@.take(i + 1).drop_last() =~= u@.take(i as int));
        out.push((u[i] % 0x100) as u8);
        out.push((u[i] / 0x100) as u8);
        i = i + 1;
    }
    assert(u@.take(i as int) =~= u@);
    out
}

/// Bytes as units.
pub fn bytes_to_wide(b: &Vec<u8>) -> (r: Vec<u16>)
    ensures
        r@ == from_bytes(b@),
{
    let size: usize = b.len();
    let n: usize = size / 2;
    let mut out: Vec<u16> = Vec::new();
    let mut i: usize = 0;
    while i < n
        invariant
            i <= n,
            size == b@.len(),
            n == size / 2,
            out@.len() == i,
            forall|k: int|
                0 <= k < i ==> #[trigger] out@[k] == (b@[2 * k] + 0x100 * b@[2 * k + 1]) as u16,
        decreases n - i,
    {
        out.push(b[2 * i] as u16 + 0x100 * (b[2 * i + 1] as u16));
        i = i + 1;
    }
    assert(out@ =~= from_bytes(b@));
    out
}

// ---- laws -----------------------------------------------------------------

proof fn lemma_units_decode(c: char, rest: Seq<u16>)
    ensures
        decoded(units(c) + rest) == seq![c] + decoded(rest),
{
    let all = units(c) + rest;
    let n = c as int;
    if n < 0x1_0000 {
        assert(all[0] == n as u16);
        assert(all.skip(1) =~= rest);
        assert(!leads(all[0]) && !trails(all[0]));
        assert(all[0] as char == c);
    } else {
        assert(all[0] == units(c)[0]);
        assert(all[1] == units(c)[1]);
        assert(all.skip(2) =~= rest);
        assert(leads(all[0]) && trails(all[1]));
        assert(paired(all[0], all[1]) == c);
    }
}

/// A text that was encoded is decoded to what it was.
pub proof fn law_decoding_undoes_encoding(s: Seq<char>)
    ensures
        decoded(encoded(s)) == s,
    decreases s.len(),
{
    if s.len() == 0 {
        assert(decoded(encoded(s)) =~= s);
    } else {
        law_decoding_undoes_encoding(s.drop_first());
        lemma_units_decode(s[0], encoded(s.drop_first()));
        assert(decoded(encoded(s)) =~= s);
    }
}

proof fn lemma_no_zero_units(s: Seq<char>)
    requires
        forall|i: int| 0 <= i < s.len() ==> #[trigger] s[i] != '\0',
    ensures
        forall|i: int| 0 <= i < encoded(s).len() ==> #[trigger] encoded(s)[i] != 0,
    decreases s.len(),
{
    if s.len() > 0 {
        let rest = s.drop_first();
        assert forall|i: int| 0 <= i < rest.len() implies #[trigger] rest[i] != '\0' by {
            assert(rest[i] == s[i + 1]);
        }
        lemma_no_zero_units(rest);
        lemma_char_has_no_zero(s[0]);
        let head = units(s[0]);
        let tail = encoded(rest);
        assert forall|i: int| 0 <= i < (head + tail).len() implies #[trigger] (head + tail)[i]
            != 0 by {
            if i < head.len() {
                assert((head + tail)[i] == head[i]);
            } else {
                assert((head + tail)[i] == tail[i - head.len()]);
            }
        }
    }
}

proof fn lemma_char_has_no_zero(c: char)
    requires
        c != '\0',
    ensures
        forall|i: int| 0 <= i < units(c).len() ==> #[trigger] units(c)[i] != 0,
{
    let n = c as int;
    if n >= 0x1_0000 {
        assert(0xd800 + (n - 0x1_0000) / 0x400 <= 0xdfff);
    }
}

proof fn lemma_before_zero(u: Seq<u16>, after: Seq<u16>)
    requires
        forall|i: int| 0 <= i < u.len() ==> #[trigger] u[i] != 0,
    ensures
        before_zero(u.push(0) + after) == u,
    decreases u.len(),
{
    let all = u.push(0) + after;
    if u.len() == 0 {
        assert(all[0] == 0);
        assert(before_zero(all) =~= u);
    } else {
        assert(all[0] == u[0]);
        let rest = u.skip(1);
        assert forall|i: int| 0 <= i < rest.len() implies #[trigger] rest[i] != 0 by {
            assert(rest[i] == u[i + 1]);
        }
        lemma_before_zero(rest, after);
        assert(all.skip(1) =~= rest.push(0) + after);
        assert(before_zero(all) =~= u);
    }
}

/// What is read from a buffer is what was written to it with a zero at its end,
/// whatever else the buffer holds, where the text itself has no zero.
pub proof fn law_buffer_holds_the_text(s: Seq<char>, after: Seq<u16>)
    requires
        forall|i: int| 0 <= i < s.len() ==> #[trigger] s[i] != '\0',
    ensures
        decoded(before_zero(encoded(s).push(0) + after)) == s,
{
    lemma_no_zero_units(s);
    lemma_before_zero(encoded(s), after);
    law_decoding_undoes_encoding(s);
}

/// Units that were taken apart into bytes are put together to what they were.
pub proof fn law_bytes_hold_the_units(u: Seq<u16>)
    ensures
        as_bytes(u).len() == 2 * u.len(),
        from_bytes(as_bytes(u)) == u,
    decreases u.len(),
{
    if u.len() == 0 {
        assert(from_bytes(as_bytes(u)) =~= u);
    } else {
        let most = u.drop_last();
        law_bytes_hold_the_units(most);
        let b = as_bytes(u);
        assert forall|i: int| 0 <= i < u.len() implies from_bytes(b)[i] == #[trigger] u[i] by {
            if i < most.len() {
                assert(from_bytes(as_bytes(most))[i] == most[i]);
                assert(b[2 * i] == as_bytes(most)[2 * i]);
                assert(b[2 * i + 1] == as_bytes(most)[2 * i + 1]);
            }
        }
        assert(from_bytes(b) =~= u);
    }
}

/// A character below 0x10000 is one unit with its number. Any other one is a pair, the
/// first from 0xd800 on and the second from 0xdc00 on, with ten bits of the number each.
pub proof fn law_characters_have_their_units(c: char)
    ensures
        (c as int) < 0x1_0000 ==> units(c).len() == 1 && units(c)[0] == c as int,
        (c as int) >= 0x1_0000 ==> {
            let u = units(c);
            &&& u.len() == 2
            &&& 0xd800 <= u[0] <= 0xdbff
            &&& 0xdc00 <= u[1] <= 0xdfff
            &&& c as int == 0x1_0000 + (u[0] - 0xd800) * 0x400 + (u[1] - 0xdc00)
        },
        encoded(seq![c]) == units(c),
{
    assert(seq![c].drop_first() =~= Seq::<char>::empty());
    assert(encoded(Seq::<char>::empty()) =~= Seq::<u16>::empty());
    assert(encoded(seq![c]) =~= units(c));
}

/// Of the two bytes of a unit the low one comes first.
pub proof fn law_low_byte_comes_first(u: u16)
    ensures
        as_bytes(seq![u]).len() == 2,
        u == as_bytes(seq![u])[0] + 0x100 * as_bytes(seq![u])[1],
{
    assert(seq![u].drop_last() =~= Seq::<u16>::empty());
    assert(as_bytes(Seq::<u16>::empty()) =~= Seq::<u8>::empty());
}

} // verus!
