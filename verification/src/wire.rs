//! Lines on the pipe.
//!
//! A request and a response are one line of text each. A line ends with a
//! newline or with the end of the stream; carriage returns are dropped.

use crate::text::{chars_of, push_char};
use vstd::prelude::*;
use vstd::utf8;

verus! {

/// The pipe. A later protocol gets another number.
pub const PIPE_NAME: &'static str = "\\\\.\\pipe\\DwmendDaemon-v1";

/// The longest line, in bytes.
pub const LONGEST_LINE: usize = 65536;

/// What a reader has after some bytes.
pub enum Heard {
    /// A part of a line.
    More(Seq<u8>),
    /// A whole line.
    Done(Seq<u8>),
    /// A line that is too long.
    TooLong,
}

/// What a reader has after one more byte.
pub open spec fn on_byte(kept: Seq<u8>, b: u8) -> Heard {
    if b == 0x0a {
        Heard::Done(kept)
    } else if b == 0x0d {
        Heard::More(kept)
    } else if kept.len() >= LONGEST_LINE {
        Heard::TooLong
    } else {
        Heard::More(kept.push(b))
    }
}

/// What a reader has after all these bytes.
pub open spec fn heard(bytes: Seq<u8>) -> Heard
    decreases bytes.len(),
{
    if bytes.len() == 0 {
        Heard::More(Seq::empty())
    } else {
        match heard(bytes.drop_last()) {
            Heard::More(kept) => on_byte(kept, bytes.last()),
            other => other,
        }
    }
}

/// How a line goes on.
#[derive(Debug, Clone, Copy, PartialEq, Eq, Structural)]
pub enum Fed {
    More,
    Done,
    TooLong,
}

/// Reads one line, byte by byte.
#[derive(Debug, Clone)]
pub struct LineReader {
    pub bytes: Vec<u8>,
}

impl LineReader {
    pub fn new() -> (r: LineReader)
        ensures
            r.bytes@ == Seq::<u8>::empty(),
    {
        let bytes: Vec<u8> = Vec::new();
        assert(bytes@ =~= Seq::<u8>::empty());
        LineReader { bytes }
    }

    /// Take in one more byte.
    pub fn feed(&mut self, b: u8) -> (r: Fed)
        ensures
            match on_byte(old(self).bytes@, b) {
                Heard::More(kept) => r == Fed::More && final(self).bytes@ == kept,
                Heard::Done(kept) => r == Fed::Done && final(self).bytes@ == kept,
                Heard::TooLong => r == Fed::TooLong && final(self).bytes@ == old(self).bytes@,
            },
    {
        if b == 0x0a {
            Fed::Done
        } else if b == 0x0d {
            Fed::More
        } else if self.bytes.len() >= LONGEST_LINE {
            Fed::TooLong
        } else {
            self.bytes.push(b);
            Fed::More
        }
    }

    /// The text of the line; `None` where the bytes are not UTF-8.
    pub fn line(self) -> (r: Option<String>)
        ensures
            match r {
                Some(s) => utf8::valid_utf8(self.bytes@) && s@ == utf8::decode_utf8(self.bytes@),
                None => !utf8::valid_utf8(self.bytes@),
            },
    {
        from_utf8(self.bytes)
    }
}

/// Read bytes as UTF-8: `String::from_utf8`, which returns the text of valid
/// UTF-8 and fails on anything else.
#[verifier::external_body]
fn from_utf8(bytes: Vec<u8>) -> (r: Option<String>)
    ensures
        match r {
            Some(s) => utf8::valid_utf8(bytes@) && s@ == utf8::decode_utf8(bytes@),
            None => !utf8::valid_utf8(bytes@),
        },
{
    String::from_utf8(bytes).ok()
}

/// A request as it is sent: one line, with the newline at its end.
pub open spec fn framed(request: Seq<char>) -> Seq<char> {
    if request.len() > 0 && request.last() == '\n' {
        request
    } else {
        request.push('\n')
    }
}

/// A request as it is sent.
pub fn frame_request(request: String) -> (r: String)
    ensures
        r@ == framed(request@),
{
    let chars = chars_of(request.as_str());
    if chars.len() > 0 && chars[chars.len() - 1] == '\n' {
        request
    } else {
        let mut r = request;
        push_char(&mut r, '\n');
        r
    }
}

/// A response as it is sent.
pub fn frame_response(response: String) -> (r: String)
    ensures
        r@ == response@.push('\n'),
{
    let mut r = response;
    push_char(&mut r, '\n');
    r
}

/// What is answered where no answer came in time.
pub fn timeout_response() -> (r: &'static str)
    ensures
        r@ == "{\"ok\":false,\"error\":\"timeout\"}"@,
{
    "{\"ok\":false,\"error\":\"timeout\"}"
}

/// Whether a byte is neither a newline nor a carriage return.
pub open spec fn plain(b: u8) -> bool {
    b != 0x0a && b != 0x0d
}

/// What is neither a newline nor a carriage return is kept.
proof fn lemma_plain_is_kept(bytes: Seq<u8>)
    requires
        bytes.len() <= LONGEST_LINE,
        forall|i: int| 0 <= i < bytes.len() ==> plain(#[trigger] bytes[i]),
    ensures
        heard(bytes) == Heard::More(bytes),
    decreases bytes.len(),
{
    if bytes.len() > 0 {
        lemma_plain_is_kept(bytes.drop_last());
        assert(plain(bytes[bytes.len() - 1]));
        assert(bytes.drop_last().push(bytes.last()) =~= bytes);
    } else {
        assert(bytes =~= Seq::<u8>::empty());
    }
}

/// No character but a newline or a carriage return has their bytes.
proof fn lemma_char_is_plain(c: char)
    requires
        c != '\n',
        c != '\r',
    ensures
        forall|i: int|
            0 <= i < utf8::encode_scalar(c as u32).len() ==> plain(
                #[trigger] utf8::encode_scalar(c as u32)[i],
            ),
{
    let v = c as u32;
    assert(v <= 0x7f ==> (v & 0x7f) as u8 == v) by (bit_vector);
    assert(forall|x: u8| #[trigger] (0xc0u8 | x) >= 0x80) by (bit_vector);
    assert(forall|x: u8| #[trigger] (0xe0u8 | x) >= 0x80) by (bit_vector);
    assert(forall|x: u8| #[trigger] (0xf0u8 | x) >= 0x80) by (bit_vector);
    assert(forall|x: u8| #[trigger] (0x80u8 | x) >= 0x80) by (bit_vector);
}

proof fn lemma_text_is_plain(chars: Seq<char>)
    requires
        forall|i: int| 0 <= i < chars.len() ==> #[trigger] chars[i] != '\n' && chars[i] != '\r',
    ensures
        forall|i: int|
            0 <= i < utf8::encode_utf8(chars).len() ==> plain(
                #[trigger] utf8::encode_utf8(chars)[i],
            ),
    decreases chars.len(),
{
    if chars.len() > 0 {
        let rest = chars.drop_first();
        assert forall|i: int| 0 <= i < rest.len() implies #[trigger] rest[i] != '\n' && rest[i]
            != '\r' by {
            assert(rest[i] == chars[i + 1]);
        }
        lemma_text_is_plain(rest);
        lemma_char_is_plain(chars[0]);
        let head = utf8::encode_scalar(chars[0] as u32);
        let tail = utf8::encode_utf8(rest);
        assert(utf8::encode_utf8(chars) == head + tail);
        assert forall|i: int| 0 <= i < (head + tail).len() implies plain(
            #[trigger] (head + tail)[i],
        ) by {
            if i < head.len() {
                assert((head + tail)[i] == head[i]);
            } else {
                assert((head + tail)[i] == tail[i - head.len()]);
            }
        }
    }
}

proof fn lemma_newline_last(chars: Seq<char>)
    ensures
        utf8::encode_utf8(chars.push('\n')) == utf8::encode_utf8(chars).push(0x0a),
    decreases chars.len(),
{
    let all = chars.push('\n');
    if chars.len() == 0 {
        assert((10u32 & 0x7f) as u8 == 10u8) by (bit_vector);
        assert(all.drop_first() =~= Seq::<char>::empty());
        assert(utf8::encode_utf8(all.drop_first()) =~= Seq::<u8>::empty());
        assert(utf8::encode_utf8(all) =~= seq![0x0au8]);
        assert(utf8::encode_utf8(chars) =~= Seq::<u8>::empty());
    } else {
        lemma_newline_last(chars.drop_first());
        assert(all.drop_first() =~= chars.drop_first().push('\n'));
        assert(utf8::encode_utf8(all) =~= utf8::encode_utf8(chars).push(0x0a));
    }
}

/// A request arrives as it was sent, where it is one line that is not too long.
pub proof fn law_request_arrives(request: Seq<char>)
    requires
        forall|i: int|
            0 <= i < request.len() ==> #[trigger] request[i] != '\n' && request[i] != '\r',
        utf8::encode_utf8(request).len() <= LONGEST_LINE,
    ensures
        ({
            let bytes = utf8::encode_utf8(request);
            &&& heard(utf8::encode_utf8(framed(request))) == Heard::Done(bytes)
            &&& utf8::valid_utf8(bytes)
            &&& utf8::decode_utf8(bytes) == request
        }),
{
    let bytes = utf8::encode_utf8(request);
    lemma_text_is_plain(request);
    lemma_plain_is_kept(bytes);
    lemma_newline_last(request);
    if request.len() > 0 {
        assert(request[request.len() - 1] != '\n');
    }
    assert(bytes.push(0x0a).drop_last() =~= bytes);
    utf8::encode_utf8_valid_utf8(request);
    utf8::encode_utf8_decode_utf8(request);
}

/// The end of a line is the end: what comes after it changes nothing.
pub proof fn law_one_line_is_read(line: Seq<u8>, after: Seq<u8>)
    requires
        heard(line) is Done,
    ensures
        heard(line + after) == heard(line),
    decreases after.len(),
{
    if after.len() == 0 {
        assert(line + after =~= line);
    } else {
        law_one_line_is_read(line, after.drop_last());
        assert((line + after).drop_last() =~= line + after.drop_last());
    }
}

/// A line has room for 65536 bytes, and one more is too many.
pub proof fn law_lines_have_a_limit(bytes: Seq<u8>, b: u8)
    requires
        bytes.len() == 65536,
        forall|i: int| 0 <= i < bytes.len() ==> #[trigger] bytes[i] != 0x0a && bytes[i] != 0x0d,
        b != 0x0a && b != 0x0d,
    ensures
        heard(bytes) == Heard::More(bytes),
        heard(bytes.push(0x0a)) == Heard::Done(bytes),
        heard(bytes.push(b)) is TooLong,
{
    assert forall|i: int| 0 <= i < bytes.len() implies plain(#[trigger] bytes[i]) by {}
    lemma_plain_is_kept(bytes);
    assert(bytes.push(0x0a).drop_last() =~= bytes);
    assert(bytes.push(b).drop_last() =~= bytes);
}

/// Carriage returns make no difference, wherever they stand in a line.
pub proof fn law_carriage_returns_are_dropped(a: Seq<u8>, b: Seq<u8>)
    ensures
        heard(a.push(0x0d) + b) == heard(a + b),
    decreases b.len(),
{
    if b.len() == 0 {
        assert(a.push(0x0d) + b =~= a.push(0x0d));
        assert(a + b =~= a);
        assert(a.push(0x0d).drop_last() =~= a);
    } else {
        law_carriage_returns_are_dropped(a, b.drop_last());
        assert((a.push(0x0d) + b).drop_last() =~= a.push(0x0d) + b.drop_last());
        assert((a + b).drop_last() =~= a + b.drop_last());
    }
}

} // verus!
