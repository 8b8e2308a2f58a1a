//! Text: characters, words and numbers, and building strings.

use vstd::prelude::*;

verus! {

/// The character of a digit.
pub open spec fn digit(d: nat) -> char {
    if d == 0 {
        '0'
    } else if d == 1 {
        '1'
    } else if d == 2 {
        '2'
    } else if d == 3 {
        '3'
    } else if d == 4 {
        '4'
    } else if d == 5 {
        '5'
    } else if d == 6 {
        '6'
    } else if d == 7 {
        '7'
    } else if d == 8 {
        '8'
    } else {
        '9'
    }
}

/// A number in decimal.
pub open spec fn decimal(n: nat) -> Seq<char>
    decreases n,
{
    if n < 10 {
        seq![digit(n)]
    } else {
        decimal(n / 10).push(digit(n % 10))
    }
}

/// Append a character: `String::push`.
#[verifier::external_body]
pub(crate) fn push_char(s: &mut String, c: char)
    ensures
        final(s)@ == old(s)@.push(c),
{
    s.push(c)
}

fn digit_of(d: u64) -> (c: char)
    requires
        d < 10,
    ensures
        c == digit(d as nat),
{
    if d == 0 {
        '0'
    } else if d == 1 {
        '1'
    } else if d == 2 {
        '2'
    } else if d == 3 {
        '3'
    } else if d == 4 {
        '4'
    } else if d == 5 {
        '5'
    } else if d == 6 {
        '6'
    } else if d == 7 {
        '7'
    } else if d == 8 {
        '8'
    } else {
        '9'
    }
}

/// A number in decimal.
pub fn decimal_of(n: u64) -> (s: String)
    ensures
        s@ == decimal(n as nat),
    decreases n,
{
    if n < 10 {
        let mut s = String::new();
        push_char(&mut s, digit_of(n));
        assert(s@ =~= seq![digit(n as nat)]);
        s
    } else {
        let mut s = decimal_of(n / 10);
        push_char(&mut s, digit_of(n % 10));
        s
    }
}

/// The characters of a string.
pub fn chars_of(s: &str) -> (r: Vec<char>)
    ensures
        r@ == s@,
{
    let mut r: Vec<char> = Vec::new();
    for c in iter: s.chars()
        invariant
            iter.seq() == s@,
            r@ == s@.take(iter.index() as int),
    {
        r.push(c);
        assert(r@ =~= s@.take(iter.index() + 1));
    }
    assert(s@.take(s@.len() as int) =~= s@);
    r
}

/// The string of some characters.
pub fn string_of(chars: &Vec<char>) -> (r: String)
    ensures
        r@ == chars@,
{
    let mut r = String::new();
    let mut i: usize = 0;
    while i < chars.len()
        invariant
            i <= chars@.len(),
            r@ == chars@.take(i as int),
        decreases chars@.len() - i,
    {
        push_char(&mut r, chars[i]);
        i = i + 1;
        assert(r@ =~= chars@.take(i as int));
    }
    assert(chars@.take(i as int) =~= chars@);
    r
}

// ---- letters --------------------------------------------------------------

/// The upper case of an ASCII letter; any other character is kept.
pub open spec fn upper(c: char) -> char {
    if 'a' <= c <= 'z' {
        (c as int - 32) as char
    } else {
        c
    }
}

/// The lower case of an ASCII letter; any other character is kept.
pub open spec fn lower(c: char) -> char {
    if 'A' <= c <= 'Z' {
        (c as int + 32) as char
    } else {
        c
    }
}

pub open spec fn uppercase(s: Seq<char>) -> Seq<char> {
    s.map_values(|c: char| upper(c))
}

pub open spec fn lowercase(s: Seq<char>) -> Seq<char> {
    s.map_values(|c: char| lower(c))
}

/// Equality that does not tell the cases of ASCII letters apart.
pub open spec fn same_letters(a: Seq<char>, b: Seq<char>) -> bool {
    lowercase(a) == lowercase(b)
}

/// The upper case of an ASCII letter.
pub fn to_upper(c: char) -> (r: char)
    ensures
        r == upper(c),
{
    if 'a' <= c && c <= 'z' {
        ((c as u8) - 32) as char
    } else {
        c
    }
}

/// The lower case of an ASCII letter.
pub fn to_lower(c: char) -> (r: char)
    ensures
        r == lower(c),
{
    if 'A' <= c && c <= 'Z' {
        ((c as u8) + 32) as char
    } else {
        c
    }
}

pub fn uppercase_of(s: &Vec<char>) -> (r: Vec<char>)
    ensures
        r@ == uppercase(s@),
{
    let mut r: Vec<char> = Vec::new();
    let mut i: usize = 0;
    while i < s.len()
        invariant
            i <= s@.len(),
            r@.len() == i,
            forall|k: int| 0 <= k < i ==> #[trigger] r@[k] == upper(s@[k]),
        decreases s@.len() - i,
    {
        r.push(to_upper(s[i]));
        i = i + 1;
    }
    assert(r@ =~= uppercase(s@));
    r
}

pub fn lowercase_of(s: &Vec<char>) -> (r: Vec<char>)
    ensures
        r@ == lowercase(s@),
{
    let mut r: Vec<char> = Vec::new();
    let mut i: usize = 0;
    while i < s.len()
        invariant
            i <= s@.len(),
            r@.len() == i,
            forall|k: int| 0 <= k < i ==> #[trigger] r@[k] == lower(s@[k]),
        decreases s@.len() - i,
    {
        r.push(to_lower(s[i]));
        i = i + 1;
    }
    assert(r@ =~= lowercase(s@));
    r
}

/// Whether two texts have the same characters.
pub fn same_chars(a: &Vec<char>, b: &Vec<char>) -> (r: bool)
    ensures
        r == (a@ == b@),
{
    if a.len() != b.len() {
        return false;
    }
    let mut i: usize = 0;
    while i < a.len()
        invariant
            i <= a@.len(),
            a@.len() == b@.len(),
            forall|k: int| 0 <= k < i ==> #[trigger] a@[k] == b@[k],
        decreases a@.len() - i,
    {
        if a[i] != b[i] {
            return false;
        }
        i = i + 1;
    }
    assert(a@ =~= b@);
    true
}

/// Whether a text reads like this.
pub fn reads(a: &Vec<char>, b: &str) -> (r: bool)
    ensures
        r == (a@ == b@),
{
    same_chars(a, &chars_of(b))
}

/// Equality that does not tell the cases of ASCII letters apart.
pub fn is_same_letters(a: &str, b: &str) -> (r: bool)
    ensures
        r == same_letters(a@, b@),
{
    same_chars(&lowercase_of(&chars_of(a)), &lowercase_of(&chars_of(b)))
}

// ---- words ----------------------------------------------------------------

/// The characters that Unicode calls white space.
pub open spec fn space(c: char) -> bool {
    let n = c as int;
    ||| 0x9 <= n <= 0xd
    ||| n == 0x20
    ||| n == 0x85
    ||| n == 0xa0
    ||| n == 0x1680
    ||| 0x2000 <= n <= 0x200a
    ||| n == 0x2028
    ||| n == 0x2029
    ||| n == 0x202f
    ||| n == 0x205f
    ||| n == 0x3000
}

pub fn is_space(c: char) -> (r: bool)
    ensures
        r == space(c),
{
    let n: u32 = c as u32;
    (0x9 <= n && n <= 0xd) || n == 0x20 || n == 0x85 || n == 0xa0 || n == 0x1680 || (0x2000 <= n
        && n <= 0x200a) || n == 0x2028 || n == 0x2029 || n == 0x202f || n == 0x205f || n == 0x3000
}

/// Without the white space in front.
pub open spec fn trim_front(s: Seq<char>) -> Seq<char>
    decreases s.len(),
{
    if s.len() > 0 && space(s.first()) {
        trim_front(s.drop_first())
    } else {
        s
    }
}

/// Without the white space at the end.
pub open spec fn trim_back(s: Seq<char>) -> Seq<char>
    decreases s.len(),
{
    if s.len() > 0 && space(s.last()) {
        trim_back(s.drop_last())
    } else {
        s
    }
}

/// Without the white space around.
pub open spec fn trim(s: Seq<char>) -> Seq<char> {
    trim_back(trim_front(s))
}

/// A part of a text.
pub fn part(s: &Vec<char>, from: usize, to: usize) -> (r: Vec<char>)
    requires
        from <= to <= s@.len(),
    ensures
        r@ == s@.subrange(from as int, to as int),
{
    let mut r: Vec<char> = Vec::new();
    let mut i: usize = from;
    while i < to
        invariant
            from <= i <= to <= s@.len(),
            r@ == s@.subrange(from as int, i as int),
        decreases to - i,
    {
        r.push(s[i]);
        i = i + 1;
        assert(r@ =~= s@.subrange(from as int, i as int));
    }
    r
}

/// A text without the white space around.
pub fn trimmed(s: &Vec<char>) -> (r: Vec<char>)
    ensures
        r@ == trim(s@),
{
    let mut from: usize = 0;
    assert(s@.skip(0) =~= s@);
    while from < s.len() && is_space(s[from])
        invariant
            from <= s@.len(),
            trim_front(s@) == trim_front(s@.skip(from as int)),
        decreases s@.len() - from,
    {
        assert(s@.skip(from as int).drop_first() =~= s@.skip(from + 1));
        from = from + 1;
    }
    let mut to: usize = s.len();
    assert(s@.subrange(from as int, to as int) =~= s@.skip(from as int));
    while to > from && is_space(s[to - 1])
        invariant
            from <= to <= s@.len(),
            trim(s@) == trim_back(s@.subrange(from as int, to as int)),
        decreases to - from,
    {
        assert(s@.subrange(from as int, to as int).drop_last() =~= s@.subrange(
            from as int,
            to - 1,
        ));
        to = to - 1;
    }
    part(s, from, to)
}

/// What parts of a text are told apart by.
#[derive(Debug, Clone, Copy, PartialEq, Eq, Structural)]
pub enum Separator {
    Space,
    Plus,
    /// What parts the names in a path.
    Path,
}

impl Separator {
    pub open spec fn splits(self, c: char) -> bool {
        match self {
            Separator::Space => space(c),
            Separator::Plus => c == '+',
            Separator::Path => c == '\\' || c == '/',
        }
    }

    fn is_at(self, c: char) -> (r: bool)
        ensures
            r == self.splits(c),
    {
        match self {
            Separator::Space => is_space(c),
            Separator::Plus => c == '+',
            Separator::Path => c == '\\' || c == '/',
        }
    }
}

/// The parts of a text between separators; there is one more than separators.
pub open spec fn pieces(s: Seq<char>, by: Separator) -> Seq<Seq<char>>
    decreases s.len(),
{
    if s.len() == 0 {
        seq![Seq::empty()]
    } else {
        let before = pieces(s.drop_last(), by);
        if by.splits(s.last()) {
            before.push(Seq::empty())
        } else {
            before.drop_last().push(before.last().push(s.last()))
        }
    }
}

/// The words of a text: what is between white space.
pub open spec fn words(s: Seq<char>) -> Seq<Seq<char>> {
    pieces(s, Separator::Space).filter(|w: Seq<char>| w.len() > 0)
}

/// The texts in a list.
pub open spec fn views(all: Seq<Vec<char>>) -> Seq<Seq<char>> {
    all.map_values(|w: Vec<char>| w@)
}

/// The parts of a text between separators.
pub fn pieces_of(s: &Vec<char>, by: Separator) -> (r: Vec<Vec<char>>)
    ensures
        views(r@) == pieces(s@, by),
{
    let mut r: Vec<Vec<char>> = Vec::new();
    let mut current: Vec<char> = Vec::new();
    let mut i: usize = 0;
    assert(s@.take(0) =~= Seq::<char>::empty());
    assert(views(r@).push(current@) =~= seq![Seq::<char>::empty()]);
    while i < s.len()
        invariant
            i <= s@.len(),
            views(r@).push(current@) == pieces(s@.take(i as int), by),
        decreases s@.len() - i,
    {
        let ghost before = pieces(s@.take(i as int), by);
        let ghost done = views(r@);
        proof {
            assert(s@.take(i + 1).drop_last() =~= s@.take(i as int));
            assert(s@.take(i + 1).last() == s@[i as int]);
            assert(before.last() == current@);
            assert(before.drop_last() =~= done);
        }
        if by.is_at(s[i]) {
            r.push(current);
            current = Vec::new();
            assert(views(r@) =~= done.push(before.last()));
            assert(views(r@).push(current@) =~= before.push(Seq::empty()));
        } else {
            current.push(s[i]);
        }
        i = i + 1;
    }
    assert(s@.take(i as int) =~= s@);
    let ghost done = views(r@);
    let ghost last = current@;
    r.push(current);
    assert(views(r@) =~= done.push(last));
    r
}

/// The words of a text.
pub fn words_of(s: &Vec<char>) -> (r: Vec<Vec<char>>)
    ensures
        views(r@) == words(s@),
{
    let all = pieces_of(s, Separator::Space);
    let ghost keep = |w: Seq<char>| w.len() > 0;
    let mut r: Vec<Vec<char>> = Vec::new();
    let mut i: usize = 0;
    proof {
        reveal(Seq::filter);
        assert(views(all@).take(0).filter(keep) =~= Seq::<Seq<char>>::empty());
        assert(views(r@) =~= Seq::<Seq<char>>::empty());
    }
    while i < all.len()
        invariant
            i <= all@.len(),
            keep == (|w: Seq<char>| w.len() > 0),
            views(r@) == views(all@).take(i as int).filter(keep),
        decreases all@.len() - i,
    {
        proof {
            reveal(Seq::filter);
            assert(views(all@).take(i + 1).drop_last() =~= views(all@).take(i as int));
            assert(views(all@).take(i + 1).last() == all@[i as int]@);
        }
        if all[i].len() > 0 {
            let ghost done = views(r@);
            let w = part(&all[i], 0, all[i].len());
            r.push(w);
            assert(w@ =~= all@[i as int]@);
            assert(views(r@) =~= done.push(all@[i as int]@));
        }
        i = i + 1;
    }
    assert(views(all@).take(i as int) =~= views(all@));
    r
}

// ---- numbers --------------------------------------------------------------

/// Why a text is not a number.
#[derive(Debug, Clone, Copy, PartialEq, Eq, Structural)]
pub enum NumberError {
    Empty,
    InvalidDigit,
    TooLarge,
    TooSmall,
}

impl NumberError {
    pub open spec fn words(self) -> Seq<char> {
        match self {
            NumberError::Empty => "cannot parse integer from empty string"@,
            NumberError::InvalidDigit => "invalid digit found in string"@,
            NumberError::TooLarge => "number too large to fit in target type"@,
            NumberError::TooSmall => "number too small to fit in target type"@,
        }
    }

    /// The error in words.
    pub fn message(&self) -> (r: &'static str)
        ensures
            r@ == self.words(),
    {
        match self {
            NumberError::Empty => "cannot parse integer from empty string",
            NumberError::InvalidDigit => "invalid digit found in string",
            NumberError::TooLarge => "number too large to fit in target type",
            NumberError::TooSmall => "number too small to fit in target type",
        }
    }
}

/// The number that a row of decimal digits stands for, up to `most`. What is
/// wrong first counts.
pub open spec fn magnitude(s: Seq<char>, most: int, beyond: NumberError) -> Result<
    int,
    NumberError,
>
    decreases s.len(),
{
    if s.len() == 0 {
        Ok(0)
    } else {
        match magnitude(s.drop_last(), most, beyond) {
            Err(e) => Err(e),
            Ok(n) => if !('0' <= s.last() <= '9') {
                Err(NumberError::InvalidDigit)
            } else {
                let next = n * 10 + (s.last() as int - '0' as int);
                if next > most {
                    Err(beyond)
                } else {
                    Ok(next)
                }
            },
        }
    }
}

/// The whole number that a text stands for, between `least` and `most`, with an
/// optional sign; a minus only where there are numbers below zero.
pub open spec fn whole(s: Seq<char>, least: int, most: int) -> Result<int, NumberError> {
    if s.len() == 0 {
        Err(NumberError::Empty)
    } else if s.len() == 1 && (s[0] == '+' || s[0] == '-') {
        Err(NumberError::InvalidDigit)
    } else if s[0] == '+' {
        magnitude(s.drop_first(), most, NumberError::TooLarge)
    } else if s[0] == '-' && least < 0 {
        match magnitude(s.drop_first(), -least, NumberError::TooSmall) {
            Ok(n) => Ok(-n),
            Err(e) => Err(e),
        }
    } else {
        magnitude(s, most, NumberError::TooLarge)
    }
}

fn read_magnitude(s: &Vec<char>, from: usize, most: u64, beyond: NumberError) -> (r: Result<
    u64,
    NumberError,
>)
    requires
        from <= s@.len(),
        most <= 0xffff_ffff,
    ensures
        match r {
            Ok(n) => magnitude(s@.skip(from as int), most as int, beyond) == Ok::<int, NumberError>(
                n as int,
            ) && n <= most,
            Err(e) => magnitude(s@.skip(from as int), most as int, beyond) == Err::<
                int,
                NumberError,
            >(e),
        },
{
    let ghost all = s@.skip(from as int);
    let mut n: u64 = 0;
    let mut i: usize = from;
    assert(all.take(0) =~= Seq::<char>::empty());
    while i < s.len()
        invariant
            from <= i <= s@.len(),
            all == s@.skip(from as int),
            most <= 0xffff_ffff,
            n <= most,
            magnitude(all.take(i - from), most as int, beyond) == Ok::<int, NumberError>(n as int),
        decreases s@.len() - i,
    {
        let c = s[i];
        proof {
            assert(all.take(i - from + 1).drop_last() =~= all.take(i - from));
            assert(all.take(i - from + 1).last() == c);
        }
        if !('0' <= c && c <= '9') {
            proof {
                lemma_magnitude_stuck(all, i - from + 1, most as int, beyond);
            }
            return Err(NumberError::InvalidDigit);
        }
        let next: u64 = n * 10 + (c as u64 - '0' as u64);
        if next > most {
            proof {
                lemma_magnitude_stuck(all, i - from + 1, most as int, beyond);
            }
            return Err(beyond);
        }
        n = next;
        i = i + 1;
    }
    assert(all.take(i - from) =~= all);
    Ok(n)
}

/// What is wrong in the first characters is wrong in the whole text.
proof fn lemma_magnitude_stuck(s: Seq<char>, k: int, most: int, beyond: NumberError)
    requires
        0 <= k <= s.len(),
        magnitude(s.take(k), most, beyond) is Err,
    ensures
        magnitude(s, most, beyond) == magnitude(s.take(k), most, beyond),
    decreases s.len(),
{
    if k == s.len() {
        assert(s.take(k) =~= s);
    } else {
        assert(s.drop_last().take(k) =~= s.take(k));
        lemma_magnitude_stuck(s.drop_last(), k, most, beyond);
    }
}

/// Read a whole number that is not negative.
pub fn read_u32(s: &Vec<char>) -> (r: Result<u32, NumberError>)
    ensures
        match r {
            Ok(n) => whole(s@, 0, u32::MAX as int) == Ok::<int, NumberError>(n as int),
            Err(e) => whole(s@, 0, u32::MAX as int) == Err::<int, NumberError>(e),
        },
{
    if s.len() == 0 {
        return Err(NumberError::Empty);
    }
    if s.len() == 1 && (s[0] == '+' || s[0] == '-') {
        return Err(NumberError::InvalidDigit);
    }
    let from: usize = if s[0] == '+' {
        1
    } else {
        0
    };
    assert(s@.skip(0) =~= s@);
    assert(s@.skip(1) =~= s@.drop_first());
    match read_magnitude(s, from, 0xffff_ffff, NumberError::TooLarge) {
        Ok(n) => Ok(n as u32),
        Err(e) => Err(e),
    }
}

/// Read a whole number.
pub fn read_i32(s: &Vec<char>) -> (r: Result<i32, NumberError>)
    ensures
        match r {
            Ok(n) => whole(s@, i32::MIN as int, i32::MAX as int) == Ok::<int, NumberError>(
                n as int,
            ),
            Err(e) => whole(s@, i32::MIN as int, i32::MAX as int) == Err::<int, NumberError>(e),
        },
{
    if s.len() == 0 {
        return Err(NumberError::Empty);
    }
    if s.len() == 1 && (s[0] == '+' || s[0] == '-') {
        return Err(NumberError::InvalidDigit);
    }
    assert(s@.skip(0) =~= s@);
    assert(s@.skip(1) =~= s@.drop_first());
    if s[0] == '-' {
        match read_magnitude(s, 1, 0x8000_0000, NumberError::TooSmall) {
            Ok(n) => Ok((-(n as i64)) as i32),
            Err(e) => Err(e),
        }
    } else {
        let from: usize = if s[0] == '+' {
            1
        } else {
            0
        };
        match read_magnitude(s, from, 0x7fff_ffff, NumberError::TooLarge) {
            Ok(n) => Ok(n as i32),
            Err(e) => Err(e),
        }
    }
}

// ---- what holds of texts --------------------------------------------------

/// The ASCII letters have the cases that they have: `A` is `a` in upper case, up
/// to `Z` and `z`. Nothing else has another case.
pub proof fn law_letters_have_cases(c: char)
    ensures
        'a' <= c <= 'z' ==> upper(c) as int == c as int - ('a' as int - 'A' as int) && lower(
            upper(c),
        ) == c && lower(c) == c,
        'A' <= c <= 'Z' ==> lower(c) as int == c as int + ('a' as int - 'A' as int) && upper(
            lower(c),
        ) == c && upper(c) == c,
        !('a' <= c <= 'z') && !('A' <= c <= 'Z') ==> upper(c) == c && lower(c) == c,
{
}

/// Texts are the same but for the cases exactly where they have the same length
/// and every two characters are the same but for the case.
pub proof fn law_same_letters(a: Seq<char>, b: Seq<char>)
    ensures
        same_letters(a, b) <==> a.len() == b.len() && forall|i: int|
            0 <= i < a.len() ==> {
                ||| (#[trigger] a[i]) == b[i]
                ||| 'A' <= a[i] <= 'Z' && b[i] as int == a[i] as int + 32
                ||| 'A' <= b[i] <= 'Z' && a[i] as int == b[i] as int + 32
            },
        same_letters(uppercase(a), a),
        same_letters(lowercase(a), a),
{
    assert forall|x: Seq<char>, y: Seq<char>| #[trigger] same_letters(x, y) <==> x.len() == y.len()
        && forall|i: int| 0 <= i < x.len() ==> lower(#[trigger] x[i]) == lower(y[i]) by {
        if same_letters(x, y) {
            assert(lowercase(x).len() == x.len() && lowercase(y).len() == y.len());
            assert forall|i: int| 0 <= i < x.len() implies lower(#[trigger] x[i]) == lower(
                y[i],
            ) by {
                assert(lowercase(x)[i] == lowercase(y)[i]);
            }
        } else if x.len() == y.len() && forall|i: int|
            0 <= i < x.len() ==> lower(#[trigger] x[i]) == lower(y[i]) {
            assert(lowercase(x) =~= lowercase(y));
        }
    }
    assert forall|i: int| 0 <= i < a.len() implies (lower(#[trigger] a[i]) == lower(b[i]) <==> {
        ||| a[i] == b[i]
        ||| 'A' <= a[i] <= 'Z' && b[i] as int == a[i] as int + 32
        ||| 'A' <= b[i] <= 'Z' && a[i] as int == b[i] as int + 32
    }) by {
        law_letters_have_cases(a[i]);
        law_letters_have_cases(b[i]);
    }
    assert forall|i: int| 0 <= i < a.len() implies lower(#[trigger] uppercase(a)[i]) == lower(
        a[i],
    ) by {
        law_letters_have_cases(a[i]);
    }
    assert forall|i: int| 0 <= i < a.len() implies lower(#[trigger] lowercase(a)[i]) == lower(
        a[i],
    ) by {
        law_letters_have_cases(a[i]);
    }
}

/// Without separators a text is one piece.
pub proof fn lemma_one_piece(s: Seq<char>, by: Separator)
    requires
        forall|i: int| 0 <= i < s.len() ==> !by.splits(#[trigger] s[i]),
    ensures
        pieces(s, by) == seq![s],
    decreases s.len(),
{
    if s.len() == 0 {
        assert(s =~= Seq::<char>::empty());
    } else {
        let front = s.drop_last();
        assert forall|i: int| 0 <= i < front.len() implies !by.splits(#[trigger] front[i]) by {
            assert(!by.splits(s[i]));
        }
        lemma_one_piece(front, by);
        assert(front.push(s.last()) =~= s);
        assert(pieces(s, by) =~= seq![s]);
    }
}

/// Texts with a separator between them have the pieces of both.
pub proof fn law_pieces_of_joined_texts(a: Seq<char>, c: char, b: Seq<char>, by: Separator)
    requires
        by.splits(c),
    ensures
        pieces(a.push(c) + b, by) == pieces(a, by) + pieces(b, by),
        pieces(a, by).len() >= 1,
    decreases b.len(),
{
    lemma_some_piece(a, by);
    lemma_some_piece(b, by);
    let s = a.push(c) + b;
    if b.len() == 0 {
        assert(s =~= a.push(c));
        assert(s.drop_last() =~= a);
        assert(pieces(s, by) =~= pieces(a, by) + pieces(b, by));
    } else {
        law_pieces_of_joined_texts(a, c, b.drop_last(), by);
        lemma_some_piece(b.drop_last(), by);
        assert(s.drop_last() =~= a.push(c) + b.drop_last());
        assert(s.last() == b.last());
        assert(pieces(s, by) =~= pieces(a, by) + pieces(b, by));
    }
}

proof fn lemma_some_piece(s: Seq<char>, by: Separator)
    ensures
        pieces(s, by).len() >= 1,
    decreases s.len(),
{
    if s.len() > 0 {
        lemma_some_piece(s.drop_last(), by);
    }
}

/// Whether a text is one word: it is not empty and has no white space.
pub open spec fn one_word(s: Seq<char>) -> bool {
    s.len() > 0 && forall|i: int| 0 <= i < s.len() ==> !space(#[trigger] s[i])
}

/// A word is the only word of itself, and a word in front of a text, with white
/// space between them, is the first word of all.
pub proof fn law_words_are_told_apart(a: Seq<char>, c: char, b: Seq<char>)
    requires
        one_word(a),
        space(c),
    ensures
        words(a) == seq![a],
        words(a.push(c) + b) == seq![a] + words(b),
        words(seq![c] + b) == words(b),
{
    reveal(Seq::filter);
    let keep = |w: Seq<char>| w.len() > 0;
    let by = Separator::Space;
    lemma_one_piece(a, by);
    law_pieces_of_joined_texts(a, c, b, by);
    let none = Seq::<char>::empty();
    lemma_one_piece(none, by);
    law_pieces_of_joined_texts(none, c, b, by);
    assert(none.push(c) =~= seq![c]);
    assert(seq![a].drop_last() =~= Seq::<Seq<char>>::empty());
    assert(seq![none].drop_last() =~= Seq::<Seq<char>>::empty());
    assert(seq![a].filter(keep) =~= seq![a]);
    assert(seq![none].filter(keep) =~= Seq::<Seq<char>>::empty());
    Seq::filter_distributes_over_add(seq![a], pieces(b, by), keep);
    Seq::filter_distributes_over_add(seq![none], pieces(b, by), keep);
    assert(Seq::<Seq<char>>::empty() + words(b) =~= words(b));
}

/// A number that is written down is read as that number: in decimal, with a sign
/// in front or without.
pub proof fn law_numbers_are_read_back(n: nat, least: int, most: int)
    requires
        least <= 0,
    ensures
        n <= most ==> whole(decimal(n), least, most) == Ok::<int, NumberError>(n as int),
        n <= most ==> whole(seq!['+'] + decimal(n), least, most) == Ok::<int, NumberError>(
            n as int,
        ),
        least < 0 && n <= -least ==> whole(seq!['-'] + decimal(n), least, most) == Ok::<
            int,
            NumberError,
        >(-(n as int)),
        n > most >= 0 ==> whole(decimal(n), least, most) is Err,
{
    lemma_magnitude(n, most, NumberError::TooLarge);
    lemma_magnitude(n, -least, NumberError::TooSmall);
    assert((seq!['+'] + decimal(n)).drop_first() =~= decimal(n));
    assert((seq!['-'] + decimal(n)).drop_first() =~= decimal(n));
    assert('0' <= decimal(n)[0] <= '9');
}

proof fn lemma_magnitude(n: nat, most: int, beyond: NumberError)
    ensures
        decimal(n).len() >= 1,
        '0' <= decimal(n)[0] <= '9',
        n <= most ==> magnitude(decimal(n), most, beyond) == Ok::<int, NumberError>(n as int),
        n > most >= 0 ==> magnitude(decimal(n), most, beyond) == Err::<int, NumberError>(beyond),
    decreases n,
{
    let d = n % 10;
    assert(digit(d) as int == '0' as int + d);
    if n < 10 {
        assert(decimal(n).drop_last() =~= Seq::<char>::empty());
        assert(magnitude(decimal(n).drop_last(), most, beyond) == Ok::<int, NumberError>(0));
    } else {
        lemma_magnitude(n / 10, most, beyond);
        assert(decimal(n).drop_last() =~= decimal(n / 10));
        assert(decimal(n).last() == digit(d));
    }
}

/// Trimming takes off white space and nothing else: what is left neither begins
/// nor ends with any, and is a part of the text between white space.
pub proof fn law_trim_takes_off_space(s: Seq<char>) -> (at: (int, int))
    ensures
        0 <= at.0 <= at.1 <= s.len(),
        trim(s) == s.subrange(at.0, at.1),
        forall|i: int| 0 <= i < at.0 || at.1 <= i < s.len() ==> space(#[trigger] s[i]),
        trim(s).len() > 0 ==> !space(trim(s).first()) && !space(trim(s).last()),
{
    let a = lemma_trim_front(s);
    let rest = trim_front(s);
    let b = lemma_trim_back(rest);
    assert(rest.subrange(0, b) =~= s.subrange(a, a + b));
    assert forall|i: int| 0 <= i < a || a + b <= i < s.len() implies space(#[trigger] s[i]) by {
        if i >= a {
            assert(rest[i - a] == s[i]);
        }
    }
    if b > 0 {
        assert(trim(s).first() == rest.first());
    }
    (a, a + b)
}

proof fn lemma_trim_front(s: Seq<char>) -> (a: int)
    ensures
        0 <= a <= s.len(),
        trim_front(s) == s.subrange(a, s.len() as int),
        forall|i: int| 0 <= i < a ==> space(#[trigger] s[i]),
        a < s.len() ==> !space(s[a]),
    decreases s.len(),
{
    if s.len() > 0 && space(s.first()) {
        let t = s.drop_first();
        let a = lemma_trim_front(t);
        assert(t.subrange(a, t.len() as int) =~= s.subrange(a + 1, s.len() as int));
        assert forall|i: int| 0 <= i < a + 1 implies space(#[trigger] s[i]) by {
            if i > 0 {
                assert(t[i - 1] == s[i]);
            }
        }
        if a < t.len() {
            assert(t[a] == s[a + 1]);
        }
        a + 1
    } else {
        assert(s.subrange(0, s.len() as int) =~= s);
        0
    }
}

proof fn lemma_trim_back(s: Seq<char>) -> (b: int)
    ensures
        0 <= b <= s.len(),
        trim_back(s) == s.subrange(0, b),
        forall|i: int| b <= i < s.len() ==> space(#[trigger] s[i]),
        b > 0 ==> !space(s[b - 1]),
    decreases s.len(),
{
    if s.len() > 0 && space(s.last()) {
        let t = s.drop_last();
        let b = lemma_trim_back(t);
        assert(t.subrange(0, b) =~= s.subrange(0, b));
        assert forall|i: int| b <= i < s.len() implies space(#[trigger] s[i]) by {
            if i < t.len() {
                assert(t[i] == s[i]);
            }
        }
        b
    } else {
        assert(s.subrange(0, s.len() as int) =~= s);
        s.len() as int
    }
}

/// A blank, a tab and the ends of lines are white space; letters, digits and
/// punctuation are not.
pub proof fn law_white_space(c: char)
    ensures
        space(' ') && space('\t') && space('\n') && space('\r') && space('\u{a0}') && space(
            '\u{3000}',
        ),
        '!' <= c <= '~' ==> !space(c),
{
}

} // verus!
