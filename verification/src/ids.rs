//! Identifiers used across the crate.

use vstd::prelude::*;

verus! {

/// A value that identifies a window: it can be copied, and two of them can be
/// compared.
pub trait Key: Copy {
    /// Whether both are the same.
    fn same(&self, other: &Self) -> (r: bool)
        ensures
            r == (*self == *other),
    ;
}

impl Key for u32 {
    fn same(&self, other: &Self) -> (r: bool) {
        *self == *other
    }
}

/// A handle to a top-level window.
#[derive(Debug, Clone, Copy, PartialEq, Eq, Hash, Structural)]
pub struct Window(pub isize);

/// The identifier of a managed window, taken from its handle.
#[derive(Debug, Clone, Copy, PartialEq, Eq, Hash, PartialOrd, Ord, Structural)]
pub struct WindowId(pub isize);

impl Key for WindowId {
    fn same(&self, other: &Self) -> (r: bool) {
        *self == *other
    }
}

/// The stable identifier of a monitor.
#[derive(Debug, Clone, PartialEq, Eq, Hash, PartialOrd, Ord)]
pub struct MonitorId(pub String);

impl View for MonitorId {
    type V = Seq<char>;

    open spec fn view(&self) -> Seq<char> {
        self.0@
    }
}

impl MonitorId {
    /// The same identifier once more.
    pub fn copied(&self) -> (r: MonitorId)
        ensures
            r == *self,
    {
        MonitorId(self.0.clone())
    }

    /// Whether both identify the same monitor.
    pub fn same(&self, other: &MonitorId) -> (r: bool)
        ensures
            r == (self@ == other@),
    {
        self.0 == other.0
    }
}

/// Whether `a` comes before `b` in the order of their characters' code points.
pub open spec fn precedes(a: Seq<char>, b: Seq<char>) -> bool
    decreases a.len(),
{
    if b.len() == 0 {
        false
    } else if a.len() == 0 {
        true
    } else if a[0] != b[0] {
        (a[0] as int) < (b[0] as int)
    } else {
        precedes(a.drop_first(), b.drop_first())
    }
}

/// Whether `a` comes before `b`.
pub fn comes_before(a: &String, b: &String) -> (r: bool)
    ensures
        r == precedes(a@, b@),
{
    let x = a.as_str();
    let y = b.as_str();
    let m: usize = x.unicode_len();
    let n: usize = y.unicode_len();
    let mut i: usize = 0;
    assert(a@.skip(0) =~= a@);
    assert(b@.skip(0) =~= b@);
    while i < m && i < n
        invariant
            x@ == a@,
            y@ == b@,
            m == a@.len(),
            n == b@.len(),
            i <= m,
            i <= n,
            precedes(a@, b@) == precedes(a@.skip(i as int), b@.skip(i as int)),
        decreases m - i,
    {
        let c: char = x.get_char(i);
        let d: char = y.get_char(i);
        assert(a@.skip(i as int)[0] == c);
        assert(b@.skip(i as int)[0] == d);
        if c != d {
            return (c as u32) < (d as u32);
        }
        assert(a@.skip(i as int).drop_first() =~= a@.skip(i + 1));
        assert(b@.skip(i as int).drop_first() =~= b@.skip(i + 1));
        i = i + 1;
    }
    i < n
}

/// The order of identifiers is a strict total order.
pub proof fn lemma_precedes_total(a: Seq<char>, b: Seq<char>)
    ensures
        precedes(a, b) ==> !precedes(b, a),
        a != b ==> precedes(a, b) || precedes(b, a),
        a == b ==> !precedes(a, b),
    decreases a.len(),
{
    if a.len() > 0 && b.len() > 0 {
        if a[0] == b[0] {
            lemma_precedes_total(a.drop_first(), b.drop_first());
            if a.drop_first() == b.drop_first() {
                assert(a =~= seq![a[0]] + a.drop_first());
                assert(b =~= seq![b[0]] + b.drop_first());
                assert(a == b);
            }
        } else {
            assert(a[0] as int != b[0] as int);
        }
    } else if a.len() == 0 && b.len() == 0 {
        assert(a =~= b);
    }
}

/// The order of identifiers is transitive.
pub proof fn lemma_precedes_transitive(a: Seq<char>, b: Seq<char>, c: Seq<char>)
    requires
        precedes(a, b),
        precedes(b, c),
    ensures
        precedes(a, c),
    decreases a.len(),
{
    if a.len() > 0 && a[0] == b[0] && b[0] == c[0] {
        lemma_precedes_transitive(a.drop_first(), b.drop_first(), c.drop_first());
    }
}

/// The number of a workspace in the global pool, from 1 up.
#[derive(Debug, Clone, Copy, PartialEq, Eq, Hash, PartialOrd, Ord, Structural)]
pub struct WorkspaceId(pub u32);

/// Of two texts that part at some place, the one with the lower character there comes
/// first; a text comes before all that go on from it, and never before itself.
pub proof fn law_texts_are_in_order(front: Seq<char>, a: Seq<char>, b: Seq<char>)
    ensures
        a.len() > 0 ==> precedes(front, front + a) && !precedes(front + a, front),
        a.len() > 0 && b.len() > 0 && a[0] != b[0] ==> (precedes(front + a, front + b) <==> a[0]
            < b[0]),
        !precedes(front, front),
    decreases front.len(),
{
    if front.len() == 0 {
        assert(front + a =~= a);
        assert(front + b =~= b);
    } else {
        let rest = front.drop_first();
        law_texts_are_in_order(rest, a, b);
        assert((front + a).drop_first() =~= rest + a);
        assert((front + b).drop_first() =~= rest + b);
    }
}

} // verus!
