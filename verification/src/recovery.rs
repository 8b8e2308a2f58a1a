//! The list of managed windows that outlives a crash.

use crate::text;
use vstd::prelude::*;

verus! {

/// What `serde_json::from_slice` makes of bytes that are to hold a list of
/// window handles: the handles, or what is said of the bytes.
pub uninterp spec fn ids_read(bytes: Seq<u8>) -> Result<Seq<isize>, Seq<char>>;

/// Read a list of window handles with `serde_json::from_slice`. The result
/// depends on the bytes alone; an error is turned into its text. A number that
/// is no handle of the machine's width is an error.
#[verifier::external_body]
fn read_ids(bytes: &[u8]) -> (r: Result<Vec<isize>, String>)
    ensures
        match r {
            Ok(ids) => ids_read(bytes@) == Ok::<Seq<isize>, Seq<char>>(ids@),
            Err(e) => ids_read(bytes@) == Err::<Seq<isize>, Seq<char>>(e@),
        },
{
    match serde_json::from_slice(bytes) {
        Ok(ids) => Ok(ids),
        Err(e) => Err(e.to_string()),
    }
}

/// A whole number in decimal.
pub open spec fn number(n: int) -> Seq<char> {
    if n < 0 {
        seq!['-'] + text::decimal((-n) as nat)
    } else {
        text::decimal(n as nat)
    }
}

/// Numbers with commas between them.
pub open spec fn numbers(ids: Seq<isize>) -> Seq<char>
    decreases ids.len(),
{
    if ids.len() == 0 {
        Seq::empty()
    } else if ids.len() == 1 {
        number(ids[0] as int)
    } else {
        numbers(ids.drop_last()) + seq![','] + number(ids.last() as int)
    }
}

/// A list of handles as it is written down: decimal numbers with commas between
/// them, in square brackets.
pub open spec fn list_bytes(ids: Seq<isize>) -> Seq<u8> {
    (seq!['['] + numbers(ids) + seq![']']).map_values(|c: char| c as u8)
}

/// Write a list of handles down with `serde_json::to_vec`. For whole numbers it
/// does not fail, it writes the list without white space, and
/// `serde_json::from_slice` reads the same handles again.
#[verifier::external_body]
fn write_ids(ids: &Vec<isize>) -> (r: Result<Vec<u8>, String>)
    ensures
        match r {
            Ok(bytes) => {
                &&& bytes@ == list_bytes(ids@)
                &&& ids_read(bytes@) == Ok::<Seq<isize>, Seq<char>>(ids@)
            },
            Err(_) => false,
        },
{
    match serde_json::to_vec(ids) {
        Ok(bytes) => Ok(bytes),
        Err(e) => Err(e.to_string()),
    }
}

/// The bytes of a list of handles. They are read as the same list again.
pub fn list_to_save(ids: &Vec<isize>) -> (r: Result<Vec<u8>, String>)
    ensures
        match r {
            Ok(bytes) => {
                &&& bytes@ == list_bytes(ids@)
                &&& ids_read(bytes@) == Ok::<Seq<isize>, Seq<char>>(ids@)
            },
            Err(_) => false,
        },
{
    write_ids(ids)
}

/// The handles in a file's bytes; none where there was no file.
pub fn saved_ids(bytes: Option<Vec<u8>>) -> (r: Result<Option<Vec<isize>>, String>)
    ensures
        match bytes {
            None => r == Ok::<Option<Vec<isize>>, String>(None),
            Some(b) => match r {
                Ok(Some(ids)) => ids_read(b@) == Ok::<Seq<isize>, Seq<char>>(ids@),
                Ok(None) => false,
                Err(e) => ids_read(b@) == Err::<Seq<isize>, Seq<char>>(e@),
            },
        },
{
    match bytes {
        None => Ok(None),
        Some(b) => match read_ids(b.as_slice()) {
            Ok(ids) => Ok(Some(ids)),
            Err(e) => Err(e),
        },
    }
}

/// The handles of a list whose windows are still there, in the order of the list.
pub open spec fn still_there(ids: Seq<isize>, alive: Seq<bool>) -> Seq<isize>
    decreases ids.len(),
{
    if ids.len() == 0 {
        Seq::empty()
    } else {
        let before = still_there(ids.drop_last(), alive.drop_last());
        if alive.last() {
            before.push(ids.last())
        } else {
            before
        }
    }
}

/// Which windows of a saved list are to be shown again: those that are still
/// there.
pub fn to_restore(ids: &Vec<isize>, alive: &Vec<bool>) -> (r: Vec<isize>)
    requires
        ids@.len() == alive@.len(),
    ensures
        r@ == still_there(ids@, alive@),
{
    let mut r: Vec<isize> = Vec::new();
    let mut i: usize = 0;
    assert(r@ =~= still_there(ids@.take(0), alive@.take(0)));
    while i < ids.len()
        invariant
            i <= ids@.len(),
            ids@.len() == alive@.len(),
            r@ == still_there(ids@.take(i as int), alive@.take(i as int)),
        decreases ids@.len() - i,
    {
        proof {
            let n = i + 1;
            assert(ids@.take(n).drop_last() =~= ids@.take(i as int));
            assert(alive@.take(n).drop_last() =~= alive@.take(i as int));
        }
        if alive[i] {
            r.push(ids[i]);
        }
        i = i + 1;
    }
    assert(ids@.take(i as int) =~= ids@);
    assert(alive@.take(i as int) =~= alive@);
    r
}

/// A window is shown again if and only if it is on the list and still there.
pub proof fn law_restore_shows_the_living(ids: Seq<isize>, alive: Seq<bool>, id: isize)
    requires
        ids.len() == alive.len(),
    ensures
        still_there(ids, alive).contains(id) <==> exists|i: int|
            0 <= i < ids.len() && #[trigger] ids[i] == id && alive[i],
    decreases ids.len(),
{
    let all = still_there(ids, alive);
    if ids.len() > 0 {
        let n = ids.len() - 1;
        let before = still_there(ids.drop_last(), alive.drop_last());
        law_restore_shows_the_living(ids.drop_last(), alive.drop_last(), id);
        if all.contains(id) {
            let k = all.index_of(id);
            if k < before.len() {
                assert(before[k] == id);
                assert(before.contains(id));
                let i = choose|i: int|
                    0 <= i < n && #[trigger] ids.drop_last()[i] == id && alive.drop_last()[i];
                assert(ids[i] == id && alive[i]);
            } else {
                assert(ids[n] == id && alive[n]);
            }
        }
        if exists|i: int| 0 <= i < ids.len() && #[trigger] ids[i] == id && alive[i] {
            let i = choose|i: int| 0 <= i < ids.len() && #[trigger] ids[i] == id && alive[i];
            if i < n {
                assert(ids.drop_last()[i] == id && alive.drop_last()[i]);
                assert(before.contains(id));
                let k = before.index_of(id);
                assert(all[k] == id);
            } else {
                assert(all[all.len() - 1] == id);
            }
        }
    }
}

} // verus!
