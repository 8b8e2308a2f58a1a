//! What the answers of the system say of a window.

use crate::ids::Window;
use crate::rect::Rect;
use crate::text;
use crate::text::{chars_of, pieces_of, reads, string_of, Separator};
use vstd::prelude::*;

verus! {

/// Cloaked by the shell: on another virtual desktop.
pub const DWM_CLOAKED_SHELL: u32 = 0x2;

/// Cloaked along with its owner.
pub const DWM_CLOAKED_INHERITED: u32 = 0x4;

/// The last name of a path, by its parts. The path of a folder's parent has
/// none.
pub open spec fn last_name(parts: Seq<Seq<char>>) -> Seq<char>
    decreases parts.len(),
{
    if parts.len() == 0 {
        Seq::empty()
    } else if parts.last().len() == 0 || parts.last() == "."@ {
        last_name(parts.drop_last())
    } else if parts.last() == ".."@ {
        Seq::empty()
    } else {
        parts.last()
    }
}

/// The last name of a path.
pub open spec fn base_name(path: Seq<char>) -> Seq<char> {
    last_name(text::pieces(path, Separator::Path))
}

impl Window {
    /// The name of a program, from the path of its file.
    pub fn exe_name(path: &str) -> (r: String)
        ensures
            r@ == base_name(path@),
    {
        let parts = pieces_of(&chars_of(path), Separator::Path);
        let mut n: usize = parts.len();
        let ghost all = text::views(parts@);
        assert(all.take(n as int) =~= all);
        while n > 0
            invariant
                n <= parts@.len(),
                all == text::views(parts@),
                all == text::pieces(path@, Separator::Path),
                last_name(all) == last_name(all.take(n as int)),
            decreases n,
        {
            let part = &parts[n - 1];
            proof {
                assert(all.take(n as int).last() == part@);
                assert(all.take(n as int).drop_last() =~= all.take(n - 1));
            }
            if part.len() == 0 || reads(part, ".") {
                n = n - 1;
            } else if reads(part, "..") {
                return no_text();
            } else {
                return string_of(part);
            }
        }
        no_text()
    }

    /// The bounds of a window that are seen: those of its frame, or those of the
    /// window where the frame is not known.
    pub fn visual_rect(frame: Option<Rect>, whole: Option<Rect>) -> (r: Option<Rect>)
        ensures
            r == (if frame is Some {
                frame
            } else {
                whole
            }),
    {
        match frame {
            Some(f) => Some(f),
            None => whole,
        }
    }

    /// Whether the flags say that a window is cloaked by the shell, or along
    /// with its owner. A window whose flags cannot be read is not.
    pub fn is_cloaked_by_shell(flags: Option<u32>) -> (r: bool)
        ensures
            r == (flags matches Some(v) && v & 6u32 != 0),
    {
        match flags {
            Some(v) => {
                assert(DWM_CLOAKED_SHELL | DWM_CLOAKED_INHERITED == 6u32) by (bit_vector);
                (v & (DWM_CLOAKED_SHELL | DWM_CLOAKED_INHERITED)) != 0
            },
            None => false,
        }
    }
}

fn no_text() -> (r: String)
    ensures
        r@ == Seq::<char>::empty(),
{
    let r = String::new();
    assert(r@ =~= Seq::<char>::empty());
    r
}

/// The name of a program is what stands behind the last separator of its path.
pub proof fn law_name_stands_at_the_end(folder: Seq<char>, sep: char, name: Seq<char>)
    requires
        sep == '\\' || sep == '/',
        forall|i: int| 0 <= i < name.len() ==> #[trigger] name[i] != '\\' && name[i] != '/',
        name.len() > 0,
        name != "."@ && name != ".."@,
    ensures
        base_name(folder + seq![sep] + name) == name,
        base_name(name) == name,
{
    text::law_pieces_of_joined_texts(folder, sep, name, Separator::Path);
    text::lemma_one_piece(name, Separator::Path);
    assert(folder + seq![sep] + name =~= folder.push(sep) + name);
    let all = text::pieces(folder, Separator::Path) + seq![name];
    assert(all.last() == name);
}

} // verus!
