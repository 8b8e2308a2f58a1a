//! Managed windows and the registry that holds them.

use crate::ids::{WindowId, WorkspaceId};
use vstd::prelude::*;

verus! {

/// How a window takes part in its workspace.
#[derive(Debug, Clone, Copy, PartialEq, Eq, Hash, Structural)]
pub enum WindowMode {
    /// As a tile.
    Tiled,
    /// At a position of its own.
    Floating,
}

/// What is kept of a managed window besides its place in the layout. Title,
/// class and executable are those of the time it was admitted, so that they can
/// be read after the window has died.
#[derive(Debug, Clone)]
pub struct ManagedWindow {
    pub id: WindowId,
    pub workspace: WorkspaceId,
    pub mode: WindowMode,
    pub title: String,
    pub class: String,
    pub exe_name: String,
    /// Whether the window manager has hidden the window and has to show it
    /// again at the end.
    pub hidden_by_us: bool,
}

impl ManagedWindow {
    /// The same record once more.
    pub fn copied(&self) -> (r: ManagedWindow)
        ensures
            r == *self,
    {
        ManagedWindow {
            id: self.id,
            workspace: self.workspace,
            mode: self.mode,
            title: self.title.clone(),
            class: self.class.clone(),
            exe_name: self.exe_name.clone(),
            hidden_by_us: self.hidden_by_us,
        }
    }
}

/// All managed windows, each identifier once.
#[derive(Debug, Clone)]
pub struct Registry {
    pub items: Vec<ManagedWindow>,
}

/// Whether the item at `i` is window `id`.
pub open spec fn is_at(items: Seq<ManagedWindow>, i: int, id: WindowId) -> bool {
    0 <= i < items.len() && items[i].id == id
}

impl View for Registry {
    type V = Map<WindowId, ManagedWindow>;

    open spec fn view(&self) -> Map<WindowId, ManagedWindow> {
        Map::new(
            |id: WindowId| exists|i: int| is_at(self.items@, i, id),
            |id: WindowId| self.items@[choose|i: int| is_at(self.items@, i, id)],
        )
    }
}

impl Registry {
    /// No window is registered twice.
    pub open spec fn distinct(&self) -> bool {
        forall|i: int, j: int|
            0 <= i < self.items@.len() && 0 <= j < self.items@.len() && i != j
                ==> #[trigger] self.items@[i].id != #[trigger] self.items@[j].id
    }

    /// Where a window is found.
    pub proof fn lemma_at(&self, i: int)
        requires
            self.distinct(),
            0 <= i < self.items@.len(),
        ensures
            self@.contains_key(self.items@[i].id),
            self@[self.items@[i].id] == self.items@[i],
    {
        let id = self.items@[i].id;
        assert(is_at(self.items@, i, id));
        let k = choose|k: int| is_at(self.items@, k, id);
        assert(is_at(self.items@, k, id));
    }

    /// A registered window has a position.
    pub proof fn lemma_found(&self, id: WindowId)
        requires
            self@.contains_key(id),
        ensures
            exists|k: int|
                0 <= k < self.items@.len() && #[trigger] self.items@[k] == self@[id]
                    && self.items@[k].id == id,
    {
        let k = choose|k: int| is_at(self.items@, k, id);
        assert(is_at(self.items@, k, id));
        assert(self.items@[k] == self@[id]);
    }

    /// The identifiers in the order of registration name every window once.
    pub proof fn lemma_lists(&self, order: Seq<WindowId>)
        requires
            self.distinct(),
            order.len() == self.items@.len(),
            forall|j: int| 0 <= j < order.len() ==> #[trigger] order[j] == self.items@[j].id,
        ensures
            crate::model::lists(order, self@),
    {
        assert forall|id: WindowId| #[trigger] order.contains(id) <==> self@.contains_key(id) by {
            if order.contains(id) {
                let k = order.index_of(id);
                self.lemma_at(k);
            }
            if self@.contains_key(id) {
                let k = choose|k: int| is_at(self.items@, k, id);
                assert(is_at(self.items@, k, id));
                assert(order[k] == id);
            }
        }
    }

    pub fn new() -> (r: Self)
        ensures
            r.distinct(),
            r@ == Map::<WindowId, ManagedWindow>::empty(),
    {
        let r = Registry { items: Vec::new() };
        assert(r@ =~= Map::<WindowId, ManagedWindow>::empty());
        r
    }

    /// The same windows once more.
    pub fn copied(&self) -> (r: Self)
        ensures
            r.items@ == self.items@,
            r@ == self@,
    {
        let mut items: Vec<ManagedWindow> = Vec::new();
        let mut i: usize = 0;
        while i < self.items.len()
            invariant
                i <= self.items@.len(),
                items@.len() == i,
                forall|k: int| 0 <= k < i ==> #[trigger] items@[k] == self.items@[k],
            decreases self.items@.len() - i,
        {
            items.push(self.items[i].copied());
            i = i + 1;
        }
        assert(items@ =~= self.items@);
        Registry { items }
    }

    /// The position of a window.
    pub fn find(&self, id: WindowId) -> (r: Option<usize>)
        requires
            self.distinct(),
        ensures
            match r {
                Some(i) => is_at(self.items@, i as int, id) && self@.contains_key(id) && self@[id]
                    == self.items@[i as int],
                None => !self@.contains_key(id),
            },
    {
        let mut i: usize = 0;
        while i < self.items.len()
            invariant
                i <= self.items.len(),
                self.distinct(),
                forall|j: int| 0 <= j < i ==> (#[trigger] self.items@[j]).id != id,
            decreases self.items.len() - i,
        {
            if self.items[i].id == id {
                proof {
                    self.lemma_at(i as int);
                }
                return Some(i);
            }
            i = i + 1;
        }
        None
    }

    pub fn contains_key(&self, id: WindowId) -> (r: bool)
        requires
            self.distinct(),
        ensures
            r == self@.contains_key(id),
    {
        self.find(id).is_some()
    }

    pub fn get(&self, id: WindowId) -> (r: Option<&ManagedWindow>)
        requires
            self.distinct(),
        ensures
            match r {
                Some(w) => self@.contains_key(id) && *w == self@[id],
                None => !self@.contains_key(id),
            },
    {
        match self.find(id) {
            Some(i) => Some(&self.items[i]),
            None => None,
        }
    }

    /// Register a window, in place of one with the same identifier.
    pub fn insert(&mut self, w: ManagedWindow)
        requires
            old(self).distinct(),
        ensures
            final(self).distinct(),
            final(self)@ == old(self)@.insert(w.id, w),
    {
        let ghost before = *self;
        match self.find(w.id) {
            Some(i) => {
                let ghost at = i as int;
                self.items.set(i, w);
                proof {
                    Self::lemma_replaced(before, *self, at, w);
                }
            },
            None => {
                self.items.push(w);
                proof {
                    assert forall|i: int, j: int|
                        0 <= i < self.items@.len() && 0 <= j < self.items@.len() && i
                            != j implies #[trigger] self.items@[i].id
                        != #[trigger] self.items@[j].id by {
                        if i == self.items@.len() - 1 {
                            before.lemma_at(j);
                        } else if j == self.items@.len() - 1 {
                            before.lemma_at(i);
                        }
                    }
                    assert forall|id: WindowId| #[trigger]
                        self@.contains_key(id) <==> before@.insert(w.id, w).contains_key(id) by {
                        if self@.contains_key(id) {
                            let k = choose|k: int| is_at(self.items@, k, id);
                            assert(is_at(self.items@, k, id));
                            if k < before.items@.len() {
                                before.lemma_at(k);
                            }
                        }
                        if before@.contains_key(id) {
                            let k = choose|k: int| is_at(before.items@, k, id);
                            assert(is_at(before.items@, k, id));
                            self.lemma_at(k);
                        }
                        if id == w.id {
                            self.lemma_at(self.items@.len() - 1);
                        }
                    }
                    assert forall|id: WindowId| #[trigger]
                        self@.contains_key(id) implies self@[id] == before@.insert(w.id, w)[id] by {
                        let k = choose|k: int| is_at(self.items@, k, id);
                        assert(is_at(self.items@, k, id));
                        self.lemma_at(k);
                        if k < before.items@.len() {
                            before.lemma_at(k);
                        }
                    }
                    assert(self@ =~= before@.insert(w.id, w));
                }
            },
        }
    }

    /// Replacing one item by another with the same identifier.
    proof fn lemma_replaced(before: Registry, after: Registry, at: int, w: ManagedWindow)
        requires
            before.distinct(),
            is_at(before.items@, at, w.id),
            after.items@ == before.items@.update(at, w),
        ensures
            after.distinct(),
            after@ == before@.insert(w.id, w),
    {
        assert forall|i: int, j: int|
            0 <= i < after.items@.len() && 0 <= j < after.items@.len() && i
                != j implies #[trigger] after.items@[i].id != #[trigger] after.items@[j].id by {
            assert(before.items@[i].id != before.items@[j].id);
        }
        assert forall|id: WindowId| #[trigger]
            after@.contains_key(id) <==> before@.insert(w.id, w).contains_key(id) by {
            if after@.contains_key(id) {
                let k = choose|k: int| is_at(after.items@, k, id);
                assert(is_at(after.items@, k, id));
                before.lemma_at(k);
            }
            if before@.contains_key(id) {
                let k = choose|k: int| is_at(before.items@, k, id);
                assert(is_at(before.items@, k, id));
                after.lemma_at(k);
            }
            if id == w.id {
                after.lemma_at(at);
            }
        }
        assert forall|id: WindowId| #[trigger] after@.contains_key(id) implies after@[id]
            == before@.insert(w.id, w)[id] by {
            let k = choose|k: int| is_at(after.items@, k, id);
            assert(is_at(after.items@, k, id));
            after.lemma_at(k);
            before.lemma_at(k);
        }
        assert(after@ =~= before@.insert(w.id, w));
    }

    /// Take a window out of the registry.
    pub fn remove(&mut self, id: WindowId) -> (r: Option<ManagedWindow>)
        requires
            old(self).distinct(),
        ensures
            final(self).distinct(),
            final(self)@ == old(self)@.remove(id),
            match r {
                Some(w) => old(self)@.contains_key(id) && w == old(self)@[id],
                None => !old(self)@.contains_key(id),
            },
    {
        let ghost before = *self;
        match self.find(id) {
            Some(i) => {
                let w = self.items.remove(i);
                proof {
                    let at = i as int;
                    assert forall|i: int, j: int|
                        0 <= i < self.items@.len() && 0 <= j < self.items@.len() && i
                            != j implies #[trigger] self.items@[i].id
                        != #[trigger] self.items@[j].id by {
                        let a = if i < at {
                            i
                        } else {
                            i + 1
                        };
                        let b = if j < at {
                            j
                        } else {
                            j + 1
                        };
                        assert(before.items@[a].id != before.items@[b].id);
                    }
                    assert forall|w: WindowId| #[trigger]
                        self@.contains_key(w) <==> before@.remove(id).contains_key(w) by {
                        if self@.contains_key(w) {
                            let k = choose|k: int| is_at(self.items@, k, w);
                            assert(is_at(self.items@, k, w));
                            let a = if k < at {
                                k
                            } else {
                                k + 1
                            };
                            before.lemma_at(a);
                            assert(before.items@[a].id != before.items@[at].id);
                        }
                        if before@.contains_key(w) && w != id {
                            let k = choose|k: int| is_at(before.items@, k, w);
                            assert(is_at(before.items@, k, w));
                            self.lemma_at(
                                if k < at {
                                    k
                                } else {
                                    k - 1
                                },
                            );
                        }
                    }
                    assert forall|w: WindowId| #[trigger] self@.contains_key(w) implies self@[w]
                        == before@.remove(id)[w] by {
                        let k = choose|k: int| is_at(self.items@, k, w);
                        assert(is_at(self.items@, k, w));
                        self.lemma_at(k);
                        before.lemma_at(
                            if k < at {
                                k
                            } else {
                                k + 1
                            },
                        );
                    }
                    assert(self@ =~= before@.remove(id));
                }
                Some(w)
            },
            None => {
                assert(self@ =~= before@.remove(id));
                None
            },
        }
    }

    /// Note whether the window manager has hidden a window.
    pub fn set_hidden(&mut self, id: WindowId, hidden: bool)
        requires
            old(self).distinct(),
        ensures
            final(self).distinct(),
            final(self)@ == (if old(self)@.contains_key(id) {
                old(self)@.insert(id, ManagedWindow { hidden_by_us: hidden, ..old(self)@[id] })
            } else {
                old(self)@
            }),
    {
        let ghost before = *self;
        match self.find(id) {
            Some(i) => {
                self.items[i].hidden_by_us = hidden;
                proof {
                    let w = ManagedWindow { hidden_by_us: hidden, ..before@[id] };
                    assert(self.items@ =~= before.items@.update(i as int, w));
                    Self::lemma_replaced(before, *self, i as int, w);
                }
            },
            None => {},
        }
    }

    /// Assign a window to a workspace.
    pub fn set_workspace(&mut self, id: WindowId, workspace: WorkspaceId)
        requires
            old(self).distinct(),
        ensures
            final(self).distinct(),
            final(self)@ == (if old(self)@.contains_key(id) {
                old(self)@.insert(id, ManagedWindow { workspace, ..old(self)@[id] })
            } else {
                old(self)@
            }),
    {
        let ghost before = *self;
        match self.find(id) {
            Some(i) => {
                self.items[i].workspace = workspace;
                proof {
                    let w = ManagedWindow { workspace, ..before@[id] };
                    assert(self.items@ =~= before.items@.update(i as int, w));
                    Self::lemma_replaced(before, *self, i as int, w);
                }
            },
            None => {},
        }
    }

    /// Set how a window takes part in its workspace.
    pub fn set_mode(&mut self, id: WindowId, mode: WindowMode)
        requires
            old(self).distinct(),
        ensures
            final(self).distinct(),
            final(self)@ == (if old(self)@.contains_key(id) {
                old(self)@.insert(id, ManagedWindow { mode, ..old(self)@[id] })
            } else {
                old(self)@
            }),
    {
        let ghost before = *self;
        match self.find(id) {
            Some(i) => {
                self.items[i].mode = mode;
                proof {
                    let w = ManagedWindow { mode, ..before@[id] };
                    assert(self.items@ =~= before.items@.update(i as int, w));
                    Self::lemma_replaced(before, *self, i as int, w);
                }
            },
            None => {},
        }
    }

    /// Note a window's new title.
    pub fn set_title(&mut self, id: WindowId, title: String)
        requires
            old(self).distinct(),
        ensures
            final(self).distinct(),
            final(self)@ == (if old(self)@.contains_key(id) {
                old(self)@.insert(id, ManagedWindow { title, ..old(self)@[id] })
            } else {
                old(self)@
            }),
    {
        let ghost before = *self;
        match self.find(id) {
            Some(i) => {
                self.items[i].title = title;
                proof {
                    let w = ManagedWindow { title, ..before@[id] };
                    assert(self.items@ =~= before.items@.update(i as int, w));
                    Self::lemma_replaced(before, *self, i as int, w);
                }
            },
            None => {},
        }
    }
}

} // verus!
