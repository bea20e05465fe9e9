//! The navigator state machine. It owns the current path, the listing of
//! child names at that path, the highlighted name, and the preview of the
//! next level for that name. Every transition recomputes the highlighted
//! name and the preview path; the caller then asks the evaluator about the
//! preview path and stores the answer with `set_preview_list` or
//! `set_preview_value`, so that no stale preview is ever shown.

use crate::bytes::clone_bytes;
use crate::bytes::view_of_vecs;
use crate::gateway::keeps_name;
use crate::list::StatefulList;
use crate::list::next_index;
use crate::list::prev_index;
use crate::path::append_segment;
use crate::path::child_path;
use crate::path::child_path_of;
use crate::path::dot;
use crate::path::dot_free;
use crate::path::lemma_step_in_preserves_path_wf;
use crate::path::path_wf;
use crate::path::remove_last_segment;
use crate::path::step_out_path;
use crate::path::StartupError;
use vstd::prelude::*;

verus! {

/// The sentinel shown when the current level has no items: `none` as
/// bytes.
pub open spec fn none_sentinel() -> Seq<u8> {
    seq![110u8, 111u8, 110u8, 101u8]
}

/// The name under the cursor of a listing, or the sentinel when the
/// listing is empty.
pub open spec fn selected_name(list: StatefulList<Vec<u8>>) -> Seq<u8> {
    match list.cursor {
        Some(i) => list.items[i as int]@,
        None => none_sentinel(),
    }
}

/// The preview pane's content: the child names of the highlighted item
/// when it is internal, or its evaluated text (or error text) when it is a
/// leaf.
#[derive(Debug, Clone, PartialEq, Eq)]
pub enum ListOrValue {
    List(Vec<Vec<u8>>),
    Value(Vec<u8>),
}

impl ListOrValue {
    /// Whether the preview is a non-empty listing, the one state a step-in
    /// descends from.
    pub open spec fn is_enterable(self) -> bool {
        match self {
            ListOrValue::List(l) => l.len() > 0,
            ListOrValue::Value(_) => false,
        }
    }
}

/// The navigator: where the session is in the attribute tree and what both
/// panes show.
pub struct App {
    pub current_items: StatefulList<Vec<u8>>,
    pub preview_items: ListOrValue,
    pub current_path: Vec<u8>,
    pub current_selected: Vec<u8>,
    pub preview_path: Vec<u8>,
}

impl App {
    /// The cursor is sound for the current listing.
    pub open spec fn wf(self) -> bool {
        self.current_items.wf()
    }

    /// The highlighted name and the preview path agree with the current
    /// listing and path; every transition re-establishes this.
    pub open spec fn target_consistent(self) -> bool {
        &&& self.current_selected@ == selected_name(self.current_items)
        &&& self.preview_path@ == child_path(self.current_path@, self.current_selected@)
    }

    /// Builds the navigator at the root. The root must have classified as
    /// internal with at least one child; a childless root is a fatal
    /// startup condition the caller reports instead. The preview starts as
    /// an empty listing: the caller asks the evaluator about
    /// `preview_path` and stores the answer before the first frame.
    pub fn new(root_path: Vec<u8>, root_children: Vec<Vec<u8>>) -> (app: App)
        requires
            root_children.len() > 0,
        ensures
            app.wf(),
            app.target_consistent(),
            app.current_path == root_path,
            app.current_items.items == root_children,
            app.current_items.cursor == Option::<usize>::Some(0usize),
            app.current_selected@ == root_children[0]@,
            app.preview_items matches ListOrValue::List(l) && l@.len() == 0,
    {
        let mut app = App {
            current_items: StatefulList::with_items(root_children),
            preview_items: ListOrValue::List(Vec::new()),
            current_path: root_path,
            current_selected: Vec::new(),
            preview_path: Vec::new(),
        };
        app.update_current_selected();
        app
    }

    /// Builds the navigator at the root, or reports the startup error when
    /// the root classified without a single child.
    pub fn try_new(root_path: Vec<u8>, root_children: Vec<Vec<u8>>) -> (r: Result<
        App,
        StartupError,
    >)
        ensures
            root_children.len() == 0 ==> r == Result::<App, StartupError>::Err(
                StartupError::RootHasNoChildren,
            ),
            root_children.len() > 0 ==> match r {
                Ok(app) => {
                    &&& app.wf()
                    &&& app.target_consistent()
                    &&& app.current_path == root_path
                    &&& app.current_items.items == root_children
                    &&& app.current_items.cursor == Option::<usize>::Some(0usize)
                    &&& app.current_selected@ == root_children[0]@
                    &&& app.preview_items matches ListOrValue::List(l) && l@.len() == 0
                },
                Err(_) => false,
            },
    {
        if root_children.len() == 0 {
            return Err(StartupError::RootHasNoChildren);
        }
        Ok(App::new(root_path, root_children))
    }

    /// Recomputes the highlighted name from the cursor and re-derives the
    /// preview path from it. The caller completes the transition by
    /// querying the evaluator about the new preview path.
    pub fn update_current_selected(&mut self)
        requires
            old(self).wf(),
        ensures
            final(self).wf(),
            final(self).target_consistent(),
            final(self).current_items == old(self).current_items,
            final(self).current_path == old(self).current_path,
            final(self).preview_items == old(self).preview_items,
    {
        self.current_selected = match self.current_items.cursor {
            Some(i) => clone_bytes(&self.current_items.items[i]),
            None => {
                let mut s: Vec<u8> = Vec::new();
                s.push(110u8);
                s.push(111u8);
                s.push(110u8);
                s.push(101u8);
                proof {
                    assert(s@ =~= none_sentinel());
                }
                s
            },
        };
        self.preview_path = child_path_of(&self.current_path, &self.current_selected);
    }

    /// Stores an internal classification of the preview path.
    pub fn set_preview_list(&mut self, children: Vec<Vec<u8>>)
        ensures
            *final(self) == (App { preview_items: ListOrValue::List(children), ..*old(self) }),
    {
        self.preview_items = ListOrValue::List(children);
    }

    /// Stores a leaf preview: the evaluated text of the preview path, or
    /// the error text shown in its place.
    pub fn set_preview_value(&mut self, value: Vec<u8>)
        ensures
            *final(self) == (App { preview_items: ListOrValue::Value(value), ..*old(self) }),
    {
        self.preview_items = ListOrValue::Value(value);
    }

    /// Moves the cursor one item forward with wrap-around and recomputes
    /// the highlighted name and preview path.
    pub fn next(&mut self)
        requires
            old(self).wf(),
        ensures
            final(self).wf(),
            final(self).target_consistent(),
            final(self).current_path == old(self).current_path,
            final(self).preview_items == old(self).preview_items,
            final(self).current_items.items == old(self).current_items.items,
            final(self).current_items.cursor == match old(self).current_items.cursor {
                Some(i) => Option::<usize>::Some(
                    next_index(old(self).current_items.items.len() as int, i as int) as usize,
                ),
                None => Option::<usize>::None,
            },
    {
        self.current_items.next();
        self.update_current_selected();
    }

    /// Moves the cursor one item backward with wrap-around and recomputes
    /// the highlighted name and preview path.
    pub fn previous(&mut self)
        requires
            old(self).wf(),
        ensures
            final(self).wf(),
            final(self).target_consistent(),
            final(self).current_path == old(self).current_path,
            final(self).preview_items == old(self).preview_items,
            final(self).current_items.items == old(self).current_items.items,
            final(self).current_items.cursor == match old(self).current_items.cursor {
                Some(i) => Option::<usize>::Some(
                    prev_index(old(self).current_items.items.len() as int, i as int) as usize,
                ),
                None => Option::<usize>::None,
            },
    {
        self.current_items.previous();
        self.update_current_selected();
    }

    /// Descends into the highlighted item. Only a preview that is a
    /// non-empty listing can be entered: the path gains `.` plus the
    /// highlighted name and the preview's children become the current
    /// listing, cursor on the first. Otherwise — a leaf preview or an
    /// empty listing — nothing changes at all. The caller completes the
    /// transition by querying the evaluator about the new preview path.
    pub fn step_in(&mut self)
        requires
            old(self).wf(),
        ensures
            final(self).wf(),
            old(self).preview_items.is_enterable() ==> {
                &&& final(self).current_path@ == child_path(
                    old(self).current_path@,
                    old(self).current_selected@,
                )
                &&& view_of_vecs(final(self).current_items.items@) == view_of_vecs(
                    old(self).preview_items->List_0@,
                )
                &&& final(self).current_items.cursor == Option::<usize>::Some(0usize)
                &&& final(self).preview_items == old(self).preview_items
                &&& final(self).target_consistent()
            },
            !old(self).preview_items.is_enterable() ==> *final(self) == *old(self),
    {
        let mut children_opt: Option<Vec<Vec<u8>>> = None;
        match &self.preview_items {
            ListOrValue::List(l) => {
                if l.len() > 0 {
                    let mut copy: Vec<Vec<u8>> = Vec::new();
                    let mut i: usize = 0;
                    proof {
                        assert(view_of_vecs(copy@) =~= view_of_vecs(l@).take(0));
                    }
                    while i < l.len()
                        invariant
                            i <= l.len(),
                            copy@.len() == i,
                            view_of_vecs(copy@) == view_of_vecs(l@).take(i as int),
                        decreases l.len() - i,
                    {
                        copy.push(clone_bytes(&l[i]));
                        i = i + 1;
                        proof {
                            assert(view_of_vecs(copy@) =~= view_of_vecs(l@).take(i as int));
                        }
                    }
                    proof {
                        assert(view_of_vecs(l@).take(l@.len() as int) =~= view_of_vecs(l@));
                    }
                    children_opt = Some(copy);
                }
            },
            ListOrValue::Value(_) => {},
        }
        match children_opt {
            Some(children) => {
                append_segment(&mut self.current_path, &self.current_selected);
                self.current_items = StatefulList::with_items(children);
                self.update_current_selected();
            },
            None => {},
        }
    }

    /// Ascends one level: the last `.`-delimited segment leaves the path;
    /// at the root, where no segment can be stripped, the path stays as it
    /// is. The caller completes the transition by querying the evaluator
    /// about the (possibly unchanged) current path and handing the fresh
    /// listing to `set_current_items`.
    pub fn step_out(&mut self)
        requires
            old(self).wf(),
        ensures
            final(self).wf(),
            final(self).current_path@ == step_out_path(old(self).current_path@),
            final(self).current_items == old(self).current_items,
            final(self).current_selected == old(self).current_selected,
            final(self).preview_path == old(self).preview_path,
            final(self).preview_items == old(self).preview_items,
    {
        remove_last_segment(&mut self.current_path);
    }

    /// Replaces the current listing with a fresh one, cursor on the first
    /// item, and recomputes the highlighted name and preview path. The
    /// caller completes the transition by querying the evaluator about the
    /// new preview path.
    pub fn set_current_items(&mut self, names: Vec<Vec<u8>>)
        ensures
            final(self).wf(),
            final(self).target_consistent(),
            final(self).current_items.items == names,
            final(self).current_items.cursor == if names.len() == 0 {
                Option::<usize>::None
            } else {
                Option::<usize>::Some(0usize)
            },
            final(self).current_path == old(self).current_path,
            final(self).preview_items == old(self).preview_items,
    {
        self.current_items = StatefulList::with_items(names);
        self.update_current_selected();
    }
}

/// Law: in a consistent navigator whose listed names all passed the
/// gateway filtering rule, the name a step-in appends — the highlighted
/// child, or the `none` sentinel on an empty level — is non-empty and free
/// of `.`, so stepping in from a well-formed current path leaves it
/// well-formed: in particular the path never gains a trailing `.`.
pub proof fn lemma_step_in_keeps_path_wf(app: App)
    requires
        app.wf(),
        app.target_consistent(),
        path_wf(app.current_path@),
        forall|k: int|
            0 <= k < app.current_items.items@.len() ==> keeps_name(
                #[trigger] app.current_items.items@[k]@,
            ),
    ensures
        path_wf(child_path(app.current_path@, app.current_selected@)),
{
    match app.current_items.cursor {
        Some(i) => {
            assert(keeps_name(app.current_items.items@[i as int]@));
        },
        None => {
            assert forall|k: int| 0 <= k < none_sentinel().len() implies none_sentinel()[k]
                != dot() by {
                if k == 0 {
                    assert(none_sentinel()[0] == 110u8);
                } else if k == 1 {
                    assert(none_sentinel()[1] == 111u8);
                } else if k == 2 {
                    assert(none_sentinel()[2] == 110u8);
                } else {
                    assert(none_sentinel()[3] == 101u8);
                }
            }
        },
    }
    assert(app.current_selected@.len() > 0);
    assert(dot_free(app.current_selected@));
    lemma_step_in_preserves_path_wf(app.current_path@, app.current_selected@);
}

} // verus!
