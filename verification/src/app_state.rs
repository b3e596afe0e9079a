//! The navigation state machine: which of the three panels has focus,
//! and one index per level — category, module, action.  Every operation
//! re-validates the indices against the catalog, so a renderer can index
//! fearlessly at any time.

use crate::catalog::Catalog;
use crate::descriptor::Module;
use crate::order::{lemma_lex_le_total, lex_le};
use vstd::prelude::*;
use vstd::seq_lib::{to_multiset_build, to_multiset_insert, to_multiset_len};
use vstd::string::{StrSliceExecFns, StringExecFns};

verus! {

/// Which panel receives directional input.
#[derive(Debug, Copy, Clone, PartialEq, Eq, Structural)]
pub enum Focus {
    Categories,
    Modules,
    Actions,
}

/// The dashboard state: an immutable catalog plus the focus, the three
/// selection indices, and a status line.
pub struct App {
    pub catalog: Catalog,
    pub category_index: usize,
    pub module_index: usize,
    pub action_index: usize,
    pub focus: Focus,
    pub status: String,
    pub modules_root: String,
}

/// Action pairs ordered by name.
pub open spec fn action_le(a: (String, String), b: (String, String)) -> bool {
    lex_le(a.0@, b.0@)
}

/// Every adjacent pair of actions is ordered by name.
pub open spec fn sorted_actions(s: Seq<(String, String)>) -> bool {
    forall|i: int| 0 <= i && i + 1 < s.len() ==> action_le(#[trigger] s[i], s[i + 1])
}

impl App {
    /// The modules of the currently selected category.
    pub open spec fn spec_current_modules(self) -> Seq<Module> {
        self.catalog.buckets@[self.category_index as int]@
    }

    /// The currently selected module.
    pub open spec fn spec_current_module(self) -> Module {
        self.spec_current_modules()[self.module_index as int]
    }

    /// How many actions the selected module exposes.
    pub open spec fn spec_actions_len(self) -> int {
        self.spec_current_module().actions@.len() as int
    }

    /// The navigation invariant: the catalog is well formed and never
    /// empty, and each index stays inside the level it points into; when
    /// the selected module has no actions the action index rests at 0.
    pub open spec fn wf(self) -> bool {
        &&& self.catalog.wf()
        &&& self.catalog.categories@.len() >= 1
        &&& (self.category_index as int) < self.catalog.categories@.len()
        &&& (self.module_index as int) < self.spec_current_modules().len()
        &&& (if self.spec_actions_len() == 0 {
            self.action_index == 0
        } else {
            (self.action_index as int) < self.spec_actions_len()
        })
    }

    /// The catalog, root, focus and status of `other`, whatever the
    /// indices.
    pub open spec fn same_but_indices(self, other: App) -> bool {
        &&& self.catalog == other.catalog
        &&& self.focus == other.focus
        &&& self.status == other.status
        &&& self.modules_root == other.modules_root
    }

    /// Where cycling the focus forward lands: a panel is skipped while it
    /// has nothing to select.
    pub open spec fn spec_focus_next(self) -> Focus {
        match self.focus {
            Focus::Categories => if self.spec_current_modules().len() > 0 {
                Focus::Modules
            } else if self.spec_actions_len() > 0 {
                Focus::Actions
            } else {
                Focus::Categories
            },
            Focus::Modules => if self.spec_actions_len() > 0 {
                Focus::Actions
            } else {
                Focus::Categories
            },
            Focus::Actions => Focus::Categories,
        }
    }

    /// Where cycling the focus backward lands; the exact mirror of
    /// `spec_focus_next`.
    pub open spec fn spec_focus_prev(self) -> Focus {
        match self.focus {
            Focus::Categories => Focus::Actions,
            Focus::Modules => Focus::Categories,
            Focus::Actions => if self.spec_current_modules().len() > 0 {
                Focus::Modules
            } else {
                Focus::Categories
            },
        }
    }

    /// The state `move_up` leaves a well-formed state in.
    pub open spec fn spec_move_up(self) -> App {
        match self.focus {
            Focus::Categories => if self.category_index > 0 {
                App {
                    category_index: (self.category_index - 1) as usize,
                    module_index: 0,
                    action_index: 0,
                    ..self
                }
            } else {
                self
            },
            Focus::Modules => if self.module_index > 0 {
                App { module_index: (self.module_index - 1) as usize, action_index: 0, ..self }
            } else {
                self
            },
            Focus::Actions => if self.action_index > 0 {
                App { action_index: (self.action_index - 1) as usize, ..self }
            } else {
                self
            },
        }
    }

    /// The state `move_down` leaves a well-formed state in.
    pub open spec fn spec_move_down(self) -> App {
        match self.focus {
            Focus::Categories => if self.category_index + 1 < self.catalog.categories@.len() {
                App {
                    category_index: (self.category_index + 1) as usize,
                    module_index: 0,
                    action_index: 0,
                    ..self
                }
            } else {
                self
            },
            Focus::Modules => if self.module_index + 1 < self.spec_current_modules().len() {
                App { module_index: (self.module_index + 1) as usize, action_index: 0, ..self }
            } else {
                self
            },
            Focus::Actions => if self.action_index + 1 < self.spec_actions_len() {
                App { action_index: (self.action_index + 1) as usize, ..self }
            } else {
                self
            },
        }
    }

    /// The state one navigation input leaves a well-formed state in.
    pub open spec fn spec_apply(self, op: NavOp) -> App {
        match op {
            NavOp::MoveUp => self.spec_move_up(),
            NavOp::MoveDown => self.spec_move_down(),
            NavOp::FocusNext => App { focus: self.spec_focus_next(), ..self },
            NavOp::FocusPrev => App { focus: self.spec_focus_prev(), ..self },
        }
    }

    /// The state a whole sequence of navigation inputs leaves a
    /// well-formed state in, first input first.
    pub open spec fn spec_apply_all(self, ops: Seq<NavOp>) -> App
        decreases ops.len(),
    {
        if ops.len() == 0 {
            self
        } else {
            self.spec_apply(ops[0]).spec_apply_all(ops.drop_first())
        }
    }
}

/// One discrete navigation input.
pub enum NavOp {
    MoveUp,
    MoveDown,
    FocusNext,
    FocusPrev,
}

/// One navigation input keeps the state well formed.
proof fn lemma_apply_preserves_wf(a: App, op: NavOp)
    requires
        a.wf(),
    ensures
        a.spec_apply(op).wf(),
{
}

/// Under any finite sequence of navigation inputs — moving up or down,
/// cycling the focus either way — every index stays within the bounds of
/// the catalog at every step.
pub proof fn lemma_navigation_preserves_bounds(a: App, ops: Seq<NavOp>)
    requires
        a.wf(),
    ensures
        a.spec_apply_all(ops).wf(),
        forall|k: int| 0 <= k <= ops.len() ==> a.spec_apply_all(#[trigger] ops.take(k)).wf(),
    decreases ops.len(),
{
    assert(ops.take(0) =~= Seq::<NavOp>::empty());
    if ops.len() > 0 {
        lemma_apply_preserves_wf(a, ops[0]);
        let b = a.spec_apply(ops[0]);
        let rest = ops.drop_first();
        lemma_navigation_preserves_bounds(b, rest);
        assert forall|k: int| 0 <= k <= ops.len() implies a.spec_apply_all(
            #[trigger] ops.take(k),
        ).wf() by {
            if k > 0 {
                assert(ops.take(k)[0] == ops[0]);
                assert(ops.take(k).drop_first() =~= rest.take(k - 1));
                assert(a.spec_apply_all(ops.take(k)) == b.spec_apply_all(rest.take(k - 1)));
            }
        }
        assert(ops.take(ops.len() as int) =~= ops);
    }
}

impl App {
    /// Builds the catalog and starts with everything selected at the
    /// top and the focus on the category panel.
    pub fn new(modules: Vec<Module>, modules_root: String) -> (app: App)
        requires
            forall|i: int|
                0 <= i < modules@.len() ==> crate::descriptor::distinct_keys(
                    (#[trigger] modules@[i]).actions@,
                ),
        ensures
            app.wf(),
            app.category_index == 0 && app.module_index == 0 && app.action_index == 0,
            app.focus == Focus::Categories,
            app.modules_root == modules_root,
            app.status@ == "Ready. Use Tab to switch panels."@,
            modules@.len() == 0 ==> app.catalog.categories@.len() == 1
                && app.catalog.categories@[0]@ == "Examples"@ && app.spec_current_modules().len()
                == 1 && app.spec_current_modules()[0].name@ == "Example Module"@
                && app.spec_actions_len() == 1 && app.spec_current_modules()[0].actions@[0].0@
                == "run-placeholder"@ && app.spec_current_modules()[0].actions@[0].1@
                == "echo 'Replace this with your script'"@,
            modules@.len() > 0 ==> app.catalog.all_modules().to_multiset()
                == modules@.to_multiset(),
            modules@.len() > 0 ==> app.catalog.labels().to_set() == modules@.map_values(
                |m: Module| m.category@,
            ).to_set(),
    {
        let catalog = Catalog::build(modules, modules_root.as_str());
        let mut app = App {
            catalog,
            category_index: 0,
            module_index: 0,
            action_index: 0,
            focus: Focus::Categories,
            status: String::from_str("Ready. Use Tab to switch panels."),
            modules_root,
        };
        app.ensure_indices();
        app
    }

    /// The root the module tree was mounted at.
    pub fn modules_root(&self) -> (r: &str)
        ensures
            r@ == self.modules_root@,
    {
        self.modules_root.as_str()
    }

    /// All category labels, in catalog order.
    pub fn categories(&self) -> (r: &Vec<String>)
        ensures
            *r == self.catalog.categories,
    {
        &self.catalog.categories
    }

    /// The label of the selected category.
    pub fn current_category_name(&self) -> (r: Option<&str>)
        requires
            self.wf(),
        ensures
            r matches Some(n) && n@ == self.catalog.categories@[self.category_index as int]@,
    {
        Some(self.catalog.categories[self.category_index].as_str())
    }

    pub fn category_index(&self) -> (r: usize)
        ensures
            r == self.category_index,
    {
        self.category_index
    }

    pub fn module_index(&self) -> (r: usize)
        ensures
            r == self.module_index,
    {
        self.module_index
    }

    pub fn action_index(&self) -> (r: usize)
        ensures
            r == self.action_index,
    {
        self.action_index
    }

    pub fn focus(&self) -> (r: Focus)
        ensures
            r == self.focus,
    {
        self.focus
    }

    pub fn status(&self) -> (r: &str)
        ensures
            r@ == self.status@,
    {
        self.status.as_str()
    }

    /// The modules of the selected category, in catalog order.
    pub fn current_modules(&self) -> (r: Vec<&Module>)
        requires
            self.wf(),
        ensures
            r@.len() == self.spec_current_modules().len(),
            forall|k: int| 0 <= k < r@.len() ==> *(#[trigger] r@[k]) == self.spec_current_modules()[k],
    {
        let bucket = &self.catalog.buckets[self.category_index];
        let n = bucket.len();
        let mut out: Vec<&Module> = Vec::new();
        let mut i: usize = 0;
        while i < n
            invariant
                i <= n,
                n == bucket@.len(),
                bucket@ == self.spec_current_modules(),
                out@.len() == i,
                forall|k: int| 0 <= k < i ==> *(#[trigger] out@[k]) == bucket@[k],
            decreases n - i,
        {
            out.push(&bucket[i]);
            i = i + 1;
        }
        out
    }

    /// The actions of the selected module, sorted by name: the same
    /// pairs the module carries, as a read-time transform.
    pub fn current_actions(&self) -> (r: Vec<(String, String)>)
        requires
            self.wf(),
        ensures
            sorted_actions(r@),
            r@.to_multiset() == self.spec_current_module().actions@.to_multiset(),
            r@.len() == self.spec_actions_len(),
            crate::descriptor::distinct_keys(r@),
    {
        broadcast use vstd::seq_lib::group_to_multiset_ensures;

        let src = &self.catalog.buckets[self.category_index][self.module_index].actions;
        let n = src.len();
        let mut out: Vec<(String, String)> = Vec::new();
        let mut i: usize = 0;
        proof {
            assert(src@.take(0) =~= Seq::<(String, String)>::empty());
            Seq::<(String, String)>::empty().to_multiset_ensures();
        }
        while i < n
            invariant
                i <= n,
                n == src@.len(),
                src@ == self.spec_current_module().actions@,
                sorted_actions(out@),
                out@.to_multiset() == src@.take(i as int).to_multiset(),
            decreases n - i,
        {
            let pair = (src[i].0.clone(), src[i].1.clone());
            proof {
                assert(pair == src@[i as int]);
                assert(src@.take(i as int + 1) =~= src@.take(i as int).push(src@[i as int]));
                to_multiset_build(src@.take(i as int), src@[i as int]);
            }
            insert_action(&mut out, pair);
            i = i + 1;
        }
        proof {
            assert(src@.take(n as int) =~= src@);
            to_multiset_len(out@);
            to_multiset_len(src@);
            assert(crate::descriptor::distinct_keys(src@));
            crate::descriptor::lemma_distinct_keys_permutation(src@, out@);
        }
        out
    }

    /// Cycles the focus forward; nothing else moves.
    pub fn focus_next(&mut self)
        requires
            old(self).wf(),
        ensures
            final(self).wf(),
            *final(self) == old(self).spec_apply(NavOp::FocusNext),
            final(self).focus == old(self).spec_focus_next(),
            final(self).catalog == old(self).catalog,
            final(self).category_index == old(self).category_index,
            final(self).module_index == old(self).module_index,
            final(self).action_index == old(self).action_index,
            final(self).status == old(self).status,
            final(self).modules_root == old(self).modules_root,
    {
        let next = match self.focus {
            Focus::Categories => {
                if self.current_modules_len() > 0 {
                    Focus::Modules
                } else if self.current_actions_len() > 0 {
                    Focus::Actions
                } else {
                    Focus::Categories
                }
            },
            Focus::Modules => {
                if self.current_actions_len() > 0 {
                    Focus::Actions
                } else {
                    Focus::Categories
                }
            },
            Focus::Actions => Focus::Categories,
        };
        self.focus = next;
    }

    /// Cycles the focus backward; nothing else moves.
    pub fn focus_prev(&mut self)
        requires
            old(self).wf(),
        ensures
            final(self).wf(),
            *final(self) == old(self).spec_apply(NavOp::FocusPrev),
            final(self).focus == old(self).spec_focus_prev(),
            final(self).catalog == old(self).catalog,
            final(self).category_index == old(self).category_index,
            final(self).module_index == old(self).module_index,
            final(self).action_index == old(self).action_index,
            final(self).status == old(self).status,
            final(self).modules_root == old(self).modules_root,
    {
        let prev = match self.focus {
            Focus::Categories => Focus::Actions,
            Focus::Modules => Focus::Categories,
            Focus::Actions => {
                if self.current_modules_len() > 0 {
                    Focus::Modules
                } else {
                    Focus::Categories
                }
            },
        };
        self.focus = prev;
    }

    /// Moves the selection of the focused level one step up.  At the
    /// first item nothing changes; a changed category resets the module
    /// and action indices, a changed module resets the action index.
    pub fn move_up(&mut self)
        requires
            old(self).wf(),
        ensures
            final(self).wf(),
            *final(self) == old(self).spec_apply(NavOp::MoveUp),
            final(self).same_but_indices(*old(self)),
            old(self).focus is Categories && old(self).category_index == 0 ==> *final(self)
                == *old(self),
            old(self).focus is Modules && old(self).module_index == 0 ==> *final(self) == *old(
                self,
            ),
            old(self).focus is Actions && old(self).action_index == 0 ==> *final(self) == *old(
                self,
            ),
            final(self).category_index != old(self).category_index ==> final(self).module_index == 0
                && final(self).action_index == 0,
            final(self).module_index != old(self).module_index ==> final(self).action_index == 0,
    {
        match self.focus {
            Focus::Categories => {
                if self.category_index > 0 {
                    self.category_index = self.category_index - 1;
                    self.module_index = 0;
                    self.action_index = 0;
                }
            },
            Focus::Modules => {
                if self.module_index > 0 {
                    self.module_index = self.module_index - 1;
                    self.action_index = 0;
                }
            },
            Focus::Actions => {
                if self.action_index > 0 {
                    self.action_index = self.action_index - 1;
                }
            },
        }
        self.ensure_indices();
    }

    /// Moves the selection of the focused level one step down.  At the
    /// last item nothing changes; a changed category resets the module
    /// and action indices, a changed module resets the action index.
    pub fn move_down(&mut self)
        requires
            old(self).wf(),
        ensures
            final(self).wf(),
            *final(self) == old(self).spec_apply(NavOp::MoveDown),
            final(self).same_but_indices(*old(self)),
            old(self).focus is Categories && old(self).category_index + 1
                >= old(self).catalog.categories@.len() ==> *final(self) == *old(self),
            old(self).focus is Modules && old(self).module_index + 1
                >= old(self).spec_current_modules().len() ==> *final(self) == *old(self),
            old(self).focus is Actions && old(self).action_index + 1 >= old(self).spec_actions_len()
                ==> *final(self) == *old(self),
            final(self).category_index != old(self).category_index ==> final(self).module_index == 0
                && final(self).action_index == 0,
            final(self).module_index != old(self).module_index ==> final(self).action_index == 0,
    {
        match self.focus {
            Focus::Categories => {
                let len = self.catalog.categories.len();
                if self.category_index + 1 < len {
                    self.category_index = self.category_index + 1;
                    self.module_index = 0;
                    self.action_index = 0;
                }
            },
            Focus::Modules => {
                let len = self.current_modules_len();
                if len > 0 && self.module_index + 1 < len {
                    self.module_index = self.module_index + 1;
                    self.action_index = 0;
                }
            },
            Focus::Actions => {
                let len = self.current_actions_len();
                if len > 0 && self.action_index + 1 < len {
                    self.action_index = self.action_index + 1;
                }
            },
        }
        self.ensure_indices();
    }

    /// With the focus on the action panel, yields the selected action's
    /// name and command for the caller to run, and says so in the status
    /// line; otherwise only instructs.  No index moves.
    pub fn activate(&mut self) -> (r: Option<(String, String)>)
        requires
            old(self).wf(),
        ensures
            final(self).wf(),
            final(self).catalog == old(self).catalog,
            final(self).focus == old(self).focus,
            final(self).modules_root == old(self).modules_root,
            final(self).category_index == old(self).category_index,
            final(self).module_index == old(self).module_index,
            final(self).action_index == old(self).action_index,
            old(self).focus != Focus::Actions ==> r is None && final(self).status@
                == "Select an action and press Enter to run it."@,
            old(self).focus == Focus::Actions && old(self).spec_actions_len() == 0 ==> r is None
                && final(self).status@ == "No actions available for this module."@,
            old(self).focus == Focus::Actions && old(self).spec_actions_len() > 0 ==> (r matches Some(
                p,
            ) && (exists|k: int|
                0 <= k < old(self).spec_current_module().actions@.len() && (#[trigger] old(
                    self,
                ).spec_current_module().actions@[k]) == p) && (exists|s: Seq<(String, String)>|
                sorted_actions(s) && s.to_multiset()
                    == old(self).spec_current_module().actions@.to_multiset() && p == s[old(
                    self,
                ).action_index as int]) && final(self).status@ == "TODO: run `"@ + p.1@ + "` ("@
                + p.0@ + ")"@),
    {
        broadcast use vstd::seq_lib::group_to_multiset_ensures;

        if self.focus != Focus::Actions {
            self.status = String::from_str("Select an action and press Enter to run it.");
            return None;
        }
        let actions = self.current_actions();
        if self.action_index < actions.len() {
            let name = actions[self.action_index].0.clone();
            let command = actions[self.action_index].1.clone();
            proof {
                let pair = actions@[self.action_index as int];
                assert(actions@.contains(pair));
                assert(actions@.to_multiset().count(pair) > 0);
                assert(self.spec_current_module().actions@.to_multiset().count(pair) > 0);
                assert(self.spec_current_module().actions@.contains(pair));
            }
            let mut status = String::from_str("TODO: run `");
            status.append(command.as_str());
            status.append("` (");
            status.append(name.as_str());
            status.append(")");
            self.status = status;
            Some((name, command))
        } else {
            self.status = String::from_str("No actions available for this module.");
            None
        }
    }

    /// How many modules the selected category holds.
    fn current_modules_len(&self) -> (n: usize)
        requires
            self.catalog.wf(),
            (self.category_index as int) < self.catalog.categories@.len(),
        ensures
            n as int == self.spec_current_modules().len(),
    {
        self.catalog.buckets[self.category_index].len()
    }

    /// How many actions the selected module exposes.
    fn current_actions_len(&self) -> (n: usize)
        requires
            self.catalog.wf(),
            (self.category_index as int) < self.catalog.categories@.len(),
            (self.module_index as int) < self.spec_current_modules().len(),
        ensures
            n as int == self.spec_actions_len(),
    {
        self.catalog.buckets[self.category_index][self.module_index].actions.len()
    }

    /// Clamps every index back into range, unconditionally, as the last
    /// step of every mutation — also over a catalog with no categories,
    /// where every index rests at 0, though `Catalog::build` never
    /// produces one.
    fn ensure_indices(&mut self)
        requires
            old(self).catalog.wf(),
        ensures
            final(self).same_but_indices(*old(self)),
            old(self).catalog.categories@.len() == 0 ==> final(self).category_index == 0
                && final(self).module_index == 0 && final(self).action_index == 0,
            old(self).catalog.categories@.len() >= 1 ==> final(self).wf(),
            old(self).catalog.categories@.len() >= 1 ==> final(self).category_index == (if (old(
                self,
            ).category_index as int) < old(self).catalog.categories@.len() {
                old(self).category_index as int
            } else {
                old(self).catalog.categories@.len() - 1
            }),
            old(self).catalog.categories@.len() >= 1 ==> final(self).module_index == (if (old(
                self,
            ).module_index as int) < final(self).spec_current_modules().len() {
                old(self).module_index as int
            } else {
                final(self).spec_current_modules().len() - 1
            }),
            old(self).catalog.categories@.len() >= 1 ==> final(self).action_index == (if final(self).spec_actions_len() == 0 {
                0
            } else if (old(self).action_index as int) < final(self).spec_actions_len() {
                old(self).action_index as int
            } else {
                final(self).spec_actions_len() - 1
            }),
    {
        let cats_len = self.catalog.categories.len();
        if cats_len == 0 {
            self.category_index = 0;
            self.module_index = 0;
            self.action_index = 0;
            return;
        }
        if self.category_index >= cats_len {
            self.category_index = cats_len - 1;
        }
        let modules_len = self.current_modules_len();
        if self.module_index >= modules_len {
            self.module_index = modules_len - 1;
        }
        let actions_len = self.current_actions_len();
        if actions_len == 0 {
            self.action_index = 0;
        } else if self.action_index >= actions_len {
            self.action_index = actions_len - 1;
        }
    }
}

/// The splice point of `a` in a name-sorted action list.
fn action_insert_pos(list: &Vec<(String, String)>, a: &(String, String)) -> (p: usize)
    ensures
        p <= list@.len(),
        forall|j: int| 0 <= j < p ==> action_le(#[trigger] list@[j], *a),
        p < list@.len() ==> action_le(*a, list@[p as int]),
{
    let n = list.len();
    let mut i: usize = 0;
    loop
        invariant
            i <= n,
            n == list@.len(),
            forall|j: int| 0 <= j < i ==> action_le(#[trigger] list@[j], *a),
        decreases n - i,
    {
        if i >= n {
            return i;
        }
        if crate::order::str_le(a.0.as_str(), list[i].0.as_str()) {
            return i;
        }
        proof {
            lemma_lex_le_total(a.0@, list@[i as int].0@);
        }
        i = i + 1;
    }
}

/// Inserts `a` into a name-sorted action list, keeping it sorted.
fn insert_action(list: &mut Vec<(String, String)>, a: (String, String))
    requires
        sorted_actions(old(list)@),
    ensures
        sorted_actions(final(list)@),
        final(list)@.to_multiset() == old(list)@.to_multiset().insert(a),
{
    let i = action_insert_pos(list, &a);
    let ghost old_l = list@;
    let ghost p = i as int;
    list.insert(i, a);
    proof {
        assert(list@ == old_l.insert(p, a));
        to_multiset_insert(old_l, p, a);
        assert forall|k: int| 0 <= k && k + 1 < list@.len() implies action_le(
            #[trigger] list@[k],
            list@[k + 1],
        ) by {
            if k + 1 < p {
                assert(list@[k] == old_l[k] && list@[k + 1] == old_l[k + 1]);
            } else if k + 1 == p {
                assert(list@[k] == old_l[k] && list@[k + 1] == a);
            } else if k == p {
                assert(list@[k] == a && list@[k + 1] == old_l[k]);
            } else {
                assert(list@[k] == old_l[k - 1] && list@[k + 1] == old_l[k]);
            }
        }
    }
}

} // verus!
