//! The navigation state machine: the session's view state and the
//! transitions that key intents drive it through.
//!
//! Every transition is a total function of the state: an intent whose
//! precondition does not hold (entering detail with nothing selected,
//! scrolling past an end) is a no-op, never an error.

use crate::finder::SpecSet;
use vstd::prelude::*;

verus! {

/// Which screen the session shows: the list of specs, or the documents of
/// the spec that stood at `spec_index` when the detail view was entered.
#[derive(Debug, Clone, PartialEq, Eq, Structural)]
pub enum ViewMode {
    List,
    Detail { spec_index: usize },
}

/// The document shown in the detail view.
#[derive(Debug, Clone, Copy, PartialEq, Eq, Structural)]
pub enum DetailTab {
    Requirements,
    Design,
    Tasks,
}

/// The session's state: whether it keeps running, the discovered specs,
/// the selection in the list, the current view, the active document tab,
/// and the scroll offset of the detail view.
#[derive(Debug)]
pub struct App {
    pub running: bool,
    pub spec_sets: Vec<SpecSet>,
    pub selected_index: Option<usize>,
    pub view_mode: ViewMode,
    pub active_tab: DetailTab,
    pub detail_scroll: usize,
}

/// The index after `i`, circularly: the last index wraps to the first.
pub open spec fn spec_next_index(i: int, n: int) -> int {
    if i >= n - 1 {
        0
    } else {
        i + 1
    }
}

/// The index before `i`, circularly: the first index wraps to the last.
pub open spec fn spec_prev_index(i: int, n: int) -> int {
    if i == 0 {
        n - 1
    } else {
        i - 1
    }
}

/// The tab after `t`, cycling through the three documents.
pub open spec fn spec_next_tab(t: DetailTab) -> DetailTab {
    match t {
        DetailTab::Requirements => DetailTab::Design,
        DetailTab::Design => DetailTab::Tasks,
        DetailTab::Tasks => DetailTab::Requirements,
    }
}

impl App {
    /// The state invariant: a selection exists exactly when the collection
    /// is non-empty, and always points into it.
    pub open spec fn wf(self) -> bool {
        &&& (self.selected_index matches Some(i) ==> i < self.spec_sets@.len())
        &&& (self.selected_index is Some <==> self.spec_sets@.len() > 0)
    }

    /// The initial state over a discovered collection: the list view, the
    /// first spec selected where there is one, nothing scrolled.
    pub open spec fn spec_new(spec_sets: Vec<SpecSet>) -> App {
        App {
            running: false,
            selected_index: if spec_sets@.len() == 0 {
                None
            } else {
                Some(0usize)
            },
            spec_sets,
            view_mode: ViewMode::List,
            active_tab: DetailTab::Requirements,
            detail_scroll: 0,
        }
    }

    pub open spec fn spec_next_item(a: App) -> App {
        match a.selected_index {
            Some(i) => App {
                selected_index: Some(
                    spec_next_index(i as int, a.spec_sets@.len() as int) as usize,
                ),
                ..a
            },
            None => a,
        }
    }

    pub open spec fn spec_previous_item(a: App) -> App {
        match a.selected_index {
            Some(i) => App {
                selected_index: Some(
                    spec_prev_index(i as int, a.spec_sets@.len() as int) as usize,
                ),
                ..a
            },
            None => a,
        }
    }

    pub open spec fn spec_enter_detail(a: App) -> App {
        match a.selected_index {
            Some(i) => App {
                view_mode: ViewMode::Detail { spec_index: i },
                active_tab: DetailTab::Requirements,
                detail_scroll: 0usize,
                ..a
            },
            None => a,
        }
    }

    pub open spec fn spec_exit_detail(a: App) -> App {
        App { view_mode: ViewMode::List, detail_scroll: 0usize, ..a }
    }

    pub open spec fn spec_next_tab_state(a: App) -> App {
        App { active_tab: spec_next_tab(a.active_tab), ..a }
    }

    pub open spec fn spec_scroll_down(a: App, max_scroll: usize) -> App {
        App {
            detail_scroll: if a.detail_scroll < max_scroll {
                (a.detail_scroll + 1) as usize
            } else {
                a.detail_scroll
            },
            ..a
        }
    }

    pub open spec fn spec_scroll_up(a: App) -> App {
        App {
            detail_scroll: if a.detail_scroll > 0 {
                (a.detail_scroll - 1) as usize
            } else {
                a.detail_scroll
            },
            ..a
        }
    }

    /// Builds the initial session state over a discovered collection.
    pub fn new(spec_sets: Vec<SpecSet>) -> (app: App)
        ensures
            app == App::spec_new(spec_sets),
            app.wf(),
    {
        let selected: Option<usize> = if spec_sets.len() == 0 {
            None
        } else {
            Some(0)
        };
        App {
            running: false,
            spec_sets,
            selected_index: selected,
            view_mode: ViewMode::List,
            active_tab: DetailTab::Requirements,
            detail_scroll: 0,
        }
    }

    /// Advances the selection circularly; a no-op on an empty collection.
    pub fn next_item(&mut self)
        requires
            old(self).wf(),
        ensures
            *final(self) == App::spec_next_item(*old(self)),
            final(self).wf(),
    {
        match self.selected_index {
            Some(i) => {
                let n = self.spec_sets.len();
                let next = if i >= n - 1 {
                    0
                } else {
                    i + 1
                };
                self.selected_index = Some(next);
            },
            None => {},
        }
    }

    /// Moves the selection back circularly; a no-op on an empty collection.
    pub fn previous_item(&mut self)
        requires
            old(self).wf(),
        ensures
            *final(self) == App::spec_previous_item(*old(self)),
            final(self).wf(),
    {
        match self.selected_index {
            Some(i) => {
                let n = self.spec_sets.len();
                let prev = if i == 0 {
                    n - 1
                } else {
                    i - 1
                };
                self.selected_index = Some(prev);
            },
            None => {},
        }
    }

    /// Enters the detail view of the selected spec, with the scroll reset
    /// and the default tab active; a no-op when nothing is selected.
    pub fn enter_detail_view(&mut self)
        ensures
            *final(self) == App::spec_enter_detail(*old(self)),
    {
        match self.selected_index {
            Some(selected_index) => {
                self.view_mode = ViewMode::Detail { spec_index: selected_index };
                self.active_tab = DetailTab::Requirements;
                self.detail_scroll = 0;
            },
            None => {},
        }
    }

    /// Returns to the list view and resets the scroll.  The active tab is
    /// deliberately kept: re-entering the same spec shows the tab that was
    /// last read.
    pub fn exit_detail_view(&mut self)
        ensures
            *final(self) == App::spec_exit_detail(*old(self)),
    {
        self.view_mode = ViewMode::List;
        self.detail_scroll = 0;
    }

    /// Cycles the active tab forward through the three documents.  The
    /// scroll offset is deliberately kept: the renderer clamps it to the
    /// newly shown document on the next draw.
    pub fn next_tab(&mut self)
        ensures
            *final(self) == App::spec_next_tab_state(*old(self)),
    {
        self.active_tab = match self.active_tab {
            DetailTab::Requirements => DetailTab::Design,
            DetailTab::Design => DetailTab::Tasks,
            DetailTab::Tasks => DetailTab::Requirements,
        };
    }

    /// Scrolls down by one, clamped to the caller-supplied bound.
    pub fn scroll_down(&mut self, max_scroll: usize)
        ensures
            *final(self) == App::spec_scroll_down(*old(self), max_scroll),
    {
        if self.detail_scroll < max_scroll {
            self.detail_scroll = self.detail_scroll + 1;
        }
    }

    /// Scrolls up by one, floored at the top.
    pub fn scroll_up(&mut self)
        ensures
            *final(self) == App::spec_scroll_up(*old(self)),
    {
        if self.detail_scroll > 0 {
            self.detail_scroll = self.detail_scroll - 1;
        }
    }
}

/// `spec_next_index` applied `k` times.
pub open spec fn iterate_next_index(i: int, n: int, k: nat) -> int
    decreases k,
{
    if k == 0 {
        i
    } else {
        spec_next_index(iterate_next_index(i, n, (k - 1) as nat), n)
    }
}

/// `spec_prev_index` applied `k` times.
pub open spec fn iterate_prev_index(i: int, n: int, k: nat) -> int
    decreases k,
{
    if k == 0 {
        i
    } else {
        spec_prev_index(iterate_prev_index(i, n, (k - 1) as nat), n)
    }
}

proof fn lemma_iterate_next_index_value(i: int, n: int, k: nat)
    requires
        0 <= i < n,
        k <= n,
    ensures
        iterate_next_index(i, n, k) == if i + k < n {
            i + k
        } else {
            i + k - n
        },
    decreases k,
{
    if k > 0 {
        lemma_iterate_next_index_value(i, n, (k - 1) as nat);
    }
}

proof fn lemma_iterate_prev_index_value(i: int, n: int, k: nat)
    requires
        0 <= i < n,
        k <= n,
    ensures
        iterate_prev_index(i, n, k) == if i - k >= 0 {
            i - k
        } else {
            i - k + n
        },
    decreases k,
{
    if k > 0 {
        lemma_iterate_prev_index_value(i, n, (k - 1) as nat);
    }
}

/// Law: over a collection of `n` specs, advancing the selection `n` times
/// returns it to where it started, and so does moving it back `n` times.
/// For `n == 1` a single step is already the identity.
pub proof fn lemma_selection_cycles(i: int, n: int)
    requires
        0 <= i < n,
    ensures
        iterate_next_index(i, n, n as nat) == i,
        iterate_prev_index(i, n, n as nat) == i,
{
    lemma_iterate_next_index_value(i, n, n as nat);
    lemma_iterate_prev_index_value(i, n, n as nat);
}

/// `spec_next_item` applied `k` times to the whole state.
pub open spec fn iterate_next_item(a: App, k: nat) -> App
    decreases k,
{
    if k == 0 {
        a
    } else {
        App::spec_next_item(iterate_next_item(a, (k - 1) as nat))
    }
}

/// `spec_previous_item` applied `k` times to the whole state.
pub open spec fn iterate_previous_item(a: App, k: nat) -> App
    decreases k,
{
    if k == 0 {
        a
    } else {
        App::spec_previous_item(iterate_previous_item(a, (k - 1) as nat))
    }
}

proof fn lemma_iterate_next_item_selected(a: App, k: nat)
    requires
        a.wf(),
        (a.selected_index matches Some(i)),
    ensures
        iterate_next_item(a, k) == (App {
            selected_index: Some(
                iterate_next_index(a.selected_index->0 as int, a.spec_sets@.len() as int, k)
                    as usize,
            ),
            ..a
        }),
        0 <= iterate_next_index(a.selected_index->0 as int, a.spec_sets@.len() as int, k)
            < a.spec_sets@.len(),
    decreases k,
{
    let n = a.spec_sets@.len() as int;
    let i = a.selected_index->0 as int;
    assert(a.spec_sets.len() == a.spec_sets@.len());
    if k == 0 {
        assert(a.selected_index == Some((i as usize)));
    } else {
        lemma_iterate_next_item_selected(a, (k - 1) as nat);
        let v = iterate_next_index(i, n, (k - 1) as nat);
        assert(0 <= v < n);
        assert((v as usize) as int == v);
        assert(iterate_next_item(a, k) == App::spec_next_item(iterate_next_item(a, (k - 1) as nat)));
        assert(iterate_next_index(i, n, k) == spec_next_index(v, n));
    }
}

proof fn lemma_iterate_previous_item_selected(a: App, k: nat)
    requires
        a.wf(),
        (a.selected_index matches Some(i)),
    ensures
        iterate_previous_item(a, k) == (App {
            selected_index: Some(
                iterate_prev_index(a.selected_index->0 as int, a.spec_sets@.len() as int, k)
                    as usize,
            ),
            ..a
        }),
        0 <= iterate_prev_index(a.selected_index->0 as int, a.spec_sets@.len() as int, k)
            < a.spec_sets@.len(),
    decreases k,
{
    let n = a.spec_sets@.len() as int;
    let i = a.selected_index->0 as int;
    assert(a.spec_sets.len() == a.spec_sets@.len());
    if k == 0 {
        assert(a.selected_index == Some((i as usize)));
    } else {
        lemma_iterate_previous_item_selected(a, (k - 1) as nat);
        let v = iterate_prev_index(i, n, (k - 1) as nat);
        assert(0 <= v < n);
        assert((v as usize) as int == v);
        assert(iterate_previous_item(a, k) == App::spec_previous_item(
            iterate_previous_item(a, (k - 1) as nat),
        ));
        assert(iterate_prev_index(i, n, k) == spec_prev_index(v, n));
    }
}

/// Law: on a well-formed state over `n` specs, `n` next steps or `n`
/// previous steps restore the whole state, selection included.
pub proof fn lemma_item_navigation_cycles(a: App)
    requires
        a.wf(),
        a.spec_sets@.len() > 0,
    ensures
        iterate_next_item(a, a.spec_sets@.len() as nat) == a,
        iterate_previous_item(a, a.spec_sets@.len() as nat) == a,
{
    let n = a.spec_sets@.len() as int;
    let i = a.selected_index->0 as int;
    lemma_iterate_next_item_selected(a, n as nat);
    lemma_iterate_previous_item_selected(a, n as nat);
    lemma_selection_cycles(i, n);
}

/// Law: entering the detail view and leaving it again restores the list
/// view with the scroll reset, whatever the scroll was before; the
/// collection, the selection and the running flag are untouched.
pub proof fn lemma_enter_then_exit(a: App)
    ensures
        App::spec_exit_detail(App::spec_enter_detail(a)).view_mode == ViewMode::List,
        App::spec_exit_detail(App::spec_enter_detail(a)).detail_scroll == 0,
        App::spec_exit_detail(App::spec_enter_detail(a)).spec_sets == a.spec_sets,
        App::spec_exit_detail(App::spec_enter_detail(a)).selected_index == a.selected_index,
        App::spec_exit_detail(App::spec_enter_detail(a)).running == a.running,
{
}

/// Law: scrolling up at the top is a no-op on the whole state.
pub proof fn lemma_scroll_up_at_top(a: App)
    requires
        a.detail_scroll == 0,
    ensures
        App::spec_scroll_up(a) == a,
{
}

/// Law: scrolling down while standing at the bound is a no-op on the whole
/// state.
pub proof fn lemma_scroll_down_at_bound(a: App, bound: usize)
    requires
        a.detail_scroll >= bound,
    ensures
        App::spec_scroll_down(a, bound) == a,
{
}

} // verus!
