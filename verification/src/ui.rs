//! What the renderer needs computed from the state: the scroll bound of
//! the document on show, and the overall progress the list view's gauge
//! displays.  The drawing itself happens outside.

use crate::app::{App, ViewMode};
use crate::finder::SpecSet;
use crate::parser::{document_lines, lemma_document_lines_step, text_bytes};
use vstd::prelude::*;
use vstd::string::StrSliceExecFns;

verus! {

/// How many display lines a document text has.
pub open spec fn line_count(text: Seq<u8>) -> int {
    document_lines(text).len() as int
}

/// Counts the lines of a document, as the detail view lays them out.
fn count_lines(bytes: &Vec<u8>) -> (r: usize)
    ensures
        r == line_count(bytes@),
{
    let n = bytes.len();
    let mut i: usize = 0;
    let mut count: usize = 0;
    proof {
        assert(bytes@.skip(0) =~= bytes@);
    }
    while i < n
        invariant
            i <= n == bytes@.len(),
            count <= i,
            line_count(bytes@) == count + line_count(bytes@.skip(i as int)),
        decreases n - i,
    {
        let ghost suffix = bytes@.skip(i as int);
        let mut j = i;
        while j < n && bytes[j] != 10
            invariant
                i <= j <= n == bytes@.len(),
                forall|k: int| i <= k < j ==> #[trigger] bytes@[k] != 10,
            decreases n - j,
        {
            j = j + 1;
        }
        proof {
            assert forall|k: int| 0 <= k < j - i implies #[trigger] suffix[k] != 10 by {
                assert(suffix[k] == bytes@[i + k]);
            }
            assert(j < n ==> suffix[j - i] == bytes@[j as int]);
            lemma_document_lines_step(suffix, j - i);
            if j == n {
                assert(bytes@.skip(n as int) =~= Seq::<u8>::empty());
            } else {
                assert(suffix.skip(j - i + 1) =~= bytes@.skip(j + 1));
            }
        }
        count = count + 1;
        if j == n {
            i = n;
        } else {
            i = j + 1;
        }
    }
    proof {
        assert(bytes@.skip(n as int) =~= Seq::<u8>::empty());
    }
    count
}

/// The scroll bound the detail view allows: how many of the shown
/// document's lines lie below the visible content area.  Zero in the list
/// view, for an index outside the collection, and for an absent document.
pub open spec fn spec_max_scroll(a: App, content: Option<String>, content_height: usize) -> int {
    match a.view_mode {
        ViewMode::Detail { spec_index } => if spec_index < a.spec_sets@.len() {
            match content {
                Some(text) => if line_count(text_bytes(text@)) >= content_height {
                    line_count(text_bytes(text@)) - content_height
                } else {
                    0
                },
                None => 0,
            }
        } else {
            0
        },
        ViewMode::List => 0,
    }
}

/// Computes the scroll bound of the detail view from the text of the
/// document on show and the height of the content area.
pub fn calculate_max_scroll(app: &App, content: &Option<String>, content_height: usize) -> (r:
    usize)
    ensures
        r == spec_max_scroll(*app, *content, content_height),
{
    match &app.view_mode {
        ViewMode::Detail { spec_index } => {
            if *spec_index < app.spec_sets.len() {
                match content {
                    Some(text) => {
                        let bytes = text.as_str().as_bytes_vec();
                        let total_lines = count_lines(&bytes);
                        if total_lines >= content_height {
                            total_lines - content_height
                        } else {
                            0
                        }
                    },
                    None => 0,
                }
            } else {
                0
            }
        },
        ViewMode::List => 0,
    }
}

/// The count a record contributes to a progress sum.
pub open spec fn opt_count(o: Option<usize>) -> int {
    match o {
        Some(v) => v as int,
        None => 0,
    }
}

/// The sum of the records' total task counts.
pub open spec fn sum_totals(s: Seq<SpecSet>) -> int
    decreases s.len(),
{
    if s.len() == 0 {
        0
    } else {
        sum_totals(s.drop_last()) + opt_count(s.last().total_tasks)
    }
}

/// The sum of the records' completed task counts.
pub open spec fn sum_completed(s: Seq<SpecSet>) -> int
    decreases s.len(),
{
    if s.len() == 0 {
        0
    } else {
        sum_completed(s.drop_last()) + opt_count(s.last().completed_tasks)
    }
}

/// A sum clamped to what a machine word holds.
pub open spec fn saturated(v: int) -> int {
    if v <= usize::MAX {
        v
    } else {
        usize::MAX as int
    }
}

/// The overall progress shown above the list: the total and completed
/// task counts summed over the whole collection, each saturating at the
/// machine limit.
pub fn overall_progress(spec_sets: &Vec<SpecSet>) -> (r: (usize, usize))
    ensures
        r.0 == saturated(sum_totals(spec_sets@)),
        r.1 == saturated(sum_completed(spec_sets@)),
{
    let mut totals: usize = 0;
    let mut completed: usize = 0;
    let mut k: usize = 0;
    proof {
        assert(spec_sets@.take(0) =~= Seq::<SpecSet>::empty());
    }
    while k < spec_sets.len()
        invariant
            k <= spec_sets@.len(),
            totals == saturated(sum_totals(spec_sets@.take(k as int))),
            completed == saturated(sum_completed(spec_sets@.take(k as int))),
        decreases spec_sets@.len() - k,
    {
        let e = &spec_sets[k];
        let t = match e.total_tasks {
            Some(v) => v,
            None => 0,
        };
        let c = match e.completed_tasks {
            Some(v) => v,
            None => 0,
        };
        proof {
            assert(spec_sets@.take(k + 1).drop_last() =~= spec_sets@.take(k as int));
            assert(spec_sets@.take(k + 1).last() == spec_sets@[k as int]);
        }
        totals = if totals > usize::MAX - t {
            usize::MAX
        } else {
            totals + t
        };
        completed = if completed > usize::MAX - c {
            usize::MAX
        } else {
            completed + c
        };
        k = k + 1;
    }
    proof {
        assert(spec_sets@.take(spec_sets@.len() as int) =~= spec_sets@);
    }
    (totals, completed)
}

} // verus!
