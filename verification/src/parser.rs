//! The task counter: it reads a checklist document and counts how many
//! checklist items it holds and how many of them are completed.
//!
//! A checklist item is a line whose content, after leading whitespace,
//! starts with the literal marker `- [x]` (completed) or `- [ ]` (pending).
//! Every other line is ignored.

use vstd::prelude::*;
use vstd::string::StrSliceExecFns;

verus! {

/// The bytes of a document given as text: its UTF-8 encoding.
pub open spec fn text_bytes(s: Seq<char>) -> Seq<u8> {
    vstd::utf8::encode_utf8(s)
}

/// A byte that counts as whitespace at the start of a line.
pub open spec fn is_blank(b: u8) -> bool {
    b == 32 || (9 <= b && b <= 13)
}

/// The five bytes of the completed-item marker, `- [x]`.
pub open spec fn completed_marker() -> Seq<u8> {
    seq![45u8, 32u8, 91u8, 120u8, 93u8]
}

/// The five bytes of the pending-item marker, `- [ ]`.
pub open spec fn pending_marker() -> Seq<u8> {
    seq![45u8, 32u8, 91u8, 32u8, 93u8]
}

/// `line` with its leading whitespace removed.
pub open spec fn trim_start(line: Seq<u8>) -> Seq<u8>
    decreases line.len(),
{
    if line.len() > 0 && is_blank(line[0]) {
        trim_start(line.drop_first())
    } else {
        line
    }
}

pub open spec fn starts_with(s: Seq<u8>, prefix: Seq<u8>) -> bool {
    prefix.len() <= s.len() && s.take(prefix.len() as int) == prefix
}

/// A line that marks a completed checklist item.
pub open spec fn is_completed_line(line: Seq<u8>) -> bool {
    starts_with(trim_start(line), completed_marker())
}

/// A line that marks a pending checklist item.
pub open spec fn is_pending_line(line: Seq<u8>) -> bool {
    starts_with(trim_start(line), pending_marker())
}

/// A line that marks a checklist item of either kind.
pub open spec fn is_task_line(line: Seq<u8>) -> bool {
    is_completed_line(line) || is_pending_line(line)
}

/// The lines of a document: split at every newline byte, which belongs to
/// no line.  A final line needs no terminating newline; an empty document
/// has no lines.
pub open spec fn document_lines(text: Seq<u8>) -> Seq<Seq<u8>>
    decreases text.len(),
{
    if text.len() == 0 {
        Seq::empty()
    } else if text[0] == 10 {
        seq![Seq::<u8>::empty()] + document_lines(text.drop_first())
    } else {
        let rest = document_lines(text.drop_first());
        if rest.len() == 0 {
            seq![seq![text[0]]]
        } else {
            seq![seq![text[0]] + rest[0]] + rest.drop_first()
        }
    }
}

/// How many of `lines` satisfy `p`.
pub open spec fn count_matching(lines: Seq<Seq<u8>>, p: spec_fn(Seq<u8>) -> bool) -> int
    decreases lines.len(),
{
    if lines.len() == 0 {
        0
    } else {
        (if p(lines[0]) {
            1int
        } else {
            0int
        }) + count_matching(lines.drop_first(), p)
    }
}

pub open spec fn task_pred() -> spec_fn(Seq<u8>) -> bool {
    |l: Seq<u8>| is_task_line(l)
}

pub open spec fn completed_pred() -> spec_fn(Seq<u8>) -> bool {
    |l: Seq<u8>| is_completed_line(l)
}

pub open spec fn pending_pred() -> spec_fn(Seq<u8>) -> bool {
    |l: Seq<u8>| is_pending_line(l)
}

/// How many lines of the document mark a checklist item.
pub open spec fn total_count(text: Seq<u8>) -> int {
    count_matching(document_lines(text), task_pred())
}

/// How many lines of the document mark a completed checklist item.
pub open spec fn completed_count(text: Seq<u8>) -> int {
    count_matching(document_lines(text), completed_pred())
}

/// How many lines of the document mark a pending checklist item.
pub open spec fn pending_count(text: Seq<u8>) -> int {
    count_matching(document_lines(text), pending_pred())
}

/// The counts that the task counter owes a document that may be absent:
/// an absent document has no lines.
pub open spec fn doc_bytes(content: Option<String>) -> Seq<u8> {
    match content {
        Some(s) => text_bytes(s@),
        None => Seq::empty(),
    }
}

/// Removing leading whitespace removes exactly the bytes before the first
/// non-blank one.
proof fn lemma_trim_start_skip(line: Seq<u8>, k: int)
    requires
        0 <= k <= line.len(),
        forall|j: int| 0 <= j < k ==> is_blank(#[trigger] line[j]),
        k < line.len() ==> !is_blank(line[k]),
    ensures
        trim_start(line) == line.skip(k),
    decreases k,
{
    if k == 0 {
        assert(line.skip(0) =~= line);
    } else {
        assert(is_blank(line[0]));
        lemma_trim_start_skip(line.drop_first(), k - 1);
        assert(line.drop_first().skip(k - 1) =~= line.skip(k));
    }
}

/// Tells whether the line `bytes[start..end]` marks a checklist item, and
/// whether a completed one.
fn classify_line(bytes: &Vec<u8>, start: usize, end: usize) -> (r: (bool, bool))
    requires
        start <= end <= bytes@.len(),
    ensures
        r.0 == is_task_line(bytes@.subrange(start as int, end as int)),
        r.1 == is_completed_line(bytes@.subrange(start as int, end as int)),
{
    let ghost line = bytes@.subrange(start as int, end as int);
    let mut p = start;
    while p < end && (bytes[p] == 32 || (9 <= bytes[p] && bytes[p] <= 13))
        invariant
            start <= p <= end <= bytes@.len(),
            forall|j: int| start <= j < p ==> is_blank(#[trigger] bytes@[j]),
        decreases end - p,
    {
        p = p + 1;
    }
    proof {
        assert forall|j: int| 0 <= j < p - start implies is_blank(#[trigger] line[j]) by {
            assert(line[j] == bytes@[start + j]);
        }
        assert(p - start < line.len() ==> !is_blank(line[p - start]));
        lemma_trim_start_skip(line, p - start);
    }
    let ghost trimmed = trim_start(line);
    if end - p >= 5 {
        let b0 = bytes[p];
        let b1 = bytes[p + 1];
        let b2 = bytes[p + 2];
        let b3 = bytes[p + 3];
        let b4 = bytes[p + 4];
        proof {
            assert(trimmed.len() == end - p);
            assert(trimmed[0] == bytes@[p as int]);
            assert(trimmed[1] == bytes@[p + 1]);
            assert(trimmed[2] == bytes@[p + 2]);
            assert(trimmed[3] == bytes@[p + 3]);
            assert(trimmed[4] == bytes@[p + 4]);
        }
        let task = b0 == 45 && b1 == 32 && b2 == 91 && (b3 == 120 || b3 == 32) && b4 == 93;
        let completed = task && b3 == 120;
        proof {
            if completed {
                assert(trimmed.take(5) =~= completed_marker());
            } else if task {
                assert(trimmed.take(5) =~= pending_marker());
            }
            if starts_with(trimmed, completed_marker()) {
                assert(trimmed.take(5)[3] == trimmed[3]);
                assert(trimmed[3] == 120 && trimmed[0] == 45 && trimmed[1] == 32 && trimmed[2]
                    == 91 && trimmed[4] == 93);
            }
            if starts_with(trimmed, pending_marker()) {
                assert(trimmed.take(5)[3] == trimmed[3]);
                assert(trimmed[3] == 32 && trimmed[0] == 45 && trimmed[1] == 32 && trimmed[2] == 91
                    && trimmed[4] == 93);
            }
        }
        (task, completed)
    } else {
        proof {
            assert(trimmed.len() < 5);
        }
        (false, false)
    }
}

/// Peeling the first line off a document: if the first newline of `text`
/// stands at `e`, the lines of `text` are `text[..e]` followed by the lines
/// of `text[e + 1..]`.
pub(crate) proof fn lemma_document_lines_step(text: Seq<u8>, e: int)
    requires
        0 <= e <= text.len(),
        forall|k: int| 0 <= k < e ==> #[trigger] text[k] != 10,
        e < text.len() ==> text[e] == 10,
    ensures
        document_lines(text) == (if text.len() == 0 {
            Seq::<Seq<u8>>::empty()
        } else if e == text.len() {
            seq![text]
        } else {
            seq![text.take(e)] + document_lines(text.skip(e + 1))
        }),
    decreases e,
{
    if text.len() == 0 {
    } else if e == 0 {
        assert(text[0] == 10);
        assert(text.take(0) =~= Seq::<u8>::empty());
        assert(text.skip(1) =~= text.drop_first());
    } else {
        assert(text[0] != 10);
        let rest = document_lines(text.drop_first());
        lemma_document_lines_step(text.drop_first(), e - 1);
        if e == text.len() {
            if text.len() == 1 {
                assert(text.drop_first().len() == 0);
                assert(seq![text[0]] =~= text);
            } else {
                assert(rest == seq![text.drop_first()]);
                assert(seq![text[0]] + rest[0] =~= text);
                assert(rest.drop_first() =~= Seq::<Seq<u8>>::empty());
                assert(seq![seq![text[0]] + rest[0]] + rest.drop_first() =~= seq![text]);
            }
        } else {
            assert(rest == seq![text.drop_first().take(e - 1)] + document_lines(
                text.drop_first().skip(e),
            ));
            assert(rest.len() > 0);
            assert(rest[0] == text.drop_first().take(e - 1));
            assert(seq![text[0]] + text.drop_first().take(e - 1) =~= text.take(e));
            assert(text.drop_first().skip(e) =~= text.skip(e + 1));
            assert(rest.drop_first() =~= document_lines(text.drop_first().skip(e)));
            assert(seq![seq![text[0]] + rest[0]] + rest.drop_first() =~= seq![text.take(e)]
                + document_lines(text.skip(e + 1)));
        }
    }
}

/// Counts the checklist items among the lines of `bytes`: all of them, and
/// the completed ones.
fn count_task_lines(bytes: &Vec<u8>) -> (r: (usize, usize))
    ensures
        r.0 == total_count(bytes@),
        r.1 == completed_count(bytes@),
        r.1 <= r.0,
{
    let n = bytes.len();
    let mut i: usize = 0;
    let mut total: usize = 0;
    let mut completed: usize = 0;
    proof {
        assert(bytes@.skip(0) =~= bytes@);
    }
    while i < n
        invariant
            i <= n == bytes@.len(),
            completed <= total <= i,
            total_count(bytes@) == total + count_matching(
                document_lines(bytes@.skip(i as int)),
                task_pred(),
            ),
            completed_count(bytes@) == completed + count_matching(
                document_lines(bytes@.skip(i as int)),
                completed_pred(),
            ),
        decreases n - i,
    {
        let ghost suffix = bytes@.skip(i as int);
        let mut j = i;
        while j < n && bytes[j] != 10
            invariant
                i <= j <= n == bytes@.len(),
                forall|k: int| i <= k < j ==> #[trigger] bytes@[k] != 10,
            decreases n - j,
        {
            j = j + 1;
        }
        let (task, comp) = classify_line(bytes, i, j);
        proof {
            let line = bytes@.subrange(i as int, j as int);
            assert(line =~= suffix.take(j - i));
            assert forall|k: int| 0 <= k < j - i implies #[trigger] suffix[k] != 10 by {
                assert(suffix[k] == bytes@[i + k]);
            }
            assert(j < n ==> suffix[j - i] == bytes@[j as int]);
            lemma_document_lines_step(suffix, j - i);
            if j == n {
                assert(suffix.take(j - i) =~= suffix);
                assert(document_lines(suffix) == seq![suffix]);
                assert(count_matching(seq![suffix], task_pred()) == (if is_task_line(suffix) {
                    1int
                } else {
                    0int
                })) by {
                    assert(seq![suffix][0] == suffix);
                    assert(task_pred()(suffix) == is_task_line(suffix));
                    assert(seq![suffix].drop_first() =~= Seq::<Seq<u8>>::empty());
                    assert(count_matching(Seq::<Seq<u8>>::empty(), task_pred()) == 0);
                }
                assert(count_matching(seq![suffix], completed_pred()) == (if is_completed_line(
                    suffix,
                ) {
                    1int
                } else {
                    0int
                })) by {
                    assert(seq![suffix][0] == suffix);
                    assert(completed_pred()(suffix) == is_completed_line(suffix));
                    assert(seq![suffix].drop_first() =~= Seq::<Seq<u8>>::empty());
                    assert(count_matching(Seq::<Seq<u8>>::empty(), completed_pred()) == 0);
                }
                assert(bytes@.skip(n as int) =~= Seq::<u8>::empty());
            } else {
                let tail = document_lines(suffix.skip(j - i + 1));
                assert(document_lines(suffix) == seq![line] + tail);
                assert((seq![line] + tail)[0] == line);
                assert((seq![line] + tail).drop_first() =~= tail);
                assert(task_pred()(line) == is_task_line(line));
                assert(completed_pred()(line) == is_completed_line(line));
                assert(count_matching(seq![line] + tail, task_pred()) == (if is_task_line(line) {
                    1int
                } else {
                    0int
                }) + count_matching(tail, task_pred()));
                assert(count_matching(seq![line] + tail, completed_pred()) == (
                if is_completed_line(line) {
                    1int
                } else {
                    0int
                }) + count_matching(tail, completed_pred()));
                assert(suffix.skip(j - i + 1) =~= bytes@.skip(j + 1));
            }
        }
        if task {
            total = total + 1;
        }
        if comp {
            completed = completed + 1;
        }
        if j == n {
            i = n;
        } else {
            i = j + 1;
        }
    }
    proof {
        assert(bytes@.skip(n as int) =~= Seq::<u8>::empty());
    }
    (total, completed)
}

/// Counts the checklist items of a task document: how many lines mark an
/// item at all, and how many of those are completed.  An absent document
/// has no items, so it counts as `(0, 0)`.
pub fn parse_tasks_file(content: &Option<String>) -> (r: (usize, usize))
    ensures
        r.0 == total_count(doc_bytes(*content)),
        r.1 == completed_count(doc_bytes(*content)),
        r.1 <= r.0,
{
    match content {
        None => (0, 0),
        Some(s) => {
            let bytes: Vec<u8> = s.as_str().as_bytes_vec();
            count_task_lines(&bytes)
        },
    }
}

/// No line satisfies `p` negatively: a count of matching lines is never
/// negative.
proof fn lemma_count_matching_nonneg(lines: Seq<Seq<u8>>, p: spec_fn(Seq<u8>) -> bool)
    ensures
        0 <= count_matching(lines, p),
    decreases lines.len(),
{
    if lines.len() > 0 {
        lemma_count_matching_nonneg(lines.drop_first(), p);
    }
}

/// A count of lines matching a weaker predicate bounds a count of lines
/// matching a stronger one.
proof fn lemma_count_matching_le(
    lines: Seq<Seq<u8>>,
    p: spec_fn(Seq<u8>) -> bool,
    q: spec_fn(Seq<u8>) -> bool,
)
    requires
        forall|l: Seq<u8>| #[trigger] p(l) ==> q(l),
    ensures
        count_matching(lines, p) <= count_matching(lines, q),
    decreases lines.len(),
{
    if lines.len() > 0 {
        lemma_count_matching_le(lines.drop_first(), p, q);
    }
}

/// Lines matching either of two disjoint predicates are counted once each.
proof fn lemma_count_matching_split(
    lines: Seq<Seq<u8>>,
    t: spec_fn(Seq<u8>) -> bool,
    p: spec_fn(Seq<u8>) -> bool,
    q: spec_fn(Seq<u8>) -> bool,
)
    requires
        forall|l: Seq<u8>| #[trigger] t(l) == (p(l) || q(l)),
        forall|l: Seq<u8>| !(#[trigger] p(l) && q(l)),
    ensures
        count_matching(lines, t) == count_matching(lines, p) + count_matching(lines, q),
    decreases lines.len(),
{
    if lines.len() > 0 {
        lemma_count_matching_split(lines.drop_first(), t, p, q);
    }
}

/// No line is a pending and a completed item at once: the markers differ.
proof fn lemma_markers_disjoint(line: Seq<u8>)
    ensures
        !(is_pending_line(line) && is_completed_line(line)),
{
    if is_pending_line(line) && is_completed_line(line) {
        let trimmed = trim_start(line);
        assert(trimmed.take(5)[3] == trimmed[3]);
        assert(trimmed[3] == 120 && trimmed[3] == 32);
    }
}

/// Law: of any document text, the completed count never exceeds the total
/// count, and neither is negative.
pub proof fn lemma_completed_le_total(text: Seq<u8>)
    ensures
        0 <= completed_count(text) <= total_count(text),
{
    lemma_count_matching_nonneg(document_lines(text), completed_pred());
    assert forall|l: Seq<u8>| #[trigger] completed_pred()(l) implies task_pred()(l) by {
        assert(completed_pred()(l) == is_completed_line(l));
        assert(task_pred()(l) == is_task_line(l));
    }
    lemma_count_matching_le(document_lines(text), completed_pred(), task_pred());
}

/// Law: a document with `n` pending and `m` completed items counts as
/// `(n + m, m)`: the total is exactly the pending count plus the completed
/// count, whatever the interleaving or indentation of its lines.
pub proof fn lemma_total_is_pending_plus_completed(text: Seq<u8>)
    ensures
        total_count(text) == pending_count(text) + completed_count(text),
{
    assert forall|l: Seq<u8>| #[trigger]
        task_pred()(l) == (pending_pred()(l) || completed_pred()(l)) by {
        assert(task_pred()(l) == is_task_line(l));
        assert(pending_pred()(l) == is_pending_line(l));
        assert(completed_pred()(l) == is_completed_line(l));
    }
    assert forall|l: Seq<u8>| !(#[trigger] pending_pred()(l) && completed_pred()(l)) by {
        lemma_markers_disjoint(l);
    }
    lemma_count_matching_split(document_lines(text), task_pred(), pending_pred(), completed_pred());
}

/// The step a matching count takes, line by line.
pub open spec fn count_step(p: spec_fn(Seq<u8>) -> bool) -> spec_fn(Seq<u8>, int) -> int {
    |l: Seq<u8>, acc: int| acc + if p(l) {
        1int
    } else {
        0int
    }
}

/// A matching count is a fold of `count_step` over the lines.
proof fn lemma_count_matching_fold(lines: Seq<Seq<u8>>, p: spec_fn(Seq<u8>) -> bool)
    ensures
        count_matching(lines, p) == lines.fold_right(count_step(p), 0),
    decreases lines.len(),
{
    lines.lemma_fold_right_alt(count_step(p), 0);
    if lines.len() > 0 {
        lemma_count_matching_fold(lines.drop_first(), p);
        lines.drop_first().lemma_fold_right_alt(count_step(p), 0);
        assert(lines.subrange(1, lines.len() as int) =~= lines.drop_first());
        assert(count_step(p)(lines[0], lines.drop_first().fold_right(count_step(p), 0))
            == lines.drop_first().fold_right(count_step(p), 0) + if p(lines[0]) {
            1int
        } else {
            0int
        });
    }
}

/// Counts of matching lines do not depend on the order of the lines.
proof fn lemma_count_matching_permutation(
    l1: Seq<Seq<u8>>,
    l2: Seq<Seq<u8>>,
    p: spec_fn(Seq<u8>) -> bool,
)
    requires
        l1.to_multiset() == l2.to_multiset(),
    ensures
        count_matching(l1, p) == count_matching(l2, p),
{
    lemma_count_matching_fold(l1, p);
    lemma_count_matching_fold(l2, p);
    assert(vstd::seq_lib::commutative_foldr(count_step(p))) by {
        assert forall|x: Seq<u8>, y: Seq<u8>, v: int| #[trigger]
            count_step(p)(x, count_step(p)(y, v)) == count_step(p)(y, count_step(p)(x, v)) by {
            assert(count_step(p)(y, v) == v + if p(y) {
                1int
            } else {
                0int
            });
        }
    }
    vstd::seq_lib::lemma_fold_right_permutation(l1, l2, count_step(p), 0);
}

/// Law: reordering the lines of a document changes none of its counts.
/// Two documents whose lines are the same multiset count alike.
pub proof fn lemma_counts_ignore_line_order(a: Seq<u8>, b: Seq<u8>)
    requires
        document_lines(a).to_multiset() == document_lines(b).to_multiset(),
    ensures
        total_count(a) == total_count(b),
        completed_count(a) == completed_count(b),
        pending_count(a) == pending_count(b),
{
    lemma_count_matching_permutation(document_lines(a), document_lines(b), task_pred());
    lemma_count_matching_permutation(document_lines(a), document_lines(b), completed_pred());
    lemma_count_matching_permutation(document_lines(a), document_lines(b), pending_pred());
}

} // verus!
