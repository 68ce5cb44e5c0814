//! The spec discoverer: it turns the entries of the specs directory into
//! one record per spec folder, counts the folder's checklist with the task
//! counter, and returns the records sorted by name.
//!
//! Walking the directory is the caller's business: the discoverer is handed
//! one [`SpecDirEntry`] per entry, in whatever order the file system listed
//! them, and its result does not depend on that order beyond tie-breaks
//! between records of equal name.

use crate::parser::{completed_count, doc_bytes, parse_tasks_file, total_count};
use vstd::prelude::*;
use vstd::seq_lib::lemma_multiset_commutative;
use vstd::string::StrSliceExecFns;

verus! {

/// One discovered unit of work.  The three paths are present exactly when
/// the corresponding document file exists; the two counts come from the
/// task counter run on the tasks document.
#[derive(Debug, Clone)]
pub struct SpecSet {
    pub name: String,
    pub requirements: Option<String>,
    pub design: Option<String>,
    pub tasks: Option<String>,
    pub total_tasks: Option<usize>,
    pub completed_tasks: Option<usize>,
}

/// What a walk of the specs directory reports of one entry: its name,
/// whether it is a directory, for each well-known document its candidate
/// path and whether that file exists, and the text of the tasks document
/// where it could be read.
#[derive(Debug, Clone)]
pub struct SpecDirEntry {
    pub name: String,
    pub is_dir: bool,
    pub requirements_path: String,
    pub requirements_exists: bool,
    pub design_path: String,
    pub design_exists: bool,
    pub tasks_path: String,
    pub tasks_exists: bool,
    pub tasks_content: Option<String>,
}

/// Byte-wise lexicographic order, the order in which names are sorted.
pub open spec fn lex_le(a: Seq<u8>, b: Seq<u8>) -> bool
    decreases a.len(),
{
    if a.len() == 0 {
        true
    } else if b.len() == 0 {
        false
    } else if a[0] < b[0] {
        true
    } else if a[0] > b[0] {
        false
    } else {
        lex_le(a.drop_first(), b.drop_first())
    }
}

/// The bytes of a name: its UTF-8 encoding.
pub open spec fn name_bytes(s: String) -> Seq<u8> {
    vstd::utf8::encode_utf8(s@)
}

/// The sort order of the collection: records ordered by name.
pub open spec fn name_le(a: SpecSet, b: SpecSet) -> bool {
    lex_le(name_bytes(a.name), name_bytes(b.name))
}

pub open spec fn sorted_by_name(s: Seq<SpecSet>) -> bool {
    forall|i: int, j: int| 0 <= i < j < s.len() ==> name_le(#[trigger] s[i], #[trigger] s[j])
}

/// The record built for one directory entry.
pub open spec fn to_spec_set(e: SpecDirEntry) -> SpecSet {
    SpecSet {
        name: e.name,
        requirements: if e.requirements_exists {
            Some(e.requirements_path)
        } else {
            None
        },
        design: if e.design_exists {
            Some(e.design_path)
        } else {
            None
        },
        tasks: if e.tasks_exists {
            Some(e.tasks_path)
        } else {
            None
        },
        total_tasks: Some(total_count(doc_bytes(e.tasks_content)) as usize),
        completed_tasks: Some(completed_count(doc_bytes(e.tasks_content)) as usize),
    }
}

/// One record per directory among the entries, in listing order;
/// non-directory entries are skipped.
pub open spec fn dir_spec_sets(es: Seq<SpecDirEntry>) -> Seq<SpecSet>
    decreases es.len(),
{
    if es.len() == 0 {
        Seq::empty()
    } else {
        dir_spec_sets(es.drop_last()) + (if es.last().is_dir {
            seq![to_spec_set(es.last())]
        } else {
            Seq::<SpecSet>::empty()
        })
    }
}

/// Insertion into a name-sorted sequence: `x` goes after every record
/// whose name is not greater, so records of equal name keep their
/// relative order.
pub open spec fn insert_by_name(s: Seq<SpecSet>, x: SpecSet) -> Seq<SpecSet>
    decreases s.len(),
{
    if s.len() == 0 {
        seq![x]
    } else if name_le(s[0], x) {
        seq![s[0]] + insert_by_name(s.drop_first(), x)
    } else {
        seq![x] + s
    }
}

/// The stable sort of the collection by name: every record inserted in
/// listing order.
pub open spec fn sort_by_name(s: Seq<SpecSet>) -> Seq<SpecSet>
    decreases s.len(),
{
    if s.len() == 0 {
        Seq::empty()
    } else {
        insert_by_name(sort_by_name(s.drop_last()), s.last())
    }
}

/// Everything the discoverer returns for the given directory entries.
pub open spec fn discovered_specs(es: Seq<SpecDirEntry>) -> Seq<SpecSet> {
    sort_by_name(dir_spec_sets(es))
}

/// The order on names is total.
proof fn lemma_lex_le_total(a: Seq<u8>, b: Seq<u8>)
    ensures
        lex_le(a, b) || lex_le(b, a),
    decreases a.len(),
{
    if a.len() > 0 && b.len() > 0 && a[0] == b[0] {
        lemma_lex_le_total(a.drop_first(), b.drop_first());
    }
}

/// The order on names is transitive.
proof fn lemma_lex_le_trans(a: Seq<u8>, b: Seq<u8>, c: Seq<u8>)
    requires
        lex_le(a, b),
        lex_le(b, c),
    ensures
        lex_le(a, c),
    decreases a.len(),
{
    if a.len() > 0 {
        assert(b.len() > 0);
        assert(c.len() > 0);
        if a[0] == b[0] && b[0] == c[0] {
            lemma_lex_le_trans(a.drop_first(), b.drop_first(), c.drop_first());
        }
    }
}

/// Where `insert_by_name` puts the new record: after every prefix record
/// whose name is not greater.
spec fn insert_position(s: Seq<SpecSet>, x: SpecSet) -> int
    decreases s.len(),
{
    if s.len() == 0 {
        0
    } else if name_le(s[0], x) {
        1 + insert_position(s.drop_first(), x)
    } else {
        0
    }
}

/// The insertion splits the sequence at `insert_position`.
proof fn lemma_insert_position(s: Seq<SpecSet>, x: SpecSet)
    ensures
        0 <= insert_position(s, x) <= s.len(),
        forall|j: int|
            0 <= j < insert_position(s, x) ==> name_le(#[trigger] s[j], x),
        insert_position(s, x) < s.len() ==> !name_le(s[insert_position(s, x)], x),
        insert_by_name(s, x) == s.take(insert_position(s, x)) + seq![x] + s.skip(
            insert_position(s, x),
        ),
    decreases s.len(),
{
    let k = insert_position(s, x);
    if s.len() == 0 {
        assert(s.take(0) + seq![x] + s.skip(0) =~= seq![x]);
    } else if name_le(s[0], x) {
        let d = s.drop_first();
        lemma_insert_position(d, x);
        assert(forall|j: int| 0 <= j < k - 1 ==> name_le(#[trigger] d[j], x));
        assert forall|j: int| 0 <= j < k implies name_le(#[trigger] s[j], x) by {
            if j > 0 {
                assert(d[j - 1] == s[j]);
            }
        }
        assert(k < s.len() ==> !name_le(s[k], x)) by {
            if k < s.len() {
                assert(d[k - 1] == s[k]);
            }
        }
        assert(seq![s[0]] + (d.take(k - 1) + seq![x] + d.skip(k - 1)) =~= s.take(k) + seq![x]
            + s.skip(k));
    } else {
        assert(seq![x] + s =~= s.take(0) + seq![x] + s.skip(0));
    }
}

/// Inserting into a sorted sequence keeps it sorted and adds exactly the
/// new record.
proof fn lemma_insert_by_name_ensures(s: Seq<SpecSet>, x: SpecSet)
    requires
        sorted_by_name(s),
    ensures
        sorted_by_name(insert_by_name(s, x)),
        insert_by_name(s, x).to_multiset() == s.to_multiset().insert(x),
        insert_by_name(s, x).len() == s.len() + 1,
{
    broadcast use vstd::seq_lib::group_to_multiset_ensures;
    broadcast use vstd::multiset::group_multiset_axioms;

    let k = insert_position(s, x);
    lemma_insert_position(s, x);
    let r = s.take(k) + seq![x] + s.skip(k);
    assert forall|i: int, j: int| 0 <= i < j < r.len() implies name_le(
        #[trigger] r[i],
        #[trigger] r[j],
    ) by {
        if i < k {
            assert(r[i] == s[i]);
        } else if i > k {
            assert(r[i] == s[i - 1]);
        }
        if j < k {
            assert(r[j] == s[j]);
        } else if j > k {
            assert(r[j] == s[j - 1]);
        }
        if i == k || j == k {
            if k < s.len() {
                lemma_lex_le_total(name_bytes(s[k].name), name_bytes(x.name));
                assert(name_le(x, s[k]));
            }
            if i == k && j > k && j - 1 > k {
                lemma_lex_le_trans(
                    name_bytes(x.name),
                    name_bytes(s[k].name),
                    name_bytes(s[j - 1].name),
                );
            }
        }
        if i < k && j > k {
            if i < j - 1 {
            } else {
                assert(false);
            }
        }
    }
    assert(r =~= s.take(k) + (seq![x] + s.skip(k)));
    lemma_multiset_commutative(s.take(k), seq![x] + s.skip(k));
    lemma_multiset_commutative(seq![x], s.skip(k));
    lemma_multiset_commutative(s.take(k), s.skip(k));
    assert(s.take(k) + s.skip(k) =~= s);
    assert(seq![x] =~= Seq::<SpecSet>::empty().push(x));
    assert(seq![x].to_multiset() == Seq::<SpecSet>::empty().to_multiset().insert(x));
    assert forall|y: SpecSet| true implies #[trigger] insert_by_name(s, x).to_multiset().count(y)
        == s.to_multiset().insert(x).count(y) by {
        assert(Seq::<SpecSet>::empty().to_multiset().count(y) == 0);
    }
    assert(insert_by_name(s, x).to_multiset() =~= s.to_multiset().insert(x));
}

/// The sort returns the same records, sorted by name.
pub proof fn lemma_sort_by_name_ensures(s: Seq<SpecSet>)
    ensures
        sorted_by_name(sort_by_name(s)),
        sort_by_name(s).to_multiset() == s.to_multiset(),
        sort_by_name(s).len() == s.len(),
    decreases s.len(),
{
    broadcast use vstd::seq_lib::group_to_multiset_ensures;

    if s.len() > 0 {
        lemma_sort_by_name_ensures(s.drop_last());
        lemma_insert_by_name_ensures(sort_by_name(s.drop_last()), s.last());
        assert(s =~= s.drop_last().push(s.last()));
    }
}

/// Law: the discovered collection is sorted by name, and holds exactly the
/// records of the directory entries, one per directory, whatever order the
/// file system listed them in.
pub proof fn lemma_discovered_specs_ensures(es: Seq<SpecDirEntry>)
    ensures
        sorted_by_name(discovered_specs(es)),
        discovered_specs(es).to_multiset() == dir_spec_sets(es).to_multiset(),
        discovered_specs(es).len() == dir_spec_sets(es).len(),
{
    lemma_sort_by_name_ensures(dir_spec_sets(es));
}

/// Compares two byte strings in lexicographic order.
fn bytes_lex_le(x: &Vec<u8>, y: &Vec<u8>) -> (r: bool)
    ensures
        r == lex_le(x@, y@),
{
    let mut i: usize = 0;
    proof {
        assert(x@.skip(0) =~= x@);
        assert(y@.skip(0) =~= y@);
    }
    while i < x.len() && i < y.len()
        invariant
            i <= x@.len(),
            i <= y@.len(),
            lex_le(x@, y@) == lex_le(x@.skip(i as int), y@.skip(i as int)),
        decreases x@.len() - i,
    {
        if x[i] < y[i] {
            return true;
        }
        if x[i] > y[i] {
            return false;
        }
        proof {
            assert(x@.skip(i as int).drop_first() =~= x@.skip(i + 1));
            assert(y@.skip(i as int).drop_first() =~= y@.skip(i + 1));
        }
        i = i + 1;
    }
    proof {
        if i == x@.len() {
            assert(x@.skip(i as int) =~= Seq::<u8>::empty());
        } else {
            assert(y@.skip(i as int) =~= Seq::<u8>::empty());
            assert(x@.skip(i as int).len() > 0);
        }
    }
    i == x.len()
}

/// Compares two records by name.
fn name_le_exec(a: &SpecSet, b: &SpecSet) -> (r: bool)
    ensures
        r == name_le(*a, *b),
{
    let x = a.name.as_str().as_bytes_vec();
    let y = b.name.as_str().as_bytes_vec();
    bytes_lex_le(&x, &y)
}

/// Inserts a record into a name-sorted collection, keeping it sorted.
fn insert_sorted(out: &mut Vec<SpecSet>, x: SpecSet)
    ensures
        final(out)@ == insert_by_name(old(out)@, x),
{
    let mut idx: usize = 0;
    while idx < out.len() && name_le_exec(&out[idx], &x)
        invariant
            idx <= out@.len(),
            forall|j: int| 0 <= j < idx ==> name_le(#[trigger] out@[j], x),
            *out == *old(out),
        decreases out@.len() - idx,
    {
        idx = idx + 1;
    }
    proof {
        let k = insert_position(out@, x);
        lemma_insert_position(out@, x);
        if idx < k {
            assert(name_le(out@[idx as int], x));
            assert(false);
        }
        if k < idx {
            assert(name_le(out@[k], x));
            assert(false);
        }
        assert(out@.insert(idx as int, x) =~= out@.take(k) + seq![x] + out@.skip(k));
    }
    out.insert(idx, x);
}

/// Builds the collection of discovered specs from the entries of the specs
/// directory: one record per subdirectory, counted with the task counter,
/// sorted by name.  Non-directory entries are skipped.
pub fn find_all_specs(entries: Vec<SpecDirEntry>) -> (r: Vec<SpecSet>)
    ensures
        r@ == discovered_specs(entries@),
        sorted_by_name(r@),
{
    let ghost all = entries@;
    let mut rest = entries;
    let mut out: Vec<SpecSet> = Vec::new();
    proof {
        assert(all.take(0) =~= Seq::<SpecDirEntry>::empty());
        assert(all.skip(0) =~= all);
    }
    while rest.len() > 0
        invariant
            rest@.len() <= all.len(),
            rest@ == all.skip(all.len() - rest@.len()),
            out@ == sort_by_name(dir_spec_sets(all.take(all.len() - rest@.len()))),
        decreases rest@.len(),
    {
        let ghost p = all.len() - rest@.len();
        let ghost prefix = all.take(p);
        let e = rest.remove(0);
        proof {
            assert(e == all[p]);
            assert(rest@ =~= all.skip(p + 1));
            assert(all.take(p + 1).drop_last() =~= prefix);
            assert(all.take(p + 1).last() == e);
            assert(dir_spec_sets(all.take(p + 1)) == dir_spec_sets(prefix) + (if e.is_dir {
                seq![to_spec_set(e)]
            } else {
                Seq::<SpecSet>::empty()
            }));
            lemma_sort_by_name_ensures(dir_spec_sets(prefix));
        }
        if e.is_dir {
            let (t, c) = parse_tasks_file(&e.tasks_content);
            let ghost ge = e;
            let SpecDirEntry {
                name,
                is_dir: _,
                requirements_path,
                requirements_exists,
                design_path,
                design_exists,
                tasks_path,
                tasks_exists,
                tasks_content: _,
            } = e;
            let s = SpecSet {
                name,
                requirements: if requirements_exists {
                    Some(requirements_path)
                } else {
                    None
                },
                design: if design_exists {
                    Some(design_path)
                } else {
                    None
                },
                tasks: if tasks_exists {
                    Some(tasks_path)
                } else {
                    None
                },
                total_tasks: Some(t),
                completed_tasks: Some(c),
            };
            proof {
                assert(total_count(doc_bytes(ge.tasks_content)) as usize == t);
                assert(completed_count(doc_bytes(ge.tasks_content)) as usize == c);
                assert(s == to_spec_set(ge));
                let d = dir_spec_sets(prefix);
                assert(d + seq![s] =~= d.push(s));
                assert(sort_by_name(d.push(s)) == insert_by_name(sort_by_name(d), s)) by {
                    assert(d.push(s).drop_last() =~= d);
                    assert(d.push(s).last() == s);
                }
            }
            insert_sorted(&mut out, s);
        } else {
            proof {
                assert(dir_spec_sets(prefix) + Seq::<SpecSet>::empty() =~= dir_spec_sets(prefix));
            }
        }
    }
    proof {
        assert(all.take(all.len() as int) =~= all);
        lemma_sort_by_name_ensures(dir_spec_sets(all));
    }
    out
}

} // verus!
