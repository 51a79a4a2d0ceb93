//! Reduction of digest rows into the final mapping, and the laws that make
//! the reduction safe to run concurrently.
//!
//! Workers produce key-disjoint `(path, digest)` rows; the final result is
//! the mapping that holds each row once. The laws here state that the
//! mapping does not depend on the order in which rows were produced, and
//! that splitting the work into parts and concatenating the parts' rows
//! yields the same rows as one sequential pass.

use vstd::prelude::*;

use crate::filter::{GlobPattern, spec_includes_file};
use crate::hashing::{spec_normalize_path, spec_selected_entries};

verus! {

/// The mapping that the digest rows reduce to: every row inserted once.
pub open spec fn spec_rows_map<V>(rows: Seq<(Seq<char>, V)>) -> Map<Seq<char>, V>
    decreases rows.len(),
{
    if rows.len() == 0 {
        Map::<Seq<char>, V>::empty()
    } else {
        spec_rows_map(rows.drop_last()).insert(rows.last().0, rows.last().1)
    }
}

/// No two rows share a key: each visited file owns its path, so workers
/// never write the same key.
pub open spec fn spec_unique_keys<V>(rows: Seq<(Seq<char>, V)>) -> bool {
    forall|i: int, j: int|
        0 <= i < j < rows.len() ==> (#[trigger] rows[i]).0 != (#[trigger] rows[j]).0
}

/// A key is in the mapping exactly when some row carries it.
pub proof fn lemma_rows_map_contains<V>(rows: Seq<(Seq<char>, V)>, k: Seq<char>)
    ensures
        spec_rows_map(rows).contains_key(k) <==> exists|i: int|
            0 <= i < rows.len() && (#[trigger] rows[i]).0 == k,
    decreases rows.len(),
{
    if rows.len() > 0 {
        lemma_rows_map_contains(rows.drop_last(), k);
        if rows.last().0 == k {
            assert(rows[rows.len() - 1].0 == k);
        } else {
            if spec_rows_map(rows).contains_key(k) {
                let i = choose|i: int|
                    0 <= i < rows.drop_last().len() && (#[trigger] rows.drop_last()[i]).0 == k;
                assert(rows[i].0 == k);
            }
            if exists|i: int| 0 <= i < rows.len() && (#[trigger] rows[i]).0 == k {
                let i = choose|i: int| 0 <= i < rows.len() && (#[trigger] rows[i]).0 == k;
                assert(rows.drop_last()[i].0 == k);
            }
        }
    }
}

/// With unique keys, each row's key maps to exactly that row's digest.
pub proof fn lemma_rows_map_value<V>(rows: Seq<(Seq<char>, V)>, i: int)
    requires
        spec_unique_keys(rows),
        0 <= i < rows.len(),
    ensures
        spec_rows_map(rows).contains_key(rows[i].0),
        spec_rows_map(rows)[rows[i].0] == rows[i].1,
    decreases rows.len(),
{
    if i == rows.len() - 1 {
    } else {
        assert(rows[i].0 != rows[rows.len() - 1].0);
        assert(rows.drop_last()[i] == rows[i]);
        assert(spec_unique_keys(rows.drop_last())) by {
            assert forall|a: int, b: int|
                0 <= a < b < rows.drop_last().len() implies (#[trigger] rows.drop_last()[a]).0
                != (#[trigger] rows.drop_last()[b]).0 by {
                assert(rows.drop_last()[a] == rows[a]);
                assert(rows.drop_last()[b] == rows[b]);
            }
        }
        lemma_rows_map_value(rows.drop_last(), i);
    }
}

/// The final mapping does not depend on the order in which the rows were
/// produced: two runs over the same files — one sequential, one spread
/// over any number of workers — that emit the same rows, each key once,
/// reduce to the same mapping.
pub proof fn lemma_final_mapping_order_irrelevant<V>(
    a: Seq<(Seq<char>, V)>,
    b: Seq<(Seq<char>, V)>,
)
    requires
        spec_unique_keys(a),
        spec_unique_keys(b),
        forall|r: (Seq<char>, V)| a.contains(r) <==> b.contains(r),
    ensures
        spec_rows_map(a) == spec_rows_map(b),
{
    let ma = spec_rows_map(a);
    let mb = spec_rows_map(b);
    assert forall|k: Seq<char>| #[trigger] ma.dom().contains(k) implies mb.dom().contains(k)
        && ma[k] == mb[k] by {
        assert(ma.contains_key(k));
        lemma_rows_map_contains(a, k);
        let i = choose|i: int| 0 <= i < a.len() && (#[trigger] a[i]).0 == k;
        assert(a.contains(a[i]));
        assert(b.contains(a[i]));
        let j = choose|j: int| 0 <= j < b.len() && b[j] == a[i];
        lemma_rows_map_value(a, i);
        lemma_rows_map_value(b, j);
    }
    assert forall|k: Seq<char>| #[trigger] mb.dom().contains(k) implies ma.dom().contains(k) by {
        assert(mb.contains_key(k));
        lemma_rows_map_contains(b, k);
        let j = choose|j: int| 0 <= j < b.len() && (#[trigger] b[j]).0 == k;
        assert(b.contains(b[j]));
        assert(a.contains(b[j]));
        let i = choose|i: int| 0 <= i < a.len() && a[i] == b[j];
        lemma_rows_map_contains(a, k);
        assert(a[i].0 == k);
    }
    assert(ma.dom() =~= mb.dom());
    assert(ma =~= mb);
}

/// Splitting the visited files into parts and concatenating the parts'
/// selections yields the selection of one sequential pass: with the
/// order-irrelevance of the final mapping, parallel and sequential runs
/// over the same inputs reduce to identical mappings.
pub proof fn lemma_selection_splits(
    ps: Seq<GlobPattern>,
    cwd: Seq<char>,
    a: Seq<(String, Option<Vec<u8>>)>,
    b: Seq<(String, Option<Vec<u8>>)>,
)
    ensures
        spec_selected_entries(ps, cwd, a + b) == spec_selected_entries(ps, cwd, a)
            + spec_selected_entries(ps, cwd, b),
    decreases b.len(),
{
    if b.len() == 0 {
        assert(a + b =~= a);
        assert(spec_selected_entries(ps, cwd, b)
            =~= Seq::<(String, Option<Vec<u8>>)>::empty());
        assert(spec_selected_entries(ps, cwd, a) + spec_selected_entries(ps, cwd, b)
            =~= spec_selected_entries(ps, cwd, a));
    } else {
        lemma_selection_splits(ps, cwd, a, b.drop_last());
        assert((a + b).drop_last() =~= a + b.drop_last());
        assert((a + b).last() == b.last());
        if spec_includes_file(ps, spec_normalize_path(cwd, b.last().0@)) {
            assert(spec_selected_entries(ps, cwd, a) + spec_selected_entries(ps, cwd, b)
                =~= (spec_selected_entries(ps, cwd, a) + spec_selected_entries(
                ps,
                cwd,
                b.drop_last(),
            )) + seq![b.last()]);
        }
    }
}

/// Every visited file that the pattern set selects appears exactly once as
/// a key of the selection, and nothing else does: the selection's keys are
/// unique whenever the visited files' normalized paths are (each file is
/// visited once), and a key is present exactly when some visited file
/// normalizes to it and is selected.
pub proof fn lemma_every_selected_file_exactly_once(
    ps: Seq<GlobPattern>,
    cwd: Seq<char>,
    es: Seq<(String, Option<Vec<u8>>)>,
)
    requires
        forall|i: int, j: int|
            0 <= i < j < es.len() ==> spec_normalize_path(cwd, (#[trigger] es[i]).0@)
                != spec_normalize_path(cwd, (#[trigger] es[j]).0@),
    ensures
        forall|i: int, j: int|
            0 <= i < j < spec_selected_entries(ps, cwd, es).len()
                ==> spec_normalize_path(
                cwd,
                (#[trigger] spec_selected_entries(ps, cwd, es)[i]).0@,
            ) != spec_normalize_path(
                cwd,
                (#[trigger] spec_selected_entries(ps, cwd, es)[j]).0@,
            ),
        forall|i: int|
            0 <= i < spec_selected_entries(ps, cwd, es).len() ==> es.contains(
                #[trigger] spec_selected_entries(ps, cwd, es)[i],
            ) && spec_includes_file(
                ps,
                spec_normalize_path(cwd, spec_selected_entries(ps, cwd, es)[i].0@),
            ),
        forall|i: int|
            0 <= i < es.len() && spec_includes_file(
                ps,
                spec_normalize_path(cwd, (#[trigger] es[i]).0@),
            ) ==> spec_selected_entries(ps, cwd, es).contains(es[i]),
    decreases es.len(),
{
    let sel = spec_selected_entries(ps, cwd, es);
    if es.len() > 0 {
        let head = es.drop_last();
        assert(forall|i: int, j: int|
            0 <= i < j < head.len() ==> spec_normalize_path(cwd, (#[trigger] head[i]).0@)
                != spec_normalize_path(cwd, (#[trigger] head[j]).0@)) by {
            assert forall|i: int, j: int| 0 <= i < j < head.len() implies spec_normalize_path(
                cwd,
                (#[trigger] head[i]).0@,
            ) != spec_normalize_path(cwd, (#[trigger] head[j]).0@) by {
                assert(head[i] == es[i]);
                assert(head[j] == es[j]);
            }
        }
        lemma_every_selected_file_exactly_once(ps, cwd, head);
        let subsel = spec_selected_entries(ps, cwd, head);
        assert forall|i: int| 0 <= i < subsel.len() implies es.contains(#[trigger] subsel[i]) by {
            assert(head.contains(subsel[i]));
            let w = choose|w: int| 0 <= w < head.len() && head[w] == subsel[i];
            assert(es[w] == subsel[i]);
        }
        if spec_includes_file(ps, spec_normalize_path(cwd, es.last().0@)) {
            assert(sel == subsel + seq![es.last()]);
            assert(es.contains(es.last())) by {
                assert(es[es.len() - 1] == es.last());
            }
            assert forall|i: int, j: int| 0 <= i < j < sel.len() implies spec_normalize_path(
                cwd,
                (#[trigger] sel[i]).0@,
            ) != spec_normalize_path(cwd, (#[trigger] sel[j]).0@) by {
                if j < sel.len() - 1 {
                    assert(sel[i] == subsel[i] && sel[j] == subsel[j]);
                } else {
                    assert(sel[j] == es.last());
                    assert(sel[i] == subsel[i]);
                    assert(head.contains(subsel[i]));
                    let w = choose|w: int| 0 <= w < head.len() && head[w] == subsel[i];
                    assert(es[w] == subsel[i]);
                    assert(spec_normalize_path(cwd, es[w].0@) != spec_normalize_path(
                        cwd,
                        es[es.len() - 1].0@,
                    ));
                }
            }
            assert forall|i: int|
                0 <= i < es.len() && spec_includes_file(
                    ps,
                    spec_normalize_path(cwd, (#[trigger] es[i]).0@),
                ) implies sel.contains(es[i]) by {
                if i == es.len() - 1 {
                    assert(sel[sel.len() - 1] == es[i]);
                } else {
                    assert(head[i] == es[i]);
                    assert(subsel.contains(es[i]));
                    let w = choose|w: int| 0 <= w < subsel.len() && subsel[w] == es[i];
                    assert(sel[w] == es[i]);
                }
            }
        } else {
            assert(sel == subsel);
            assert forall|i: int|
                0 <= i < es.len() && spec_includes_file(
                    ps,
                    spec_normalize_path(cwd, (#[trigger] es[i]).0@),
                ) implies sel.contains(es[i]) by {
                assert(i != es.len() - 1);
                assert(head[i] == es[i]);
                assert(subsel.contains(es[i]));
                let w = choose|w: int| 0 <= w < subsel.len() && subsel[w] == es[i];
                assert(sel[w] == es[i]);
            }
        }
    }
}

/// Membership in a concatenation does not depend on the order of the two
/// halves.
proof fn lemma_concat_contains_comm<T>(x: Seq<T>, y: Seq<T>, r: T)
    ensures
        (x + y).contains(r) <==> (y + x).contains(r),
{
    if (x + y).contains(r) {
        let i = choose|i: int| 0 <= i < (x + y).len() && (x + y)[i] == r;
        if i < x.len() {
            assert((y + x)[y.len() + i] == r);
        } else {
            assert((y + x)[i - x.len()] == r);
        }
    }
    if (y + x).contains(r) {
        let i = choose|i: int| 0 <= i < (y + x).len() && (y + x)[i] == r;
        if i < y.len() {
            assert((x + y)[x.len() + i] == r);
        } else {
            assert((x + y)[i - y.len()] == r);
        }
    }
}

/// Unique normalized keys survive swapping the two halves of a partition.
proof fn lemma_unique_norm_keys_comm(
    cwd: Seq<char>,
    a: Seq<(String, Option<Vec<u8>>)>,
    b: Seq<(String, Option<Vec<u8>>)>,
)
    requires
        forall|i: int, j: int|
            0 <= i < j < (a + b).len() ==> spec_normalize_path(cwd, (#[trigger] (a + b)[i]).0@)
                != spec_normalize_path(cwd, (#[trigger] (a + b)[j]).0@),
    ensures
        forall|i: int, j: int|
            0 <= i < j < (b + a).len() ==> spec_normalize_path(cwd, (#[trigger] (b + a)[i]).0@)
                != spec_normalize_path(cwd, (#[trigger] (b + a)[j]).0@),
{
    assert forall|i: int, j: int| 0 <= i < j < (b + a).len() implies spec_normalize_path(
        cwd,
        (#[trigger] (b + a)[i]).0@,
    ) != spec_normalize_path(cwd, (#[trigger] (b + a)[j]).0@) by {
        let pi: int = if i < b.len() { a.len() + i } else { i - b.len() };
        let pj: int = if j < b.len() { a.len() + j } else { j - b.len() };
        assert((b + a)[i] == (a + b)[pi]);
        assert((b + a)[j] == (a + b)[pj]);
        if pi < pj {
            assert(spec_normalize_path(cwd, (a + b)[pi].0@) != spec_normalize_path(
                cwd,
                (a + b)[pj].0@,
            ));
        } else {
            assert(pj < pi);
            assert(spec_normalize_path(cwd, (a + b)[pj].0@) != spec_normalize_path(
                cwd,
                (a + b)[pi].0@,
            ));
        }
    }
}

/// Sequential and parallel invocations over the same inputs produce
/// identical final mappings. The visited files are split into two parts
/// (`a + b` is the sequential order); each worker's row for a file is a
/// function of that file alone (`row_of`, keyed by the normalized path, as
/// the digest contracts promise); whichever order the parts complete in,
/// the rows reduce to the same mapping.
pub proof fn lemma_sequential_and_parallel_runs_agree<V>(
    ps: Seq<GlobPattern>,
    cwd: Seq<char>,
    row_of: spec_fn((String, Option<Vec<u8>>)) -> (Seq<char>, V),
    a: Seq<(String, Option<Vec<u8>>)>,
    b: Seq<(String, Option<Vec<u8>>)>,
)
    requires
        forall|e: (String, Option<Vec<u8>>)|
            (#[trigger] row_of(e)).0 == spec_normalize_path(cwd, e.0@),
        forall|i: int, j: int|
            0 <= i < j < (a + b).len() ==> spec_normalize_path(cwd, (#[trigger] (a + b)[i]).0@)
                != spec_normalize_path(cwd, (#[trigger] (a + b)[j]).0@),
    ensures
        spec_rows_map(spec_selected_entries(ps, cwd, a + b).map_values(row_of))
            == spec_rows_map(spec_selected_entries(ps, cwd, b + a).map_values(row_of)),
{
    lemma_selection_splits(ps, cwd, a, b);
    lemma_selection_splits(ps, cwd, b, a);
    lemma_unique_norm_keys_comm(cwd, a, b);
    lemma_every_selected_file_exactly_once(ps, cwd, a + b);
    lemma_every_selected_file_exactly_once(ps, cwd, b + a);
    let sab = spec_selected_entries(ps, cwd, a + b);
    let sba = spec_selected_entries(ps, cwd, b + a);
    let rab = sab.map_values(row_of);
    let rba = sba.map_values(row_of);
    assert(spec_unique_keys(rab)) by {
        assert forall|i: int, j: int| 0 <= i < j < rab.len() implies (#[trigger] rab[i]).0
            != (#[trigger] rab[j]).0 by {
            assert(rab[i] == row_of(sab[i]));
            assert(rab[j] == row_of(sab[j]));
        }
    }
    assert(spec_unique_keys(rba)) by {
        assert forall|i: int, j: int| 0 <= i < j < rba.len() implies (#[trigger] rba[i]).0
            != (#[trigger] rba[j]).0 by {
            assert(rba[i] == row_of(sba[i]));
            assert(rba[j] == row_of(sba[j]));
        }
    }
    assert forall|r: (Seq<char>, V)| rab.contains(r) implies rba.contains(r) by {
        let i = choose|i: int| 0 <= i < rab.len() && rab[i] == r;
        assert(rab[i] == row_of(sab[i]));
        let sa = spec_selected_entries(ps, cwd, a);
        let sb = spec_selected_entries(ps, cwd, b);
        assert(sab == sa + sb);
        assert(sba == sb + sa);
        lemma_concat_contains_comm(sa, sb, sab[i]);
        assert((sb + sa).contains(sab[i]));
        let j = choose|j: int| 0 <= j < sba.len() && sba[j] == sab[i];
        assert(rba[j] == row_of(sba[j]));
        assert(rba[j] == r);
    }
    assert forall|r: (Seq<char>, V)| rba.contains(r) implies rab.contains(r) by {
        let i = choose|i: int| 0 <= i < rba.len() && rba[i] == r;
        assert(rba[i] == row_of(sba[i]));
        let sa = spec_selected_entries(ps, cwd, a);
        let sb = spec_selected_entries(ps, cwd, b);
        assert(sab == sa + sb);
        assert(sba == sb + sa);
        lemma_concat_contains_comm(sb, sa, sba[i]);
        assert((sa + sb).contains(sba[i]));
        let j = choose|j: int| 0 <= j < sab.len() && sab[j] == sba[i];
        assert(rab[j] == row_of(sab[j]));
        assert(rab[j] == r);
    }
    lemma_final_mapping_order_irrelevant(rab, rba);
}

} // verus!
