//! Properties of the two filters, stated over the records they keep.
use crate::filter::{
    is_first_occurrence, keys_of, kept_by_dedup, kept_by_exclusion, lemma_keys_of_push, record_key,
    survives_exclusion,
};
use crate::table::rows_of_width;
use vstd::prelude::*;

verus! {

/// No two records of `rows` share a non-empty key.
pub open spec fn keys_distinct(rows: Seq<Seq<Seq<char>>>, col: int) -> bool {
    forall|i: int, j: int|
        0 <= i < j < rows.len() && #[trigger] record_key(rows[i], col) is Some ==> record_key(
            rows[i],
            col,
        ) != #[trigger] record_key(rows[j], col)
}

/// The records of `rows` that have no key, in order.
pub open spec fn keyless_records(rows: Seq<Seq<Seq<char>>>, col: int) -> Seq<Seq<Seq<char>>>
    decreases rows.len(),
{
    if rows.len() == 0 {
        rows
    } else {
        let p = keyless_records(rows.drop_last(), col);
        if record_key(rows.last(), col) is None {
            p.push(rows.last())
        } else {
            p
        }
    }
}

proof fn lemma_keyless_push(rows: Seq<Seq<Seq<char>>>, row: Seq<Seq<char>>, col: int)
    ensures
        keyless_records(rows.push(row), col) == if record_key(row, col) is None {
            keyless_records(rows, col).push(row)
        } else {
            keyless_records(rows, col)
        },
{
    assert(rows.push(row).drop_last() =~= rows);
}

/// Exclusion keeps exactly the records that have no key or whose key is
/// not excluded: each kept record is an unchanged record of the input, and
/// each input record with no key or a key outside `ex` is kept.
pub proof fn lemma_exclusion_keeps_exactly(rows: Seq<Seq<Seq<char>>>, col: int, ex: Set<Seq<char>>)
    ensures
        forall|j: int|
            0 <= j < kept_by_exclusion(rows, col, ex).len() ==> rows.contains(
                #[trigger] kept_by_exclusion(rows, col, ex)[j],
            ) && survives_exclusion(kept_by_exclusion(rows, col, ex)[j], col, ex),
        forall|i: int|
            0 <= i < rows.len() && survives_exclusion(#[trigger] rows[i], col, ex)
                ==> kept_by_exclusion(rows, col, ex).contains(rows[i]),
    decreases rows.len(),
{
    if rows.len() > 0 {
        let d = rows.drop_last();
        let p = kept_by_exclusion(d, col, ex);
        let out = kept_by_exclusion(rows, col, ex);
        lemma_exclusion_keeps_exactly(d, col, ex);
        assert forall|j: int| 0 <= j < out.len() implies rows.contains(#[trigger] out[j])
            && survives_exclusion(out[j], col, ex) by {
            if j < p.len() {
                assert(out[j] == p[j]);
                assert(d.contains(p[j]));
                let k = choose|k: int| 0 <= k < d.len() && d[k] == p[j];
                assert(rows[k] == d[k]);
            } else {
                assert(rows[rows.len() - 1] == out[j]);
            }
        }
        assert forall|i: int|
            0 <= i < rows.len() && survives_exclusion(#[trigger] rows[i], col, ex) implies out.contains(
            rows[i]) by {
            if i < d.len() {
                assert(d[i] == rows[i]);
                assert(p.contains(rows[i]));
                let k = choose|k: int| 0 <= k < p.len() && p[k] == rows[i];
                assert(out[k] == p[k]);
            } else {
                assert(out[out.len() - 1] == rows[i]);
            }
        }
    }
}

proof fn lemma_exclusion_fixpoint(rows: Seq<Seq<Seq<char>>>, col: int, ex: Set<Seq<char>>)
    requires
        forall|j: int| 0 <= j < rows.len() ==> survives_exclusion(#[trigger] rows[j], col, ex),
    ensures
        kept_by_exclusion(rows, col, ex) == rows,
    decreases rows.len(),
{
    if rows.len() > 0 {
        let d = rows.drop_last();
        assert forall|j: int| 0 <= j < d.len() implies survives_exclusion(#[trigger] d[j], col, ex) by {
            assert(d[j] == rows[j]);
        }
        lemma_exclusion_fixpoint(d, col, ex);
        assert(survives_exclusion(rows[rows.len() - 1], col, ex));
        assert(d.push(rows.last()) =~= rows);
    }
}

/// Excluding the same keys a second time drops nothing more.
pub proof fn lemma_exclusion_idempotent(rows: Seq<Seq<Seq<char>>>, col: int, ex: Set<Seq<char>>)
    ensures
        kept_by_exclusion(kept_by_exclusion(rows, col, ex), col, ex) == kept_by_exclusion(rows, col, ex),
{
    lemma_exclusion_keeps_exactly(rows, col, ex);
    lemma_exclusion_fixpoint(kept_by_exclusion(rows, col, ex), col, ex);
}

/// Every record without a key survives exclusion, in order, however many
/// there are.
pub proof fn lemma_exclusion_keeps_keyless(rows: Seq<Seq<Seq<char>>>, col: int, ex: Set<Seq<char>>)
    ensures
        keyless_records(kept_by_exclusion(rows, col, ex), col) == keyless_records(rows, col),
    decreases rows.len(),
{
    if rows.len() > 0 {
        let d = rows.drop_last();
        lemma_exclusion_keeps_keyless(d, col, ex);
        lemma_keyless_push(kept_by_exclusion(d, col, ex), rows.last(), col);
    }
}

proof fn lemma_key_in_keys_of(rows: Seq<Seq<Seq<char>>>, col: int, i: int)
    requires
        0 <= i < rows.len(),
        record_key(rows[i], col) is Some,
    ensures
        keys_of(rows, col).contains(record_key(rows[i], col).unwrap()),
{
}

/// Deduplication keeps the set of non-empty keys.
pub proof fn lemma_dedup_keeps_keys(rows: Seq<Seq<Seq<char>>>, col: int)
    ensures
        keys_of(kept_by_dedup(rows, col), col) == keys_of(rows, col),
    decreases rows.len(),
{
    if rows.len() > 0 {
        let d = rows.drop_last();
        let p = kept_by_dedup(d, col);
        let out = kept_by_dedup(rows, col);
        lemma_dedup_keeps_keys(d, col);
        assert forall|k: Seq<char>| keys_of(out, col).contains(k) <==> keys_of(rows, col).contains(k) by {
            if keys_of(out, col).contains(k) {
                let j = choose|j: int| 0 <= j < out.len() && record_key(out[j], col) == Some(k);
                if j < p.len() {
                    assert(out[j] == p[j]);
                    assert(keys_of(p, col).contains(k));
                    assert(keys_of(d, col).contains(k));
                    let i = choose|i: int| 0 <= i < d.len() && record_key(d[i], col) == Some(k);
                    assert(rows[i] == d[i]);
                } else {
                    assert(out[j] == rows[rows.len() - 1]);
                }
            }
            if keys_of(rows, col).contains(k) {
                let i = choose|i: int| 0 <= i < rows.len() && record_key(rows[i], col) == Some(k);
                if i < d.len() {
                    assert(d[i] == rows[i]);
                    assert(keys_of(d, col).contains(k));
                    assert(keys_of(p, col).contains(k));
                    let j = choose|j: int| 0 <= j < p.len() && record_key(p[j], col) == Some(k);
                    assert(out[j] == p[j]);
                } else if is_first_occurrence(d, rows.last(), col) {
                    assert(out[out.len() - 1] == rows[i]);
                } else {
                    assert(keys_of(d, col).contains(k));
                    assert(keys_of(p, col).contains(k));
                    let j = choose|j: int| 0 <= j < p.len() && record_key(p[j], col) == Some(k);
                    assert(out[j] == p[j]);
                }
            }
        }
        assert(keys_of(out, col) =~= keys_of(rows, col));
    }
}

/// After deduplication no two kept records share a non-empty key.
pub proof fn lemma_dedup_keys_distinct(rows: Seq<Seq<Seq<char>>>, col: int)
    ensures
        keys_distinct(kept_by_dedup(rows, col), col),
    decreases rows.len(),
{
    if rows.len() > 0 {
        let d = rows.drop_last();
        let p = kept_by_dedup(d, col);
        let out = kept_by_dedup(rows, col);
        lemma_dedup_keys_distinct(d, col);
        lemma_dedup_keeps_keys(d, col);
        if is_first_occurrence(d, rows.last(), col) {
            assert forall|i: int, j: int|
                0 <= i < j < out.len() && #[trigger] record_key(out[i], col) is Some implies record_key(
                out[i],
                col,
            ) != #[trigger] record_key(out[j], col) by {
                assert(out[i] == p[i]);
                if j < p.len() {
                    assert(out[j] == p[j]);
                } else {
                    lemma_key_in_keys_of(p, col, i);
                }
            }
        }
    }
}

/// Each kept record is an unchanged input record that is the first with its
/// key; each input record that is the first with its key, or has none, is
/// kept.
pub proof fn lemma_dedup_keeps_first_occurrences(rows: Seq<Seq<Seq<char>>>, col: int)
    ensures
        forall|j: int|
            0 <= j < kept_by_dedup(rows, col).len() ==> exists|i: int|
                0 <= i < rows.len() && rows[i] == #[trigger] kept_by_dedup(rows, col)[j]
                    && is_first_occurrence(rows.take(i), rows[i], col),
        forall|i: int|
            0 <= i < rows.len() && is_first_occurrence(rows.take(i), #[trigger] rows[i], col)
                ==> kept_by_dedup(rows, col).contains(rows[i]),
    decreases rows.len(),
{
    if rows.len() > 0 {
        let d = rows.drop_last();
        let p = kept_by_dedup(d, col);
        let out = kept_by_dedup(rows, col);
        let n = rows.len() - 1;
        lemma_dedup_keeps_first_occurrences(d, col);
        assert(rows.take(n) =~= d);
        assert forall|j: int| 0 <= j < out.len() implies exists|i: int|
            0 <= i < rows.len() && rows[i] == #[trigger] out[j] && is_first_occurrence(
                rows.take(i),
                rows[i],
                col,
            ) by {
            if j < p.len() {
                assert(out[j] == p[j]);
                let i = choose|i: int|
                    0 <= i < d.len() && d[i] == p[j] && is_first_occurrence(d.take(i), d[i], col);
                assert(rows[i] == d[i]);
                assert(rows.take(i) =~= d.take(i));
            } else {
                assert(rows[n] == out[j]);
            }
        }
        assert forall|i: int|
            0 <= i < rows.len() && is_first_occurrence(rows.take(i), #[trigger] rows[i], col) implies out.contains(
            rows[i]) by {
            if i < n {
                assert(d[i] == rows[i]);
                assert(rows.take(i) =~= d.take(i));
                assert(p.contains(rows[i]));
                let k = choose|k: int| 0 <= k < p.len() && p[k] == rows[i];
                assert(out[k] == p[k]);
            } else {
                assert(out[out.len() - 1] == rows[i]);
            }
        }
    }
}

proof fn lemma_dedup_fixpoint(rows: Seq<Seq<Seq<char>>>, col: int)
    requires
        keys_distinct(rows, col),
    ensures
        kept_by_dedup(rows, col) == rows,
    decreases rows.len(),
{
    if rows.len() > 0 {
        let d = rows.drop_last();
        let n = rows.len() - 1;
        assert forall|i: int, j: int|
            0 <= i < j < d.len() && #[trigger] record_key(d[i], col) is Some implies record_key(
            d[i],
            col,
        ) != #[trigger] record_key(d[j], col) by {
            assert(d[i] == rows[i] && d[j] == rows[j]);
            assert(record_key(rows[i], col) is Some);
        }
        lemma_dedup_fixpoint(d, col);
        if record_key(rows.last(), col) is Some {
            if keys_of(d, col).contains(record_key(rows.last(), col).unwrap()) {
                let i = choose|i: int|
                    0 <= i < d.len() && record_key(d[i], col) == Some(
                        record_key(rows.last(), col).unwrap(),
                    );
                assert(rows[i] == d[i]);
                assert(record_key(rows[i], col) is Some);
                assert(record_key(rows[i], col) != record_key(rows[n], col));
            }
        }
        assert(d.push(rows.last()) =~= rows);
    }
}

/// Deduplicating a second time drops nothing more.
pub proof fn lemma_dedup_idempotent(rows: Seq<Seq<Seq<char>>>, col: int)
    ensures
        kept_by_dedup(kept_by_dedup(rows, col), col) == kept_by_dedup(rows, col),
{
    lemma_dedup_keys_distinct(rows, col);
    lemma_dedup_fixpoint(kept_by_dedup(rows, col), col);
}

/// Every record without a key survives deduplication, in order, however
/// many there are.
pub proof fn lemma_dedup_keeps_keyless(rows: Seq<Seq<Seq<char>>>, col: int)
    ensures
        keyless_records(kept_by_dedup(rows, col), col) == keyless_records(rows, col),
    decreases rows.len(),
{
    if rows.len() > 0 {
        let d = rows.drop_last();
        lemma_dedup_keeps_keyless(d, col);
        lemma_keyless_push(kept_by_dedup(d, col), rows.last(), col);
    }
}

/// Exclusion keeps every record's field count.
pub proof fn lemma_exclusion_keeps_width(
    rows: Seq<Seq<Seq<char>>>,
    col: int,
    ex: Set<Seq<char>>,
    width: int,
)
    requires
        rows_of_width(rows, width),
    ensures
        rows_of_width(kept_by_exclusion(rows, col, ex), width),
    decreases rows.len(),
{
    if rows.len() > 0 {
        let d = rows.drop_last();
        assert(rows_of_width(d, width)) by {
            assert forall|i: int| 0 <= i < d.len() implies #[trigger] d[i].len() == width by {
                assert(d[i] == rows[i]);
            }
        }
        lemma_exclusion_keeps_width(d, col, ex, width);
        let p = kept_by_exclusion(d, col, ex);
        assert(rows.last().len() == width);
        assert forall|i: int| 0 <= i < p.len() + 1 implies #[trigger] p.push(rows.last())[i].len()
            == width by {
            if i < p.len() {
                assert(p.push(rows.last())[i] == p[i]);
            }
        }
    }
}

/// Deduplication keeps every record's field count.
pub proof fn lemma_dedup_keeps_width(rows: Seq<Seq<Seq<char>>>, col: int, width: int)
    requires
        rows_of_width(rows, width),
    ensures
        rows_of_width(kept_by_dedup(rows, col), width),
    decreases rows.len(),
{
    if rows.len() > 0 {
        let d = rows.drop_last();
        assert(rows_of_width(d, width)) by {
            assert forall|i: int| 0 <= i < d.len() implies #[trigger] d[i].len() == width by {
                assert(d[i] == rows[i]);
            }
        }
        lemma_dedup_keeps_width(d, col, width);
        let p = kept_by_dedup(d, col);
        assert(rows.last().len() == width);
        assert forall|i: int| 0 <= i < p.len() + 1 implies #[trigger] p.push(rows.last())[i].len()
            == width by {
            if i < p.len() {
                assert(p.push(rows.last())[i] == p[i]);
            }
        }
    }
}

proof fn lemma_exclusion_len(rows: Seq<Seq<Seq<char>>>, col: int, ex: Set<Seq<char>>)
    ensures
        kept_by_exclusion(rows, col, ex).len() <= rows.len(),
    decreases rows.len(),
{
    if rows.len() > 0 {
        lemma_exclusion_len(rows.drop_last(), col, ex);
    }
}

/// Excluding a larger set keeps a part of what a smaller set keeps: the
/// records kept by `ex2` are those kept by `ex1` that `ex2` also keeps.
pub proof fn lemma_exclusion_monotone(
    rows: Seq<Seq<Seq<char>>>,
    col: int,
    ex1: Set<Seq<char>>,
    ex2: Set<Seq<char>>,
)
    requires
        ex1.subset_of(ex2),
    ensures
        kept_by_exclusion(kept_by_exclusion(rows, col, ex1), col, ex2) == kept_by_exclusion(
            rows,
            col,
            ex2,
        ),
        kept_by_exclusion(rows, col, ex2).len() <= kept_by_exclusion(rows, col, ex1).len(),
    decreases rows.len(),
{
    let k1 = kept_by_exclusion(rows, col, ex1);
    if rows.len() > 0 {
        let d = rows.drop_last();
        let p1 = kept_by_exclusion(d, col, ex1);
        lemma_exclusion_monotone(d, col, ex1, ex2);
        if survives_exclusion(rows.last(), col, ex1) {
            assert(p1.push(rows.last()).drop_last() =~= p1);
        }
    }
    lemma_exclusion_len(k1, col, ex2);
}

/// Excluding a file's records by a set that holds all of their keys, such
/// as the file's own keys, keeps exactly the records without a key.
pub proof fn lemma_exclusion_by_own_keys(rows: Seq<Seq<Seq<char>>>, col: int, ex: Set<Seq<char>>)
    requires
        keys_of(rows, col).subset_of(ex),
    ensures
        kept_by_exclusion(rows, col, ex) == keyless_records(rows, col),
    decreases rows.len(),
{
    if rows.len() > 0 {
        let d = rows.drop_last();
        lemma_keys_of_push(d, rows.last(), col);
        assert(d.push(rows.last()) =~= rows);
        lemma_exclusion_by_own_keys(d, col, ex);
    }
}

/// Deduplication keeps as many records as there are records without a key
/// plus distinct non-empty keys.
pub proof fn lemma_dedup_count(rows: Seq<Seq<Seq<char>>>, col: int)
    ensures
        keys_of(rows, col).finite(),
        kept_by_dedup(rows, col).len() == keyless_records(rows, col).len() + keys_of(rows, col).len(),
    decreases rows.len(),
{
    if rows.len() == 0 {
        assert(keys_of(rows, col) =~= Set::<Seq<char>>::empty());
    } else {
        let d = rows.drop_last();
        lemma_keys_of_push(d, rows.last(), col);
        assert(d.push(rows.last()) =~= rows);
        lemma_dedup_count(d, col);
    }
}

} // verus!
