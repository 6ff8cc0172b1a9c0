//! Keep-or-drop decisions over a list of records, by exclusion set or by
//! first occurrence of each key.
use crate::key::{normalize, normalized};
use crate::key_set::KeySet;
use vstd::prelude::*;

verus! {

/// The key of a record: its normalised field at `col`, or `None` when the
/// field is missing or blank.
pub open spec fn record_key(row: Seq<Seq<char>>, col: int) -> Option<Seq<char>> {
    if 0 <= col < row.len() {
        normalized(row[col])
    } else {
        None
    }
}

/// The non-empty keys of `rows`.
pub open spec fn keys_of(rows: Seq<Seq<Seq<char>>>, col: int) -> Set<Seq<char>> {
    Set::new(|k: Seq<char>| exists|i: int| 0 <= i < rows.len() && record_key(rows[i], col) == Some(k))
}

/// A record is kept against an exclusion set when it has no key or its key
/// is not in the set.
pub open spec fn survives_exclusion(row: Seq<Seq<char>>, col: int, ex: Set<Seq<char>>) -> bool {
    match record_key(row, col) {
        Some(k) => !ex.contains(k),
        None => true,
    }
}

/// The records of `rows` that survive exclusion by `ex`, in order.
pub open spec fn kept_by_exclusion(rows: Seq<Seq<Seq<char>>>, col: int, ex: Set<Seq<char>>) -> Seq<
    Seq<Seq<char>>,
>
    decreases rows.len(),
{
    if rows.len() == 0 {
        rows
    } else {
        let kept = kept_by_exclusion(rows.drop_last(), col, ex);
        if survives_exclusion(rows.last(), col, ex) {
            kept.push(rows.last())
        } else {
            kept
        }
    }
}

/// A record is kept after `earlier` records when it has no key or no
/// earlier record has its key.
pub open spec fn is_first_occurrence(
    earlier: Seq<Seq<Seq<char>>>,
    row: Seq<Seq<char>>,
    col: int,
) -> bool {
    match record_key(row, col) {
        Some(k) => !keys_of(earlier, col).contains(k),
        None => true,
    }
}

/// The records of `rows` that are first occurrences of their keys, in order.
pub open spec fn kept_by_dedup(rows: Seq<Seq<Seq<char>>>, col: int) -> Seq<Seq<Seq<char>>>
    decreases rows.len(),
{
    if rows.len() == 0 {
        rows
    } else {
        let kept = kept_by_dedup(rows.drop_last(), col);
        if is_first_occurrence(rows.drop_last(), rows.last(), col) {
            kept.push(rows.last())
        } else {
            kept
        }
    }
}

/// The key of `record` at column `col`.
pub fn extract_key(record: &Vec<String>, col: usize) -> (r: Option<String>)
    ensures
        r is None <==> record_key(record.deep_view(), col as int) is None,
        r matches Some(k) ==> record_key(record.deep_view(), col as int) == Some(k@),
{
    if col < record.len() {
        normalize(record[col].as_str())
    } else {
        None
    }
}

pub(crate) proof fn lemma_keys_of_push(rows: Seq<Seq<Seq<char>>>, row: Seq<Seq<char>>, col: int)
    ensures
        keys_of(rows.push(row), col) == match record_key(row, col) {
            Some(k) => keys_of(rows, col).insert(k),
            None => keys_of(rows, col),
        },
{
    let s = rows.push(row);
    let rhs = match record_key(row, col) {
        Some(k) => keys_of(rows, col).insert(k),
        None => keys_of(rows, col),
    };
    assert forall|k: Seq<char>| keys_of(s, col).contains(k) <==> rhs.contains(k) by {
        if keys_of(s, col).contains(k) {
            let i = choose|i: int| 0 <= i < s.len() && record_key(s[i], col) == Some(k);
            if i < rows.len() {
                assert(rows[i] == s[i]);
            }
        }
        if keys_of(rows, col).contains(k) {
            let i = choose|i: int| 0 <= i < rows.len() && record_key(rows[i], col) == Some(k);
            assert(s[i] == rows[i]);
        }
        if record_key(row, col) == Some(k) {
            assert(s[rows.len() as int] == row);
        }
    }
    assert(keys_of(s, col) =~= rhs);
}

/// Copies a record field by field.
pub(crate) fn copy_record(record: &Vec<String>) -> (r: Vec<String>)
    ensures
        r.deep_view() == record.deep_view(),
{
    let mut r: Vec<String> = Vec::new();
    let mut i: usize = 0;
    while i < record.len()
        invariant
            i <= record@.len(),
            r@.len() == i,
            r.deep_view() == record.deep_view().take(i as int),
        decreases record@.len() - i,
    {
        let f = record[i].clone();
        assert(f@ == record.deep_view()[i as int]);
        let ghost prev = r@;
        let ghost prev_dv = r.deep_view();
        r.push(f);
        assert(r@ == prev.push(f));
        assert forall|j: int| 0 <= j <= i implies #[trigger] r.deep_view()[j] == record.deep_view()[j] by {
            if j < i {
                assert(r@[j] == prev[j]);
                assert(prev_dv[j] == prev[j]@);
                assert(prev_dv[j] == record.deep_view()[j]);
            } else {
                assert(r@[j] == f);
            }
        }
        assert(r.deep_view() =~= record.deep_view().take(i + 1));
        i = i + 1;
    }
    assert(record.deep_view().take(i as int) =~= record.deep_view());
    r
}

/// The set of non-empty keys of `records` at column `col`.
pub fn build_key_set(records: &Vec<Vec<String>>, col: usize) -> (s: KeySet)
    ensures
        s.wf(),
        s@ == keys_of(records.deep_view(), col as int),
{
    let ghost rows = records.deep_view();
    let mut s = KeySet::new();
    let mut i: usize = 0;
    assert(keys_of(rows.take(0), col as int) =~= Set::<Seq<char>>::empty());
    while i < records.len()
        invariant
            i <= records@.len(),
            rows == records.deep_view(),
            s.wf(),
            s@ == keys_of(rows.take(i as int), col as int),
        decreases records@.len() - i,
    {
        proof {
            assert(rows.take(i + 1) =~= rows.take(i as int).push(rows[i as int]));
            lemma_keys_of_push(rows.take(i as int), rows[i as int], col as int);
        }
        match extract_key(&records[i], col) {
            Some(k) => {
                s.insert(k);
            },
            None => {},
        }
        i = i + 1;
    }
    assert(rows.take(i as int) =~= rows);
    s
}

/// The records whose key is absent or not in `exclude`, in order.
pub fn exclude_records(records: &Vec<Vec<String>>, col: usize, exclude: &KeySet) -> (r: Vec<
    Vec<String>,
>)
    ensures
        r.deep_view() == kept_by_exclusion(records.deep_view(), col as int, exclude@),
{
    let ghost rows = records.deep_view();
    let mut out: Vec<Vec<String>> = Vec::new();
    let mut i: usize = 0;
    assert(out.deep_view() =~= kept_by_exclusion(rows.take(0), col as int, exclude@));
    while i < records.len()
        invariant
            i <= records@.len(),
            rows == records.deep_view(),
            out.deep_view() == kept_by_exclusion(rows.take(i as int), col as int, exclude@),
        decreases records@.len() - i,
    {
        let ghost before = out.deep_view();
        proof {
            let t = rows.take(i + 1);
            assert(t.drop_last() =~= rows.take(i as int));
            assert(t.last() == rows[i as int]);
        }
        let keep = match extract_key(&records[i], col) {
            Some(k) => !exclude.contains(&k),
            None => true,
        };
        if keep {
            out.push(copy_record(&records[i]));
            assert(out.deep_view() =~= before.push(rows[i as int]));
        }
        i = i + 1;
    }
    assert(rows.take(i as int) =~= rows);
    out
}

/// The records that are the first with their key, and all records without
/// a key, in order.
pub fn dedup_records(records: &Vec<Vec<String>>, col: usize) -> (r: Vec<Vec<String>>)
    ensures
        r.deep_view() == kept_by_dedup(records.deep_view(), col as int),
{
    let ghost rows = records.deep_view();
    let mut seen = KeySet::new();
    let mut out: Vec<Vec<String>> = Vec::new();
    let mut i: usize = 0;
    assert(out.deep_view() =~= kept_by_dedup(rows.take(0), col as int));
    assert(keys_of(rows.take(0), col as int) =~= Set::<Seq<char>>::empty());
    while i < records.len()
        invariant
            i <= records@.len(),
            rows == records.deep_view(),
            seen.wf(),
            seen@ == keys_of(rows.take(i as int), col as int),
            out.deep_view() == kept_by_dedup(rows.take(i as int), col as int),
        decreases records@.len() - i,
    {
        let ghost before = out.deep_view();
        proof {
            let t = rows.take(i + 1);
            assert(t.drop_last() =~= rows.take(i as int));
            assert(t.last() == rows[i as int]);
            assert(t =~= rows.take(i as int).push(rows[i as int]));
            lemma_keys_of_push(rows.take(i as int), rows[i as int], col as int);
        }
        let keep = match extract_key(&records[i], col) {
            Some(k) => seen.insert(k),
            None => true,
        };
        if keep {
            out.push(copy_record(&records[i]));
            assert(out.deep_view() =~= before.push(rows[i as int]));
        }
        i = i + 1;
    }
    assert(rows.take(i as int) =~= rows);
    out
}

} // verus!
