//! The two runs over CSV data keyed by the `email` column: exclusion of the
//! keys of a reference file, and removal of repeated keys.
use crate::error::FilterError;
use crate::filter::{
    build_key_set, copy_record, dedup_records, exclude_records, keys_of, kept_by_dedup,
    kept_by_exclusion,
};
use crate::key_set::KeySet;
use crate::laws::{lemma_dedup_keeps_width, lemma_exclusion_keeps_width};
use crate::table::{
    column_of, csv_header_of, csv_rows_of, csv_text_of, parse_header, parse_table, render_table,
    resolve_column, Table,
};
use vstd::prelude::*;

verus! {

/// The name of the key column.
pub open spec fn key_column_name() -> Seq<char> {
    "email"@
}

/// The name of the key column.
pub fn key_column() -> (r: &'static str)
    ensures
        r@ == key_column_name(),
{
    "email"
}

/// `r` is the failure for a header without the key column.
pub open spec fn is_missing_key_column<T>(r: Result<T, FilterError>) -> bool {
    r matches Err(FilterError::ColumnNotFound { column }) && column@ == key_column_name()
}

/// The keys of a table's records under its `email` column.
pub fn key_set_of_table(t: &Table) -> (r: Result<KeySet, FilterError>)
    ensures
        match column_of(t.header.deep_view(), key_column_name()) {
            Some(c) => r matches Ok(s) && s.wf() && s@ == keys_of(t.records.deep_view(), c),
            None => is_missing_key_column(r),
        },
{
    let col = resolve_column(&t.header, key_column())?;
    Ok(build_key_set(&t.records, col))
}

/// The table without the records whose key is in `exclude`.
pub fn exclude_rows(t: &Table, exclude: &KeySet) -> (r: Result<Table, FilterError>)
    ensures
        match column_of(t.header.deep_view(), key_column_name()) {
            Some(c) => r matches Ok(o) && o.header.deep_view() == t.header.deep_view()
                && o.records.deep_view() == kept_by_exclusion(t.records.deep_view(), c, exclude@)
                && (t.is_rectangular() ==> o.is_rectangular()),
            None => is_missing_key_column(r),
        },
{
    let col = resolve_column(&t.header, key_column())?;
    let records = exclude_records(&t.records, col, exclude);
    let o = Table { header: copy_record(&t.header), records };
    proof {
        if t.is_rectangular() {
            lemma_exclusion_keeps_width(t.records.deep_view(), col as int, exclude@, t.header@.len() as int);
        }
    }
    Ok(o)
}

/// The table with only the first record of each key, and every record
/// without a key.
pub fn dedup_rows(t: &Table) -> (r: Result<Table, FilterError>)
    ensures
        match column_of(t.header.deep_view(), key_column_name()) {
            Some(c) => r matches Ok(o) && o.header.deep_view() == t.header.deep_view()
                && o.records.deep_view() == kept_by_dedup(t.records.deep_view(), c)
                && (t.is_rectangular() ==> o.is_rectangular()),
            None => is_missing_key_column(r),
        },
{
    let col = resolve_column(&t.header, key_column())?;
    let records = dedup_records(&t.records, col);
    let o = Table { header: copy_record(&t.header), records };
    proof {
        if t.is_rectangular() {
            lemma_dedup_keeps_width(t.records.deep_view(), col as int, t.header@.len() as int);
        }
    }
    Ok(o)
}

/// The keys of the records in CSV `data`. The header is read and its key
/// column found before any record is read.
pub fn read_emails_to_set(data: &[u8]) -> (r: Result<KeySet, FilterError>)
    ensures
        match csv_header_of(data@) {
            None => r matches Err(e) && e is Parse,
            Some(h) => match column_of(h, key_column_name()) {
                None => is_missing_key_column(r),
                Some(c) => match csv_rows_of(data@) {
                    None => r matches Err(e) && e is Parse,
                    Some(rows) => r matches Ok(s) && s.wf() && s@ == keys_of(rows.drop_first(), c),
                },
            },
        },
{
    let header = parse_header(data)?;
    resolve_column(&header, key_column())?;
    let t = parse_table(data)?;
    proof {
        lemma_rows_split(&t);
    }
    key_set_of_table(&t)
}

/// CSV `data` without the records whose key is in `emails_to_remove`, as
/// CSV bytes, with the number of records kept. The header is read and its
/// key column found before any record is read.
pub fn clean_file_by_emails(emails_to_remove: &KeySet, data: &[u8]) -> (r: Result<
    (Vec<u8>, usize),
    FilterError,
>)
    ensures
        match csv_header_of(data@) {
            None => r matches Err(e) && e is Parse,
            Some(h) => match column_of(h, key_column_name()) {
                None => is_missing_key_column(r),
                Some(c) => match csv_rows_of(data@) {
                    None => r matches Err(e) && e is Parse,
                    Some(rows) => {
                        let kept = kept_by_exclusion(rows.drop_first(), c, emails_to_remove@);
                        r matches Ok((b, n)) && b@ == csv_text_of(seq![rows[0]] + kept) && n
                            == kept.len()
                    },
                },
            },
        },
{
    let header = parse_header(data)?;
    resolve_column(&header, key_column())?;
    let t = parse_table(data)?;
    proof {
        lemma_rows_split(&t);
    }
    let o = exclude_rows(&t, emails_to_remove)?;
    proof {
        lemma_rows_split(&o);
    }
    let bytes = render_table(&o)?;
    Ok((bytes, o.records.len()))
}

/// CSV `data` with only the first record of each key, and every record
/// without a key, as CSV bytes, with the number of records kept. The header
/// is read and its key column found before any record is read.
pub fn remove_duplicates_in_file(data: &[u8]) -> (r: Result<(Vec<u8>, usize), FilterError>)
    ensures
        match csv_header_of(data@) {
            None => r matches Err(e) && e is Parse,
            Some(h) => match column_of(h, key_column_name()) {
                None => is_missing_key_column(r),
                Some(c) => match csv_rows_of(data@) {
                    None => r matches Err(e) && e is Parse,
                    Some(rows) => {
                        let kept = kept_by_dedup(rows.drop_first(), c);
                        r matches Ok((b, n)) && b@ == csv_text_of(seq![rows[0]] + kept) && n
                            == kept.len()
                    },
                },
            },
        },
{
    let header = parse_header(data)?;
    resolve_column(&header, key_column())?;
    let t = parse_table(data)?;
    proof {
        lemma_rows_split(&t);
    }
    let o = dedup_rows(&t)?;
    proof {
        lemma_rows_split(&o);
    }
    let bytes = render_table(&o)?;
    Ok((bytes, o.records.len()))
}

proof fn lemma_rows_split(t: &Table)
    ensures
        t.rows()[0] == t.header.deep_view(),
        t.rows().drop_first() == t.records.deep_view(),
{
    assert(t.rows().drop_first() =~= t.records.deep_view());
}

} // verus!
