use email_dedup::error::FilterError;
use email_dedup::filter::{build_key_set, dedup_records, exclude_records, extract_key};
use email_dedup::key::normalize;
use email_dedup::key_set::KeySet;
use email_dedup::run::{
    clean_file_by_emails, dedup_rows, exclude_rows, key_column, key_set_of_table,
    read_emails_to_set, remove_duplicates_in_file,
};
use email_dedup::table::{parse_table, render_table, resolve_column, Table};

fn strings(fields: &[&str]) -> Vec<String> {
    fields.iter().map(|f| f.to_string()).collect()
}

fn key_set(keys: &[&str]) -> KeySet {
    let mut s = KeySet::new();
    for k in keys {
        s.insert(k.to_string());
    }
    s
}

fn missing_column() -> FilterError {
    FilterError::ColumnNotFound { column: "email".to_string() }
}

#[test]
fn normalize_trims_and_lowercases() {
    assert_eq!(normalize(" A@B.com "), Some("a@b.com".to_string()));
    assert_eq!(normalize("ABC"), Some("abc".to_string()));
    assert_eq!(normalize("\t x@y.com\n"), Some("x@y.com".to_string()));
}

#[test]
fn normalize_keeps_inner_whitespace() {
    assert_eq!(normalize("  A b@C.com "), Some("a b@c.com".to_string()));
}

#[test]
fn normalize_blank_is_no_key() {
    assert_eq!(normalize(""), None);
    assert_eq!(normalize("   "), None);
    assert_eq!(normalize(" \t\u{a0}\u{3000} "), None);
}

#[test]
fn keys_compare_case_insensitively() {
    assert_eq!(normalize("A@B.com"), normalize("a@b.com"));
    assert_eq!(normalize(" a@b.com "), normalize("a@b.com"));
    assert_ne!(normalize("a@b.com"), normalize("a@c.com"));
}

#[test]
fn extract_key_out_of_range_is_no_key() {
    let rec = strings(&["Al"]);
    assert_eq!(extract_key(&rec, 1), None);
    assert_eq!(extract_key(&rec, 0), Some("al".to_string()));
}

#[test]
fn resolve_column_finds_first_exact_match() {
    let header = strings(&["name", "email", "email"]);
    assert_eq!(resolve_column(&header, "email"), Ok(1));
    assert_eq!(resolve_column(&header, "name"), Ok(0));
}

#[test]
fn resolve_column_is_case_sensitive() {
    let header = strings(&["Email", "name"]);
    assert_eq!(resolve_column(&header, "email"), Err(missing_column()));
    assert_eq!(resolve_column(&Vec::new(), "email"), Err(missing_column()));
}

#[test]
fn key_set_insert_reports_new_keys() {
    let mut s = KeySet::new();
    assert_eq!(s.len(), 0);
    assert!(s.insert("a@b.com".to_string()));
    assert!(!s.insert("a@b.com".to_string()));
    assert!(s.insert("c@d.com".to_string()));
    assert_eq!(s.len(), 2);
    assert!(s.contains(&"a@b.com".to_string()));
    assert!(!s.contains(&"x@y.com".to_string()));
}

#[test]
fn build_key_set_collapses_duplicates_and_skips_blanks() {
    let records = vec![
        strings(&["A@B.com", "Al"]),
        strings(&[" a@b.com", "Ann"]),
        strings(&["  ", "Bo"]),
        strings(&["c@d.com", "Cy"]),
    ];
    let s = build_key_set(&records, 0);
    assert_eq!(s.len(), 2);
    assert!(s.contains(&"a@b.com".to_string()));
    assert!(s.contains(&"c@d.com".to_string()));
}

#[test]
fn exclusion_scenario() {
    let sent = read_emails_to_set(b"email\nx@y.com\n").unwrap();
    let (bytes, kept) =
        clean_file_by_emails(&sent, b"email,name\nx@y.com,Al\nz@w.com,Bo\n").unwrap();
    assert_eq!(String::from_utf8(bytes).unwrap(), "email,name\nz@w.com,Bo\n");
    assert_eq!(kept, 1);
}

#[test]
fn exclusion_ignores_case_and_padding() {
    let sent = read_emails_to_set(b"name,email\nX, X@Y.COM \n").unwrap();
    let (bytes, kept) =
        clean_file_by_emails(&sent, b"email,name\nx@y.com,Al\n,Bo\n  ,Cy\nq@r.com,Di\n").unwrap();
    assert_eq!(String::from_utf8(bytes).unwrap(), "email,name\n,Bo\n  ,Cy\nq@r.com,Di\n");
    assert_eq!(kept, 3);
}

#[test]
fn exclusion_rerun_drops_nothing() {
    let sent = read_emails_to_set(b"email\nx@y.com\n").unwrap();
    let (once, n1) =
        clean_file_by_emails(&sent, b"email,name\nx@y.com,Al\nz@w.com,Bo\nX@y.com,Cy\n").unwrap();
    let (twice, n2) = clean_file_by_emails(&sent, &once).unwrap();
    assert_eq!(once, twice);
    assert_eq!(n1, n2);
    assert_eq!(n1, 1);
}

#[test]
fn exclusion_keeps_fields_verbatim() {
    let sent = key_set(&[]);
    let data = b"email,note\n\"A@B.com\",\"x, y\"\n";
    let (bytes, kept) = clean_file_by_emails(&sent, data).unwrap();
    assert_eq!(String::from_utf8(bytes).unwrap(), "email,note\nA@B.com,\"x, y\"\n");
    assert_eq!(kept, 1);
}

#[test]
fn dedup_scenario() {
    let (bytes, kept) =
        remove_duplicates_in_file(b"email,name\na@b.com,Al\nA@B.COM,Ann\nc@d.com,Cy\n").unwrap();
    assert_eq!(String::from_utf8(bytes).unwrap(), "email,name\na@b.com,Al\nc@d.com,Cy\n");
    assert_eq!(kept, 2);
}

#[test]
fn dedup_keeps_empty_keys() {
    let (bytes, kept) = remove_duplicates_in_file(b"email,name\n,Al\n,Ann\nx@y.com,Bo\n").unwrap();
    assert_eq!(String::from_utf8(bytes).unwrap(), "email,name\n,Al\n,Ann\nx@y.com,Bo\n");
    assert_eq!(kept, 3);
}

#[test]
fn dedup_rerun_drops_nothing() {
    let (once, n1) =
        remove_duplicates_in_file(b"email,name\na@b.com,Al\n a@b.com ,Ann\n,Bo\n,Bo\nc@d.com,Cy\n")
            .unwrap();
    assert_eq!(n1, 4);
    let (twice, n2) = remove_duplicates_in_file(&once).unwrap();
    assert_eq!(once, twice);
    assert_eq!(n2, 4);
}

#[test]
fn dedup_keeps_first_occurrence() {
    let records = vec![
        strings(&["Bo", "b@x.com"]),
        strings(&["Al", "a@x.com"]),
        strings(&["Bob", "B@X.COM"]),
        strings(&["Ann", "a@x.com"]),
    ];
    let out = dedup_records(&records, 1);
    assert_eq!(out, vec![strings(&["Bo", "b@x.com"]), strings(&["Al", "a@x.com"])]);
}

#[test]
fn exclude_records_keeps_order() {
    let records = vec![
        strings(&["c@d.com"]),
        strings(&["A@B.com"]),
        strings(&[""]),
        strings(&["e@f.com"]),
    ];
    let out = exclude_records(&records, 0, &key_set(&["a@b.com", "e@f.com"]));
    assert_eq!(out, vec![strings(&["c@d.com"]), strings(&[""])]);
}

#[test]
fn missing_column_is_reported() {
    let data = b"name,mail\nAl,a@b.com\n";
    assert_eq!(read_emails_to_set(data).unwrap_err(), missing_column());
    assert_eq!(clean_file_by_emails(&KeySet::new(), data).unwrap_err(), missing_column());
    assert_eq!(remove_duplicates_in_file(data).unwrap_err(), missing_column());
}

#[test]
fn empty_input_has_no_key_column() {
    assert_eq!(remove_duplicates_in_file(b"").unwrap_err(), missing_column());
}

#[test]
fn malformed_csv_is_a_parse_error() {
    let err = remove_duplicates_in_file(b"email,name\na@b.com\n").unwrap_err();
    assert!(matches!(err, FilterError::Parse { .. }));
    let err = read_emails_to_set(b"email,name\na@b.com,Al,extra\n").unwrap_err();
    assert!(matches!(err, FilterError::Parse { .. }));
}

#[test]
fn parse_and_render_table() {
    let t = parse_table(b"email,name\na@b.com,\"Al, Jr\"\n").unwrap();
    assert_eq!(t.header, strings(&["email", "name"]));
    assert_eq!(t.records, vec![strings(&["a@b.com", "Al, Jr"])]);
    let bytes = render_table(&t).unwrap();
    assert_eq!(String::from_utf8(bytes).unwrap(), "email,name\na@b.com,\"Al, Jr\"\n");
}

#[test]
fn table_level_filters() {
    let t = Table {
        header: strings(&["name", "email"]),
        records: vec![
            strings(&["Al", "a@b.com"]),
            strings(&["Ann", "A@b.com"]),
            strings(&["Bo", "b@c.com"]),
        ],
    };
    let d = dedup_rows(&t).unwrap();
    assert_eq!(d.header, t.header);
    assert_eq!(d.records, vec![strings(&["Al", "a@b.com"]), strings(&["Bo", "b@c.com"])]);
    let keys = key_set_of_table(&t).unwrap();
    assert_eq!(keys.len(), 2);
    let e = exclude_rows(&t, &key_set(&["b@c.com"])).unwrap();
    assert_eq!(e.records, vec![strings(&["Al", "a@b.com"]), strings(&["Ann", "A@b.com"])]);
    let no_key = Table { header: strings(&["name"]), records: Vec::new() };
    assert_eq!(dedup_rows(&no_key).unwrap_err(), missing_column());
}

#[test]
fn key_column_is_email() {
    assert_eq!(key_column(), "email");
}

#[test]
fn describe_gives_the_detail() {
    assert_eq!(missing_column().describe(), "email");
    let e = FilterError::Write { message: "disk".to_string() };
    assert_eq!(e.describe(), "disk");
}

#[test]
fn missing_column_comes_before_record_errors() {
    let data = b"name,mail\nAl,a@b.com\nBo\n";
    assert_eq!(remove_duplicates_in_file(data).unwrap_err(), missing_column());
    assert_eq!(clean_file_by_emails(&KeySet::new(), data).unwrap_err(), missing_column());
    assert_eq!(read_emails_to_set(data).unwrap_err(), missing_column());
}

#[test]
fn exclusion_keeps_inner_spaces_distinct() {
    let sent = key_set(&["ab@c.com"]);
    let (bytes, kept) = clean_file_by_emails(&sent, b"email\na b@c.com\n  AB@C.COM\n").unwrap();
    assert_eq!(String::from_utf8(bytes).unwrap(), "email\na b@c.com\n");
    assert_eq!(kept, 1);
}

#[test]
fn exclusion_matches_case_and_padding_variants() {
    let sent = key_set(&["a@b.com"]);
    let data = b"email,name\nA@B.com,X\n a@b.com ,Y\nb@c.com,Z\n";
    let (bytes, kept) = clean_file_by_emails(&sent, data).unwrap();
    assert_eq!(String::from_utf8(bytes).unwrap(), "email,name\nb@c.com,Z\n");
    assert_eq!(kept, 1);
}

#[test]
fn exclusion_with_empty_set_keeps_everything() {
    let data = b"email,name\na@b.com,Al\nA@B.com,Ann\n,Bo\n";
    let (bytes, kept) = clean_file_by_emails(&KeySet::new(), data).unwrap();
    assert_eq!(bytes, data.to_vec());
    assert_eq!(kept, 3);
}

#[test]
fn larger_exclusion_set_keeps_less() {
    let data = b"email\na@b.com\nc@d.com\ne@f.com\n";
    let (small, n1) = clean_file_by_emails(&key_set(&["a@b.com"]), data).unwrap();
    let (large, n2) = clean_file_by_emails(&key_set(&["a@b.com", "e@f.com"]), data).unwrap();
    assert_eq!(String::from_utf8(small).unwrap(), "email\nc@d.com\ne@f.com\n");
    assert_eq!(String::from_utf8(large).unwrap(), "email\nc@d.com\n");
    assert_eq!((n1, n2), (2, 1));
}

#[test]
fn excluding_a_file_by_its_own_keys_keeps_keyless_rows() {
    let data = b"email,name\na@b.com,Al\n,Bo\nc@d.com,Cy\n  ,Di\n";
    let own = read_emails_to_set(data).unwrap();
    let (bytes, kept) = clean_file_by_emails(&own, data).unwrap();
    assert_eq!(String::from_utf8(bytes).unwrap(), "email,name\n,Bo\n  ,Di\n");
    assert_eq!(kept, 2);
}

#[test]
fn dedup_keeps_first_record_verbatim() {
    let (bytes, kept) = remove_duplicates_in_file(b"email\n a@b.com \nA@B.com\nb@c.com\n").unwrap();
    assert_eq!(String::from_utf8(bytes).unwrap(), "email\n a@b.com \nb@c.com\n");
    assert_eq!(kept, 2);
}

#[test]
fn dedup_count_is_keyless_plus_distinct_keys() {
    let data = b"email\na@b.com\n\nA@B.com\nc@d.com\n\" \"\n";
    let (_, kept) = remove_duplicates_in_file(data).unwrap();
    assert_eq!(kept, 3);
}

#[test]
fn render_refuses_ragged_tables() {
    let t = Table { header: strings(&["email", "name"]), records: vec![strings(&["a@b.com"])] };
    assert!(matches!(render_table(&t), Err(FilterError::Write { .. })));
}

#[test]
fn parse_header_reads_only_the_header() {
    let h = email_dedup::table::parse_header(b"email,name\nbroken\n").unwrap();
    assert_eq!(h, strings(&["email", "name"]));
}
