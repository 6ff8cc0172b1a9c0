//! Tables of CSV text: reading, writing, and finding a column by name.
//!
use crate::error::FilterError;
use vstd::prelude::*;

verus! {

/// The rows, header first, that the csv crate reads from some bytes,
/// or `None` when it rejects them.
pub uninterp spec fn csv_rows_of(data: Seq<u8>) -> Option<Seq<Seq<Seq<char>>>>;

/// The header row that the csv crate reads from some bytes, or `None` when
/// it rejects the bytes before the header ends.
pub uninterp spec fn csv_header_of(data: Seq<u8>) -> Option<Seq<Seq<char>>>;

/// The bytes that the csv crate writes for some rows.
pub uninterp spec fn csv_text_of(rows: Seq<Seq<Seq<char>>>) -> Seq<u8>;

/// A CSV table: the header row and the records that follow it.
#[derive(Debug)]
pub struct Table {
    pub header: Vec<String>,
    pub records: Vec<Vec<String>>,
}

/// Every row of `rows` has `width` fields.
pub open spec fn rows_of_width(rows: Seq<Seq<Seq<char>>>, width: int) -> bool {
    forall|i: int| 0 <= i < rows.len() ==> #[trigger] rows[i].len() == width
}

impl Table {
    /// Every record has as many fields as the header.
    pub open spec fn is_rectangular(&self) -> bool {
        rows_of_width(self.records.deep_view(), self.header@.len() as int)
    }

    /// All rows of the table, header first.
    pub open spec fn rows(&self) -> Seq<Seq<Seq<char>>> {
        seq![self.header.deep_view()] + self.records.deep_view()
    }
}

/// Relies on `csv::Reader::headers` over a byte slice, whose outcome depends
/// on the bytes alone.
#[verifier::external_body]
fn read_csv_header(data: &[u8]) -> (r: Result<Vec<String>, String>)
    ensures
        r is Ok <==> csv_header_of(data@) is Some,
        r matches Ok(h) ==> csv_header_of(data@) == Some(h.deep_view()),
{
    let mut rdr = csv::Reader::from_reader(data);
    let header = rdr.headers().map_err(|e| e.to_string())?;
    Ok(header.iter().map(String::from).collect())
}

/// Relies on `csv::Reader` over a byte slice: its `headers` and then its
/// `records`, whose outcome depends on the bytes alone. The reader is not
/// flexible, so it refuses a record whose field count differs from the
/// header's.
#[verifier::external_body]
fn read_csv(data: &[u8]) -> (r: Result<Table, String>)
    ensures
        r is Ok <==> csv_rows_of(data@) is Some,
        r matches Ok(t) ==> csv_rows_of(data@) == Some(t.rows()),
        r matches Ok(t) ==> csv_header_of(data@) == Some(t.header.deep_view()),
        r matches Ok(t) ==> t.is_rectangular(),
{
    let mut rdr = csv::Reader::from_reader(data);
    let header = rdr.headers().map_err(|e| e.to_string())?.iter().map(String::from).collect();
    let mut records: Vec<Vec<String>> = Vec::new();
    for rec in rdr.records() {
        records.push(rec.map_err(|e| e.to_string())?.iter().map(String::from).collect());
    }
    Ok(Table { header, records })
}

/// Relies on `csv::Writer` over a `Vec<u8>`: `write_record` for the header
/// and for each record, then `into_inner`. Writing into a `Vec` cannot fail;
/// the writer is not flexible and fails only on a record whose field count
/// differs from the first row's.
#[verifier::external_body]
fn write_csv(t: &Table) -> (r: Result<Vec<u8>, String>)
    ensures
        r matches Ok(b) ==> b@ == csv_text_of(t.rows()),
        t.is_rectangular() ==> r is Ok,
{
    let mut w = csv::Writer::from_writer(Vec::new());
    w.write_record(&t.header).map_err(|e| e.to_string())?;
    for row in t.records.iter() {
        w.write_record(row).map_err(|e| e.to_string())?;
    }
    w.into_inner().map_err(|e| e.to_string())
}

/// Reads the header row from CSV bytes, without reading the records.
pub fn parse_header(data: &[u8]) -> (r: Result<Vec<String>, FilterError>)
    ensures
        r is Ok <==> csv_header_of(data@) is Some,
        r matches Ok(h) ==> csv_header_of(data@) == Some(h.deep_view()),
        r matches Err(e) ==> e is Parse,
{
    match read_csv_header(data) {
        Ok(h) => Ok(h),
        Err(message) => Err(FilterError::Parse { message }),
    }
}

/// Reads a table from CSV bytes.
pub fn parse_table(data: &[u8]) -> (r: Result<Table, FilterError>)
    ensures
        r is Ok <==> csv_rows_of(data@) is Some,
        r matches Ok(t) ==> csv_rows_of(data@) == Some(t.rows()),
        r matches Ok(t) ==> csv_header_of(data@) == Some(t.header.deep_view()),
        r matches Ok(t) ==> t.is_rectangular(),
        r matches Err(e) ==> e is Parse,
{
    match read_csv(data) {
        Ok(t) => Ok(t),
        Err(message) => Err(FilterError::Parse { message }),
    }
}

/// Writes a table as CSV bytes; this succeeds when every record has as many
/// fields as the header.
pub fn render_table(t: &Table) -> (r: Result<Vec<u8>, FilterError>)
    ensures
        r matches Ok(b) ==> b@ == csv_text_of(t.rows()),
        t.is_rectangular() ==> r is Ok,
        r matches Err(e) ==> e is Write,
{
    match write_csv(t) {
        Ok(b) => Ok(b),
        Err(message) => Err(FilterError::Write { message }),
    }
}

/// `i` is the first position of `name` in `header`.
pub open spec fn is_first_column(header: Seq<Seq<char>>, name: Seq<char>, i: int) -> bool {
    0 <= i < header.len() && header[i] == name && forall|j: int| 0 <= j < i ==> header[j] != name
}

/// The first position of `name` in `header`, if any.
pub open spec fn column_of(header: Seq<Seq<char>>, name: Seq<char>) -> Option<int> {
    if exists|i: int| is_first_column(header, name, i) {
        Some(choose|i: int| is_first_column(header, name, i))
    } else {
        None
    }
}

/// Finds the first header entry equal to `name`, matching case exactly.
pub fn resolve_column(header: &Vec<String>, name: &str) -> (r: Result<usize, FilterError>)
    ensures
        r matches Ok(i) ==> column_of(header.deep_view(), name@) == Some(i as int),
        r is Err <==> column_of(header.deep_view(), name@) is None,
        r matches Err(e) ==> e matches FilterError::ColumnNotFound { column } && column@ == name@,
{
    let ghost h = header.deep_view();
    let wanted: String = name.to_owned();
    let mut i: usize = 0;
    while i < header.len()
        invariant
            i <= header@.len(),
            h == header.deep_view(),
            wanted@ == name@,
            forall|j: int| 0 <= j < i ==> h[j] != name@,
        decreases header@.len() - i,
    {
        if header[i] == wanted {
            assert(is_first_column(h, name@, i as int));
            proof {
                lemma_first_column_unique(h, name@, i as int);
            }
            return Ok(i);
        }
        i = i + 1;
    }
    assert(!exists|k: int| is_first_column(h, name@, k));
    Err(FilterError::ColumnNotFound { column: wanted })
}

proof fn lemma_first_column_unique(h: Seq<Seq<char>>, name: Seq<char>, i: int)
    requires
        is_first_column(h, name, i),
    ensures
        column_of(h, name) == Some(i),
{
    let k = choose|k: int| is_first_column(h, name, k);
    assert(is_first_column(h, name, k));
    if k < i {
        assert(h[k] != name);
    }
    if i < k {
        assert(h[i] != name);
    }
}

} // verus!
