//! Reading and writing sales exports, through csv.

use vstd::prelude::*;
use crate::sale::record_views;
use crate::text::texts;

verus! {

/// What csv reads from a text with a header row, comma-separated and
/// double-quoted: the fields of each record, or `None` for a record it could
/// not read.
pub uninterp spec fn csv_records_of(text: Seq<char>) -> Seq<Option<Seq<Seq<char>>>>;

/// Relies on csv's `ReaderBuilder` (comma delimiter, double quote, header row)
/// and the iteration of its `StringRecord`s.
#[verifier::external_body]
pub(crate) fn read_records(text: &str) -> (r: Vec<Option<Vec<String>>>)
    ensures
        record_views(r@) == csv_records_of(text@),
{
    let mut rdr = csv::ReaderBuilder::new().delimiter(b',').quote(b'"').has_headers(true).from_reader(
        text.as_bytes(),
    );
    rdr.records().map(|rec| rec.ok().map(|r| r.iter().map(|f| f.to_string()).collect())).collect()
}

/// The text csv writes for one record (comma delimiter, quotes doubled),
/// line terminator included.
pub uninterp spec fn csv_line_of(fields: Seq<Seq<char>>) -> Seq<char>;

/// Relies on csv's `WriterBuilder` (comma delimiter, doubled quotes) writing
/// one record into memory.
#[verifier::external_body]
pub(crate) fn csv_line(fields: &Vec<String>) -> (r: String)
    ensures
        r@ == csv_line_of(texts(fields@)),
{
    let mut wr = csv::WriterBuilder::new().double_quote(true).delimiter(b',').from_writer(vec![]);
    match wr.write_record(fields) {
        Ok(()) => String::from_utf8(wr.into_inner().unwrap_or_default()).unwrap_or_default(),
        Err(_) => String::new(),
    }
}

/// The lines of a list of records.
pub open spec fn csv_lines(rows: Seq<Seq<Seq<char>>>, n: int) -> Seq<char>
    decreases n,
{
    if n <= 0 {
        Seq::empty()
    } else {
        csv_lines(rows, n - 1) + csv_line_of(rows[n - 1])
    }
}

/// A CSV text: the header's line, then each row's line.
pub fn csv_text(header: &Vec<String>, rows: &Vec<Vec<String>>) -> (r: String)
    ensures
        r@ == csv_line_of(texts(header@)) + csv_lines(rows@.map_values(|v: Vec<String>| texts(v@)), rows@.len() as int),
{
    let ghost rv = rows@.map_values(|v: Vec<String>| texts(v@));
    let mut s = csv_line(header);
    let ghost h = s@;
    let mut i: usize = 0;
    while i < rows.len()
        invariant
            i <= rows@.len(),
            rv == rows@.map_values(|v: Vec<String>| texts(v@)),
            s@ == h + csv_lines(rv, i as int),
        decreases rows@.len() - i,
    {
        let line = csv_line(&rows[i]);
        assert(rv[i as int] == texts(rows@[i as int]@));
        s.append(line.as_str());
        proof {
            assert(s@ =~= h + csv_lines(rv, i + 1));
        }
        i = i + 1;
    }
    s
}

} // verus!
