//! The replay trace: a CSV text whose header names the columns
//! `t, omega1, omega2, omega3, q0, q1, q2, q3` and whose every further row holds
//! eight numeric fields in that order.
use crate::numeral::{is_float_literal, is_numeric_field};
use vstd::prelude::*;

verus! {

/// Number of columns of a trace row.
pub const COLUMN_COUNT: usize = 8;

/// The header row, column by column.
pub open spec fn column_names() -> Seq<Seq<char>> {
    seq!["t"@, "omega1"@, "omega2"@, "omega3"@, "q0"@, "q1"@, "q2"@, "q3"@]
}

/// A data row: exactly eight fields, each a floating-point literal.
pub open spec fn row_ok(r: Seq<Seq<char>>) -> bool {
    r.len() == COLUMN_COUNT && forall|c: int| 0 <= c < r.len() ==> is_float_literal(#[trigger] r[c])
}

/// Every data row before record `k` is well formed (record 0 is the header).
pub open spec fn rows_ok_before(records: Seq<Seq<Seq<char>>>, k: int) -> bool {
    forall|i: int| 1 <= i < k ==> row_ok(#[trigger] records[i])
}

/// The records form a trace: the expected header, then well-formed rows.
pub open spec fn is_valid_trace(records: Seq<Seq<Seq<char>>>) -> bool {
    records.len() > 0 && records[0] == column_names() && rows_ok_before(records, records.len() as int)
}

/// Why a trace was refused.
#[derive(Debug, Clone, Copy, PartialEq, Eq, Structural)]
pub enum TraceError {
    /// The CSV reader reported an error (the text is not UTF-8).
    Unreadable,
    /// The text holds no record at all.
    MissingHeader,
    /// The first record is not the expected header.
    BadHeader,
    /// Data row `row` (counted from 0 after the header) has `found` fields.
    FieldCount { row: usize, found: usize },
    /// Field `column` of data row `row` is not a number.
    NotNumeric { row: usize, column: usize },
}

/// What validating `records` gives: the rows after the header when all is
/// well, else the error of the first offence, in reading order.
pub open spec fn validation_result(records: Seq<Seq<Seq<char>>>, r: Result<Trace, TraceError>) -> bool {
    match r {
        Ok(t) => is_valid_trace(records) && t@ == records.skip(1),
        Err(TraceError::Unreadable) => false,
        Err(TraceError::MissingHeader) => records.len() == 0,
        Err(TraceError::BadHeader) => records.len() > 0 && records[0] != column_names(),
        Err(TraceError::FieldCount { row, found }) => {
            &&& records.len() > 0 && records[0] == column_names()
            &&& row + 1 < records.len()
            &&& rows_ok_before(records, row + 1)
            &&& records[row + 1].len() == found
            &&& found != COLUMN_COUNT
        },
        Err(TraceError::NotNumeric { row, column }) => {
            &&& records.len() > 0 && records[0] == column_names()
            &&& row + 1 < records.len()
            &&& rows_ok_before(records, row + 1)
            &&& records[row + 1].len() == COLUMN_COUNT
            &&& column < COLUMN_COUNT
            &&& forall|c: int| 0 <= c < column ==> is_float_literal(#[trigger] records[row + 1][c])
            &&& !is_float_literal(records[row + 1][column as int])
        },
    }
}

/// A loaded trace: rows of eight numeric fields, in the order they were read.
pub struct Trace {
    rows: Vec<Vec<String>>,
}

impl View for Trace {
    type V = Seq<Seq<Seq<char>>>;

    closed spec fn view(&self) -> Seq<Seq<Seq<char>>> {
        self.rows.deep_view()
    }
}

impl Trace {
    #[verifier::type_invariant]
    closed spec fn rows_well_formed(&self) -> bool {
        forall|i: int| 0 <= i < self@.len() ==> row_ok(#[trigger] self@[i])
    }

    /// Number of samples.
    pub fn len(&self) -> (n: usize)
        ensures
            n == self@.len(),
    {
        self.rows.len()
    }

    /// Field `column` of row `row`, a floating-point literal.
    pub fn field(&self, row: usize, column: usize) -> (f: &str)
        requires
            row < self@.len(),
            column < COLUMN_COUNT,
        ensures
            f@ == self@[row as int][column as int],
            is_float_literal(f@),
    {
        proof {
            use_type_invariant(self);
            assert(self.rows@[row as int].deep_view() == self@[row as int]);
        }
        self.rows[row][column].as_str()
    }
}

fn column_name(i: usize) -> (s: &'static str)
    requires
        i < COLUMN_COUNT,
    ensures
        s@ == column_names()[i as int],
{
    match i {
        0 => "t",
        1 => "omega1",
        2 => "omega2",
        3 => "omega3",
        4 => "q0",
        5 => "q1",
        6 => "q2",
        _ => "q3",
    }
}

fn same_text(a: &str, b: &str) -> (r: bool)
    ensures
        r == (a@ == b@),
{
    let n = a.unicode_len();
    if b.unicode_len() != n {
        return false;
    }
    let mut i: usize = 0;
    while i < n
        invariant
            n == a@.len(),
            n == b@.len(),
            i <= n,
            forall|j: int| 0 <= j < i ==> #[trigger] a@[j] == b@[j],
        decreases n - i,
    {
        if a.get_char(i) != b.get_char(i) {
            return false;
        }
        i += 1;
    }
    assert(a@ =~= b@);
    true
}

fn is_header(r: &Vec<String>) -> (b: bool)
    ensures
        b == (r.deep_view() == column_names()),
{
    if r.len() != COLUMN_COUNT {
        return false;
    }
    let mut c: usize = 0;
    while c < COLUMN_COUNT
        invariant
            r@.len() == COLUMN_COUNT,
            c <= COLUMN_COUNT,
            forall|j: int| 0 <= j < c ==> #[trigger] r.deep_view()[j] == column_names()[j],
        decreases COLUMN_COUNT - c,
    {
        if !same_text(r[c].as_str(), column_name(c)) {
            return false;
        }
        c += 1;
    }
    assert(r.deep_view() =~= column_names());
    true
}

/// Checks split records against the trace format. The first record must be
/// the header; each further record becomes a row of the trace, in order.
pub fn validate_records(records: Vec<Vec<String>>) -> (r: Result<Trace, TraceError>)
    ensures
        validation_result(records.deep_view(), r),
        r is Ok <==> is_valid_trace(records.deep_view()),
{
    let ghost all = records.deep_view();
    let n = records.len();
    if n == 0 {
        return Err(TraceError::MissingHeader);
    }
    if !is_header(&records[0]) {
        return Err(TraceError::BadHeader);
    }
    let mut i: usize = 1;
    while i < n
        invariant
            n == all.len(),
            all == records.deep_view(),
            1 <= i <= n,
            all[0] == column_names(),
            rows_ok_before(all, i as int),
        decreases n - i,
    {
        let row = &records[i];
        assert(row.deep_view() == all[i as int]);
        let found = row.len();
        if found != COLUMN_COUNT {
            return Err(TraceError::FieldCount { row: i - 1, found });
        }
        let mut c: usize = 0;
        while c < COLUMN_COUNT
            invariant
                1 <= i < n,
                n == all.len(),
                all == records.deep_view(),
                all[0] == column_names(),
                rows_ok_before(all, i as int),
                row.deep_view() == all[i as int],
                row@.len() == COLUMN_COUNT,
                c <= COLUMN_COUNT,
                forall|j: int| 0 <= j < c ==> is_float_literal(#[trigger] all[i as int][j]),
            decreases COLUMN_COUNT - c,
        {
            assert(row@[c as int]@ == all[i as int][c as int]);
            if !is_numeric_field(row[c].as_str()) {
                assert(!row_ok(all[i as int]));
                return Err(TraceError::NotNumeric { row: i - 1, column: c });
            }
            c += 1;
        }
        i += 1;
    }
    let mut rows = records;
    rows.remove(0);
    assert(rows.deep_view() =~= all.skip(1));
    let t = Trace { rows };
    Ok(t)
}

/// The records that the csv crate's reader makes of `text`, read with no
/// header row and records of any length: `None` where it reports an error.
pub uninterp spec fn csv_records_of(text: Seq<u8>) -> Option<Seq<Seq<Seq<char>>>>;

#[verifier::external_type_specification]
#[verifier::external_body]
pub struct ExCsvError(csv::Error);

/// Relies on csv::ReaderBuilder (`has_headers(false)`, `flexible(true)`) and
/// `Reader::records`: splits `text` into records of text fields, or reports
/// an error (invalid UTF-8), by the bytes alone.
#[verifier::external_body]
fn read_records(text: &[u8]) -> (r: Result<Vec<Vec<String>>, csv::Error>)
    ensures
        match r {
            Ok(records) => csv_records_of(text@) == Some(records.deep_view()),
            Err(_) => csv_records_of(text@) is None,
        },
{
    let mut reader = csv::ReaderBuilder::new().has_headers(false).flexible(true).from_reader(text);
    reader.records().map(|rec| rec.map(|r| r.iter().map(String::from).collect())).collect()
}

/// Loads a trace from the bytes of a CSV text: `Unreadable` where the CSV
/// reader fails, else what `validate_records` makes of its records.
pub fn load_trace(text: &[u8]) -> (r: Result<Trace, TraceError>)
    ensures
        match csv_records_of(text@) {
            None => r matches Err(TraceError::Unreadable),
            Some(records) => validation_result(records, r),
        },
{
    match read_records(text) {
        Ok(records) => validate_records(records),
        Err(_) => Err(TraceError::Unreadable),
    }
}

} // verus!
