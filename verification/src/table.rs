//! Loading a grid from a semicolon-delimited, header-less table.
//!
//! The table is split into records and fields here. Reading a number out of
//! a field is floating-point work and is left to the caller, who hands back
//! each field's bit pattern, or nothing where the field holds no number;
//! [`fill_missing`] then applies the fallback: a field that could not be
//! read counts as zero. The fallback loses data without an error, so its use
//! is reported beside the grid.

use vstd::prelude::*;
use crate::error::AnalysisError;
use crate::sample::ZERO;

verus! {

/// The records of a semicolon-delimited table without a header row, each a
/// sequence of fields, as the csv crate's reader yields them; `None` where
/// the reader reports an error.
pub uninterp spec fn records_of(text: Seq<u8>) -> Option<Seq<Seq<Seq<char>>>>;

#[verifier::external_type_specification]
#[verifier::external_body]
pub struct ExCsvError(csv::Error);

/// The fields of a table as character sequences.
pub open spec fn fields_of(rows: Seq<Vec<String>>) -> Seq<Seq<Seq<char>>> {
    Seq::new(rows.len(), |r: int| Seq::new(rows[r]@.len(), |c: int| rows[r]@[c]@))
}

/// Every record has as many fields as the first one.
pub open spec fn even(rows: Seq<Seq<Seq<char>>>) -> bool {
    forall|r: int| 0 <= r < rows.len() ==> (#[trigger] rows[r]).len() == rows[0].len()
}

/// `csv::ReaderBuilder` with delimiter `;` and no header row, built over
/// the bytes with `from_reader`, and `Reader::records` read to the end or to
/// the first error. The contract names the records that come out and claims
/// one thing of them: the reader is not flexible, so it reports an error
/// rather than yield a record whose field count differs from the first
/// record's.
#[verifier::external_body]
fn read_records(text: &Vec<u8>) -> (result: Result<Vec<Vec<String>>, csv::Error>)
    ensures
        match result {
            Ok(rows) => records_of(text@) == Some(fields_of(rows@)) && even(fields_of(rows@)),
            Err(_) => records_of(text@) is None,
        },
{
    let mut reader = csv::ReaderBuilder::new().delimiter(b';').has_headers(false).from_reader(
        text.as_slice(),
    );
    reader.records().map(|r| r.map(|record| record.iter().map(|f| f.to_string()).collect())).collect()
}

/// `Display` of `csv::Error`, through `to_string`: the reader's own
/// description of what went wrong. Nothing is claimed of the text.
#[verifier::external_body]
fn describe(error: &csv::Error) -> (text: String) {
    error.to_string()
}

/// Splits a table into records and fields. Succeeds exactly when the reader
/// reports no error; a failure is a load error with the reader's message.
pub fn split_table(text: &Vec<u8>) -> (result: Result<Vec<Vec<String>>, AnalysisError>)
    ensures
        match result {
            Ok(rows) => records_of(text@) == Some(fields_of(rows@)) && even(fields_of(rows@)),
            Err(error) => records_of(text@) is None && error is Load,
        },
{
    match read_records(text) {
        Ok(rows) => Ok(rows),
        Err(error) => Err(AnalysisError::Load(describe(&error))),
    }
}

/// The sample a field stands for: its number, or zero where it holds none.
pub open spec fn filled(cell: Option<u32>) -> u32 {
    match cell {
        Some(bits) => bits,
        None => ZERO,
    }
}

/// A table of samples, and whether the fallback was used to make it.
pub struct Filled {
    /// One sample per field.
    pub rows: Vec<Vec<u32>>,
    /// Whether some field held no number and counts as zero.
    pub replaced: bool,
}

/// Replaces every unreadable field by zero, and says whether there was one.
pub fn fill_missing(parsed: &Vec<Vec<Option<u32>>>) -> (out: Filled)
    ensures
        out.rows@.len() == parsed@.len(),
        forall|r: int|
            0 <= r < parsed@.len() ==> (#[trigger] out.rows@[r])@.len() == parsed@[r]@.len(),
        forall|r: int, c: int|
            0 <= r < parsed@.len() && 0 <= c < parsed@[r]@.len() ==> out.rows@[r]@[c] == filled(
                #[trigger] parsed@[r]@[c],
            ),
        out.replaced <==> exists|r: int, c: int|
            0 <= r < parsed@.len() && 0 <= c < parsed@[r]@.len() && (
            #[trigger] parsed@[r]@[c]) is None,
{
    let mut rows: Vec<Vec<u32>> = Vec::new();
    let mut replaced: bool = false;
    let mut r: usize = 0;
    while r < parsed.len()
        invariant
            0 <= r <= parsed@.len(),
            rows@.len() == r,
            forall|i: int| 0 <= i < r ==> (#[trigger] rows@[i])@.len() == parsed@[i]@.len(),
            forall|i: int, j: int|
                0 <= i < r && 0 <= j < parsed@[i]@.len() ==> rows@[i]@[j] == filled(
                    #[trigger] parsed@[i]@[j],
                ),
            replaced <==> exists|i: int, j: int|
                0 <= i < r && 0 <= j < parsed@[i]@.len() && (#[trigger] parsed@[i]@[j]) is None,
        decreases parsed@.len() - r,
    {
        let source = &parsed[r];
        let mut row: Vec<u32> = Vec::new();
        let mut here: bool = false;
        let mut c: usize = 0;
        while c < source.len()
            invariant
                0 <= c <= source@.len(),
                row@.len() == c,
                forall|j: int| 0 <= j < c ==> row@[j] == filled(#[trigger] source@[j]),
                here <==> exists|j: int| 0 <= j < c && (#[trigger] source@[j]) is None,
            decreases source@.len() - c,
        {
            match source[c] {
                Some(bits) => row.push(bits),
                None => {
                    row.push(ZERO);
                    here = true;
                },
            }
            c += 1;
        }
        proof {
            let before = replaced;
            if here {
                let j = choose|j: int| 0 <= j < source@.len() && (#[trigger] source@[j]) is None;
                assert(parsed@[r as int]@[j] is None);
            }
            if before {
                let (i, j) = choose|i: int, j: int|
                    0 <= i < r && 0 <= j < parsed@[i]@.len() && (#[trigger] parsed@[i]@[j])
                        is None;
                assert(parsed@[i]@[j] is None);
            }
        }
        rows.push(row);
        replaced = replaced || here;
        r += 1;
    }
    Filled { rows, replaced }
}

} // verus!
