//! Dispatching a computed result: which encoder a destination locator
//! selects, and how many rows an interactive view shows.

use vstd::prelude::*;

use crate::utils::spec_file_type;
use crate::utils::file_type;
use crate::utils::DfKitError;
use crate::utils::FileFormat;

verus! {

/// The format a result is written in: the destination locator's own format.
///
/// An Avro destination is always refused with the same `UnsupportedWrite`
/// error, whatever command produced the result — write support for that
/// format is permanently unimplemented — and a destination without a
/// recognized extension is refused with its classification error.
pub fn write_format(out_path: &str) -> (r: Result<FileFormat, DfKitError>)
    ensures
        match spec_file_type(out_path@) {
            Ok(FileFormat::Avro) => r matches Err(DfKitError::UnsupportedWrite),
            Ok(f) => (r matches Ok(g) && g == f),
            Err(e) => (r matches Err(DfKitError::FileParse(e2)) && e2 == e),
        },
{
    match file_type(out_path) {
        Ok(FileFormat::Avro) => Err(DfKitError::UnsupportedWrite),
        Ok(f) => Ok(f),
        Err(e) => Err(DfKitError::FileParse(e)),
    }
}

/// The row count an interactive view shows: a missing limit shows 10 rows,
/// an explicit limit of zero shows the whole table, and any other limit
/// shows that many rows.
pub fn effective_view_limit(limit: Option<usize>) -> (r: Option<usize>)
    ensures
        r == match limit {
            None => Some(10usize),
            Some(n) => if n == 0 {
                None::<usize>
            } else {
                Some(n)
            },
        },
{
    match limit {
        None => Some(10),
        Some(n) => if n == 0 {
            None
        } else {
            Some(n)
        },
    }
}

} // verus!
