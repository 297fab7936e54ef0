//! Planning how a locator is exposed to the query engine as a table.
//!
//! Registration first classifies the storage kind, then the format: a local
//! path is read in place, an HTTP(S) URL is downloaded into a temporary file
//! first, and an `s3://` locator has its bucket's object store registered
//! with the session. The plan computed here carries every decision; the
//! unverified shell only executes it.

use vstd::prelude::*;
use vstd::string::*;

use crate::text::dec_digits;
use crate::text::push_decimal;
use crate::utils::spec_file_type;
use crate::utils::spec_storage_type;
use crate::utils::file_type;
use crate::utils::storage_type;
use crate::utils::DfKitError;
use crate::utils::FileFormat;
use crate::utils::FileParseError;
use crate::utils::StorageType;

verus! {

/// The host component of `s` as the `url` crate parses it: `None` when `s`
/// does not parse as an absolute URL, or parses to a URL without a host.
pub uninterp spec fn url_host_of(s: Seq<char>) -> Option<Seq<char>>;

/// Relies on `url::Url::parse` and `url::Url::host_str`: parsing is a
/// function of the input string alone, and `host_str` returns the parsed
/// URL's host component, or `None` when the URL has none. A string that does
/// not parse is folded into the no-host case.
#[verifier::external_body]
fn parse_url_host(locator: &str) -> (r: Option<String>)
    ensures
        match r {
            Some(h) => url_host_of(locator@) == Some(h@),
            None => url_host_of(locator@) is None,
        },
{
    match url::Url::parse(locator) {
        Ok(u) => match u.host_str() {
            Some(h) => Some(h.to_string()),
            None => None,
        },
        Err(_) => None,
    }
}

/// The bucket an `s3://` locator names: the host component of the URL.
/// A locator without one is rejected with the missing-bucket error.
pub fn s3_bucket(locator: &str) -> (r: Result<String, DfKitError>)
    ensures
        match url_host_of(locator@) {
            Some(h) => (r matches Ok(b) && b@ == h),
            None => (r matches Err(DfKitError::CustomError(m)) && m@
                == "Missing bucket in S3 URL"@),
        },
{
    match parse_url_host(locator) {
        Some(b) => Ok(b),
        None => Err(DfKitError::CustomError(String::from_str("Missing bucket in S3 URL"))),
    }
}

/// How a locator is brought to the query engine.
#[derive(Debug, PartialEq, Eq)]
pub enum RegistrationPlan {
    /// Read the local path directly.
    Local { format: FileFormat },
    /// Download the URL's body into a temporary file carrying the same
    /// extension suffix, then read that file; the file is scoped to the one
    /// registration that requested it.
    Download { format: FileFormat },
    /// Register the bucket's object store with the session, then read the
    /// locator through it.
    S3 { bucket: String, format: FileFormat },
}

/// Decide how `locator` is materialized and loaded. Storage is classified
/// first; then a local path or S3 key must carry a recognized extension
/// suffix, a URL must carry one once its query string is ignored (anything
/// else is the invalid-extension error, since no temporary file name could
/// be derived), and an S3 locator must name a bucket.
pub fn registration_plan(locator: &str) -> (r: Result<RegistrationPlan, DfKitError>)
    ensures
        match spec_storage_type(locator@) {
            Err(se) => (r matches Err(DfKitError::Storage(e)) && e == se),
            Ok(StorageType::Local) => match spec_file_type(locator@) {
                Ok(f) => (r matches Ok(p) && p matches RegistrationPlan::Local { format }
                    && format == f),
                Err(fe) => (r matches Err(DfKitError::FileParse(e)) && e == fe),
            },
            Ok(StorageType::Url) => match spec_file_type(locator@) {
                Ok(f) => (r matches Ok(p) && p matches RegistrationPlan::Download { format }
                    && format == f),
                Err(_) => (r matches Err(DfKitError::FileParse(e)) && e
                    == FileParseError::InvalidExtension),
            },
            Ok(StorageType::S3) => match url_host_of(locator@) {
                None => (r matches Err(DfKitError::CustomError(m)) && m@
                    == "Missing bucket in S3 URL"@),
                Some(h) => match spec_file_type(locator@) {
                    Ok(f) => (r matches Ok(p) && p matches RegistrationPlan::S3 {
                        bucket,
                        format,
                    } && bucket@ == h && format == f),
                    Err(fe) => (r matches Err(DfKitError::FileParse(e)) && e == fe),
                },
            },
        },
{
    let st = match storage_type(locator) {
        Ok(st) => st,
        Err(e) => {
            return Err(e);
        },
    };
    match st {
        StorageType::Local => match file_type(locator) {
            Ok(f) => Ok(RegistrationPlan::Local { format: f }),
            Err(e) => Err(DfKitError::FileParse(e)),
        },
        StorageType::Url => match file_type(locator) {
            Ok(f) => Ok(RegistrationPlan::Download { format: f }),
            Err(_) => Err(DfKitError::FileParse(FileParseError::InvalidExtension)),
        },
        StorageType::S3 => {
            let bucket = match s3_bucket(locator) {
                Ok(b) => b,
                Err(e) => {
                    return Err(e);
                },
            };
            match file_type(locator) {
                Ok(f) => Ok(RegistrationPlan::S3 { bucket, format: f }),
                Err(e) => Err(DfKitError::FileParse(e)),
            }
        },
    }
}

/// The synthetic name the `i`-th source of a multi-source command is
/// registered under: `t_0`, `t_1`, ... — distinct per source, so no two
/// sources collide within one session.
pub fn cat_table_name(i: usize) -> (r: String)
    ensures
        r@ == "t_"@ + dec_digits(i as nat),
{
    let mut out = String::from_str("t_");
    push_decimal(&mut out, i);
    out
}

} // verus!
