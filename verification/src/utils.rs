//! Locator classification: the file-format and storage kinds, the error
//! taxonomy, and the classifiers that map a locator string to them.
//!
//! A locator is classified twice, independently: its format comes from the
//! extension suffix (the characters after the last `.`, with any query string
//! stripped first), and its storage kind from the scheme prefix.

use vstd::prelude::*;
use vstd::string::*;

use crate::text::spec_trim;
use crate::text::split_commas;
use crate::text::split_trim;
use crate::text::starts_with;
use crate::text::str_eq;
use crate::text::str_starts_with;

verus! {

/// The file formats the toolkit recognizes, by extension suffix.
#[derive(Clone, Copy, Debug, PartialEq, Eq, Structural)]
pub enum FileFormat {
    Csv,
    Parquet,
    Json,
    Avro,
}

/// Where a locator's data lives.
#[derive(Clone, Copy, Debug, PartialEq, Eq, Structural)]
pub enum StorageType {
    Local,
    Url,
    S3,
}

/// Why a locator's format could not be determined.
#[derive(Clone, Copy, Debug, PartialEq, Eq, Structural)]
pub enum FileParseError {
    /// A suffix is present but is not one of the recognized formats.
    UnsupportedFileFormat,
    /// No extension suffix exists at all.
    InvalidExtension,
}

/// Why a locator's storage kind could not be determined.
#[derive(Clone, Copy, Debug, PartialEq, Eq, Structural)]
pub enum StorageTypeError {
    UnsupportedStorageType,
}

/// The library's error type. Engine, network and I/O failures are raised by
/// the unverified shell around this library and are not represented here.
#[derive(Debug)]
pub enum DfKitError {
    FileParse(FileParseError),
    Storage(StorageTypeError),
    CustomError(String),
    /// Writing to an Avro destination is permanently unimplemented; every
    /// write path surfaces this same error for an Avro destination.
    UnsupportedWrite,
    Unknown,
}

/// The locator up to its first `?`: a query string never takes part in
/// format classification.
pub open spec fn strip_query(s: Seq<char>) -> Seq<char>
    decreases s.len(),
{
    if s.len() == 0 {
        s
    } else if s[0] == '?' {
        Seq::empty()
    } else {
        seq![s[0]] + strip_query(s.skip(1))
    }
}

/// The characters after the last `.` of `s`, or `None` when `s` has no `.`.
pub open spec fn extension_of(s: Seq<char>) -> Option<Seq<char>>
    decreases s.len(),
{
    if s.len() == 0 {
        None
    } else if s.last() == '.' {
        Some(Seq::empty())
    } else {
        match extension_of(s.drop_last()) {
            Some(e) => Some(e.push(s.last())),
            None => None,
        }
    }
}

/// Exact, case-sensitive match of an extension suffix against the four
/// recognized formats.
pub open spec fn format_of_extension(e: Seq<char>) -> Result<FileFormat, FileParseError> {
    if e == "csv"@ {
        Ok(FileFormat::Csv)
    } else if e == "parquet"@ {
        Ok(FileFormat::Parquet)
    } else if e == "json"@ {
        Ok(FileFormat::Json)
    } else if e == "avro"@ {
        Ok(FileFormat::Avro)
    } else {
        Err(FileParseError::UnsupportedFileFormat)
    }
}

/// What `file_type` returns: classification by extension suffix, with any
/// query string ignored.
pub open spec fn spec_file_type(s: Seq<char>) -> Result<FileFormat, FileParseError> {
    match extension_of(strip_query(s)) {
        Some(e) => format_of_extension(e),
        None => Err(FileParseError::InvalidExtension),
    }
}

proof fn lemma_strip_query_prefix(s: Seq<char>, q: int)
    requires
        0 <= q <= s.len(),
        forall|k: int| 0 <= k < q ==> s[k] != '?',
        q < s.len() ==> s[q] == '?',
    ensures
        strip_query(s) == s.take(q),
    decreases s.len(),
{
    if s.len() == 0 {
        assert(s.take(q) =~= s);
    } else if s[0] == '?' {
        assert(q == 0);
        assert(s.take(0) =~= Seq::<char>::empty());
    } else {
        assert(q >= 1);
        lemma_strip_query_prefix(s.skip(1), q - 1);
        assert(seq![s[0]] + s.skip(1).take(q - 1) =~= s.take(q));
    }
}

/// The extension suffix of `s` is everything after its last `.`.
pub proof fn lemma_extension_after_last_dot(s: Seq<char>, d: int)
    requires
        0 <= d < s.len(),
        s[d] == '.',
        forall|k: int| d < k < s.len() ==> s[k] != '.',
    ensures
        extension_of(s) == Some(s.skip(d + 1)),
    decreases s.len(),
{
    if d == s.len() - 1 {
        assert(s.skip(d + 1) =~= Seq::<char>::empty());
    } else {
        assert(s.last() != '.');
        lemma_extension_after_last_dot(s.drop_last(), d);
        assert(s.drop_last().skip(d + 1).push(s.last()) =~= s.skip(d + 1));
    }
}

/// A string without a `.` has no extension suffix.
pub proof fn lemma_extension_none(s: Seq<char>)
    requires
        forall|k: int| 0 <= k < s.len() ==> s[k] != '.',
    ensures
        extension_of(s) is None,
    decreases s.len(),
{
    if s.len() > 0 {
        lemma_extension_none(s.drop_last());
    }
}

proof fn lemma_strip_query_append(s: Seq<char>, q: Seq<char>)
    ensures
        strip_query(s + seq!['?'] + q) == strip_query(s),
    decreases s.len(),
{
    let t = s + seq!['?'] + q;
    if s.len() == 0 {
        assert(t[0] == '?');
        assert(strip_query(s) =~= Seq::<char>::empty());
    } else if s[0] == '?' {
        assert(t[0] == '?');
    } else {
        assert(t[0] == s[0]);
        lemma_strip_query_append(s.skip(1), q);
        assert(t.skip(1) =~= s.skip(1) + seq!['?'] + q);
    }
}

/// Format classification is stable under an appended query string: for every
/// locator `s` and query text `q`, the locator `s?q` classifies exactly as
/// `s` does.
pub proof fn lemma_file_type_stable_under_query(s: Seq<char>, q: Seq<char>)
    ensures
        spec_file_type(s + seq!['?'] + q) == spec_file_type(s),
{
    lemma_strip_query_append(s, q);
}

/// For every locator built as `s.e` where the suffix `e` holds no further
/// `.` and no query string is present, classification is exactly the match
/// of `e` against the four recognized suffixes: one of them yields its
/// format, any other suffix yields `UnsupportedFileFormat`.
pub proof fn lemma_file_type_of_suffix(s: Seq<char>, e: Seq<char>)
    requires
        !s.contains('?'),
        !e.contains('?'),
        !e.contains('.'),
    ensures
        spec_file_type(s + seq!['.'] + e) == format_of_extension(e),
{
    let t = s + seq!['.'] + e;
    assert(forall|k: int| 0 <= k < s.len() ==> s[k] != '?');
    assert(forall|k: int| 0 <= k < e.len() ==> e[k] != '?');
    assert(forall|k: int| 0 <= k < t.len() ==> t[k] != '?');
    lemma_strip_query_prefix(t, t.len() as int);
    assert(strip_query(t) =~= t);
    let d = s.len() as int;
    assert(t[d] == '.');
    assert(forall|k: int| 0 <= k < e.len() ==> e[k] != '.');
    assert(forall|k: int| d < k < t.len() ==> t[k] != '.');
    lemma_extension_after_last_dot(t, d);
    assert(t.skip(d + 1) =~= e);
}

/// A locator with no `.` at all has no extension suffix: it is rejected
/// with the distinct `InvalidExtension` error.
pub proof fn lemma_file_type_missing_extension(s: Seq<char>)
    requires
        !s.contains('.'),
    ensures
        spec_file_type(s) == Err::<FileFormat, FileParseError>(FileParseError::InvalidExtension),
    decreases s.len(),
{
    assert(forall|k: int| 0 <= k < s.len() ==> s[k] != '.');
    lemma_strip_query_keeps_no_dot(s);
    lemma_extension_none(strip_query(s));
}

proof fn lemma_strip_query_keeps_no_dot(s: Seq<char>)
    requires
        forall|k: int| 0 <= k < s.len() ==> s[k] != '.',
    ensures
        forall|k: int| 0 <= k < strip_query(s).len() ==> strip_query(s)[k] != '.',
    decreases s.len(),
{
    if s.len() == 0 {
    } else if s[0] == '?' {
    } else {
        assert(forall|k: int| 0 <= k < s.skip(1).len() ==> s.skip(1)[k] != '.');
        lemma_strip_query_keeps_no_dot(s.skip(1));
        let r = seq![s[0]] + strip_query(s.skip(1));
        assert(forall|k: int| 1 <= k < r.len() ==> r[k] == strip_query(s.skip(1))[k - 1]);
    }
}

/// Classify a locator's file format from its extension suffix.
///
/// The suffix is the substring after the last `.`, with anything from the
/// first `?` on (a query string) ignored. Only the exact lowercase suffixes
/// `csv`, `parquet`, `json` and `avro` are recognized.
pub fn file_type(file_path: &str) -> (r: Result<FileFormat, FileParseError>)
    ensures
        r == spec_file_type(file_path@),
{
    let len = file_path.unicode_len();
    let mut q: usize = 0;
    while q < len && file_path.get_char(q) != '?'
        invariant
            len == file_path@.len(),
            q <= len,
            forall|k: int| 0 <= k < q ==> file_path@[k] != '?',
        decreases len - q,
    {
        q += 1;
    }
    proof {
        lemma_strip_query_prefix(file_path@, q as int);
    }
    let work = file_path.substring_char(0, q);
    proof {
        assert(work@ =~= strip_query(file_path@));
    }
    let mut j: usize = q;
    while j > 0 && work.get_char(j - 1) != '.'
        invariant
            work@.len() == q,
            j <= q,
            forall|k: int| j <= k < q ==> work@[k] != '.',
        decreases j,
    {
        j -= 1;
    }
    if j == 0 {
        proof {
            lemma_extension_none(work@);
        }
        return Err(FileParseError::InvalidExtension);
    }
    proof {
        lemma_extension_after_last_dot(work@, j - 1);
    }
    let ext = work.substring_char(j, q);
    proof {
        assert(ext@ =~= work@.skip(j as int));
    }
    if str_eq(ext, "csv") {
        Ok(FileFormat::Csv)
    } else if str_eq(ext, "parquet") {
        Ok(FileFormat::Parquet)
    } else if str_eq(ext, "json") {
        Ok(FileFormat::Json)
    } else if str_eq(ext, "avro") {
        Ok(FileFormat::Avro)
    } else {
        Err(FileParseError::UnsupportedFileFormat)
    }
}

/// What `storage_type` returns: dispatch on the locator's scheme prefix,
/// with an absolute filesystem path meaning local storage.
pub open spec fn spec_storage_type(s: Seq<char>) -> Result<StorageType, StorageTypeError> {
    if starts_with(s, "http://"@) || starts_with(s, "https://"@) {
        Ok(StorageType::Url)
    } else if starts_with(s, "s3://"@) {
        Ok(StorageType::S3)
    } else if s.len() > 0 && s[0] == '/' {
        Ok(StorageType::Local)
    } else {
        Err(StorageTypeError::UnsupportedStorageType)
    }
}

/// Classify where a locator's data lives: `http(s)://` means a remote URL,
/// `s3://` means object storage, an absolute path means the local
/// filesystem, and anything else is rejected.
pub fn storage_type(file_path: &str) -> (r: Result<StorageType, DfKitError>)
    ensures
        match spec_storage_type(file_path@) {
            Ok(st) => r matches Ok(x) && x == st,
            Err(e) => r matches Err(DfKitError::Storage(se)) && se == e,
        },
{
    if str_starts_with(file_path, "http://") || str_starts_with(file_path, "https://") {
        Ok(StorageType::Url)
    } else if str_starts_with(file_path, "s3://") {
        Ok(StorageType::S3)
    } else if file_path.unicode_len() > 0 && file_path.get_char(0) == '/' {
        Ok(StorageType::Local)
    } else {
        Err(DfKitError::Storage(StorageTypeError::UnsupportedStorageType))
    }
}

/// Split a comma-separated list of locators into individual trimmed entries.
/// With no list given, fail: some source must be named.
pub fn parse_file_list(files: Option<String>) -> (r: Result<Vec<String>, DfKitError>)
    ensures
        match files {
            Some(s) => (r matches Ok(l) && l.deep_view() == split_commas(s@).map_values(
                |p: Seq<char>| spec_trim(p),
            )),
            None => (r matches Err(DfKitError::CustomError(m)) && m@
                == "No files or directory provided"@),
        },
{
    match files {
        Some(s) => Ok(split_trim(s.as_str())),
        None => Err(DfKitError::CustomError(String::from_str("No files or directory provided"))),
    }
}

} // verus!
