use vstd::prelude::*;
use vstd::string::*;
use crate::error::ViewError;

verus! {

/// The two container formats.
#[derive(Debug, Clone, Copy, PartialEq, Eq)]
pub enum FileType {
    Parquet,
    Orc,
}

/// A whole-file compression wrapper, told by extension.
#[derive(Debug, Clone, Copy, PartialEq, Eq)]
pub enum CompressionType {
    Uncompressed,
    Gzip,
    Zlib,
    Snappy,
    Zstd,
}

/// The final component of a path, as `std::path::Path::file_name` gives it
/// (with the path separators of the platform the library is built for).
pub uninterp spec fn path_file_name(path: Seq<char>) -> Option<Seq<char>>;

/// Relies on `std::path::Path::file_name`: the last component of the path,
/// or nothing when the path has none (it ends in `..`, or is a root).
/// A path made from text has text components, so `to_str` keeps it.
#[verifier::external_body]
fn file_name_of(path: &str) -> (r: Option<String>)
    ensures
        r is None ==> path_file_name(path@) is None,
        r matches Some(s) ==> path_file_name(path@) == Some(s@),
{
    std::path::Path::new(path).file_name().and_then(|s| s.to_str()).map(|s| s.to_string())
}

/// The file name of a path, or empty text when it has none.
pub open spec fn file_name_or_empty(path: Seq<char>) -> Seq<char> {
    match path_file_name(path) {
        Some(n) => n,
        None => Seq::empty(),
    }
}

pub open spec fn seq_ends_with(s: Seq<char>, suffix: Seq<char>) -> bool {
    suffix.len() <= s.len() && s.subrange(s.len() - suffix.len(), s.len() as int) == suffix
}

pub open spec fn strip_suffix(s: Seq<char>, suffix: Seq<char>) -> Seq<char> {
    s.subrange(0, s.len() - suffix.len())
}

fn ends_with(s: &str, suffix: &str) -> (r: bool)
    ensures
        r == seq_ends_with(s@, suffix@),
{
    let n = s.unicode_len();
    let m = suffix.unicode_len();
    if m > n {
        return false;
    }
    let mut i: usize = 0;
    while i < m
        invariant
            n == s@.len(),
            m == suffix@.len(),
            m <= n,
            0 <= i <= m,
            forall|j: int| 0 <= j < i ==> s@[n - m + j] == #[trigger] suffix@[j],
        decreases m - i,
    {
        if s.get_char(n - m + i) != suffix.get_char(i) {
            assert(s@.subrange(n - m, n as int)[i as int] != suffix@[i as int]);
            return false;
        }
        i = i + 1;
    }
    assert(s@.subrange(n - m, n as int) =~= suffix@);
    true
}

/// The compression told by a file name's extension.
pub open spec fn compression_of_name(name: Seq<char>) -> CompressionType {
    if seq_ends_with(name, ".gz"@) {
        CompressionType::Gzip
    } else if seq_ends_with(name, ".zlib"@) || seq_ends_with(name, ".z"@) {
        CompressionType::Zlib
    } else if seq_ends_with(name, ".snappy"@) || seq_ends_with(name, ".sz"@) {
        CompressionType::Snappy
    } else if seq_ends_with(name, ".zst"@) || seq_ends_with(name, ".zstd"@) {
        CompressionType::Zstd
    } else {
        CompressionType::Uncompressed
    }
}

/// The compression told by the extension of a file name.
pub fn compression_from_file_name(name: &str) -> (r: CompressionType)
    ensures
        r == compression_of_name(name@),
{
    if ends_with(name, ".gz") {
        CompressionType::Gzip
    } else if ends_with(name, ".zlib") || ends_with(name, ".z") {
        CompressionType::Zlib
    } else if ends_with(name, ".snappy") || ends_with(name, ".sz") {
        CompressionType::Snappy
    } else if ends_with(name, ".zst") || ends_with(name, ".zstd") {
        CompressionType::Zstd
    } else {
        CompressionType::Uncompressed
    }
}

/// The compression told by the extension of the path's file name.
pub fn detect_compression_from_extension(file_path: &str) -> (r: CompressionType)
    ensures
        r == compression_of_name(file_name_or_empty(file_path@)),
{
    proof {
        reveal_strlit("");
    }
    match file_name_of(file_path) {
        Some(name) => {
            assert(file_name_or_empty(file_path@) == name@);
            compression_from_file_name(name.as_str())
        },
        None => {
            assert(file_name_or_empty(file_path@) == ""@);
            compression_from_file_name("")
        },
    }
}

/// A file name with its first matching compression extension removed.
pub open spec fn core_name(name: Seq<char>) -> Seq<char> {
    if seq_ends_with(name, ".gz"@) {
        strip_suffix(name, ".gz"@)
    } else if seq_ends_with(name, ".zlib"@) {
        strip_suffix(name, ".zlib"@)
    } else if seq_ends_with(name, ".z"@) {
        strip_suffix(name, ".z"@)
    } else if seq_ends_with(name, ".snappy"@) {
        strip_suffix(name, ".snappy"@)
    } else if seq_ends_with(name, ".sz"@) {
        strip_suffix(name, ".sz"@)
    } else if seq_ends_with(name, ".zst"@) {
        strip_suffix(name, ".zst"@)
    } else if seq_ends_with(name, ".zstd"@) {
        strip_suffix(name, ".zstd"@)
    } else {
        name
    }
}

/// The container format told by a file name, looking past one compression extension.
pub open spec fn file_type_of_name(name: Seq<char>) -> Option<FileType> {
    let core = core_name(name);
    if seq_ends_with(core, ".parquet"@) {
        Some(FileType::Parquet)
    } else if seq_ends_with(core, ".orc"@) {
        Some(FileType::Orc)
    } else {
        None
    }
}

fn strip_known_suffix<'a>(name: &'a str, suffix: &str) -> (r: Option<&'a str>)
    ensures
        seq_ends_with(name@, suffix@) ==> (r matches Some(c) && c@ == strip_suffix(name@, suffix@)),
        !seq_ends_with(name@, suffix@) ==> r is None,
{
    if ends_with(name, suffix) {
        Some(name.substring_char(0, name.unicode_len() - suffix.unicode_len()))
    } else {
        None
    }
}

/// The container format told by a file name.
pub fn file_type_from_file_name(name: &str) -> (r: Option<FileType>)
    ensures
        r == file_type_of_name(name@),
{
    let core: &str = if let Some(c) = strip_known_suffix(name, ".gz") {
        c
    } else if let Some(c) = strip_known_suffix(name, ".zlib") {
        c
    } else if let Some(c) = strip_known_suffix(name, ".z") {
        c
    } else if let Some(c) = strip_known_suffix(name, ".snappy") {
        c
    } else if let Some(c) = strip_known_suffix(name, ".sz") {
        c
    } else if let Some(c) = strip_known_suffix(name, ".zst") {
        c
    } else if let Some(c) = strip_known_suffix(name, ".zstd") {
        c
    } else {
        name
    };
    assert(core@ == core_name(name@));
    if ends_with(core, ".parquet") {
        Some(FileType::Parquet)
    } else if ends_with(core, ".orc") {
        Some(FileType::Orc)
    } else {
        None
    }
}

/// The container format of a path, told by its file name.
pub fn get_file_type(file_path: &str) -> (r: Result<FileType, ViewError>)
    ensures
        file_type_of_name(file_name_or_empty(file_path@)) matches Some(t) ==> r == Ok::<
            FileType,
            ViewError,
        >(t),
        file_type_of_name(file_name_or_empty(file_path@)) is None ==> (r matches Err(
            ViewError::UnsupportedFileType(p),
        ) && p@ == file_path@),
{
    proof {
        reveal_strlit("");
    }
    let found = match file_name_of(file_path) {
        Some(name) => {
            assert(file_name_or_empty(file_path@) == name@);
            file_type_from_file_name(name.as_str())
        },
        None => {
            assert(file_name_or_empty(file_path@) == ""@);
            file_type_from_file_name("")
        },
    };
    match found {
        Some(t) => Ok(t),
        None => Err(ViewError::UnsupportedFileType(String::from_str(file_path))),
    }
}

} // verus!
