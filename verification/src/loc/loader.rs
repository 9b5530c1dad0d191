use vstd::prelude::*;
use vstd::string::StringSliceAdditionalSpecFns;
use vstd::utf8::encode_utf8;

verus! {

/// `fluent::FluentResource`, a parsed Fluent file.
#[verifier::external_type_specification]
#[verifier::external_body]
pub struct ExFluentResource(fluent::FluentResource);

/// `fluent_syntax::parser::ParserError`, one Fluent syntax error.
#[verifier::external_type_specification]
#[verifier::external_body]
pub struct ExParserError(fluent_syntax::parser::ParserError);

/// Whether Fluent's parser accepts `source` without a syntax error
/// (`FluentResource::try_new` returns `Ok`); parsing depends on the text
/// alone.
pub uninterp spec fn fluent_accepts(source: Seq<char>) -> bool;

/// Parses Fluent source text (`FluentResource::try_new`), giving the
/// syntax errors when there are any. The claim: the parse succeeds
/// exactly when `fluent_accepts` holds of the text. The resource's
/// contents are not stated.
#[verifier::external_body]
fn fluent_parse(source: String) -> (r: Result<fluent::FluentResource, Vec<fluent_syntax::parser::ParserError>>)
    ensures
        r is Ok <==> fluent_accepts(source@),
{
    fluent::FluentResource::try_new(source).map_err(|(_partial, errors)| errors)
}

/// Errors loading a locale's Fluent files.
#[derive(Debug)]
pub enum LoaderError {
    /// The locale directory could not be listed.
    ReadDir {
        path: String,
        source: std::io::Error,
    },
    /// A Fluent file could not be read.
    ReadFile {
        path: String,
        source: std::io::Error,
    },
    /// A Fluent file does not parse; every syntax error is kept.
    InvalidSyntax {
        path: String,
        errors: Vec<fluent_syntax::parser::ParserError>,
    },
    /// A budget was exceeded; `limit_desc` says which.
    OverBudget {
        path: String,
        limit_desc: &'static str,
        actual_bytes: u64,
    },
}

impl LoaderError {
    /// The file or directory the error is about.
    pub fn path(&self) -> (r: Option<&str>)
        ensures
            match self {
                LoaderError::ReadDir { path, .. } => r matches Some(p) && p@ == path@,
                LoaderError::ReadFile { path, .. } => r matches Some(p) && p@ == path@,
                LoaderError::InvalidSyntax { path, .. } => r matches Some(p) && p@ == path@,
                LoaderError::OverBudget { path, .. } => r matches Some(p) && p@ == path@,
            },
    {
        match self {
            LoaderError::ReadDir { path, .. } => Some(path.as_str()),
            LoaderError::ReadFile { path, .. } => Some(path.as_str()),
            LoaderError::InvalidSyntax { path, .. } => Some(path.as_str()),
            LoaderError::OverBudget { path, .. } => Some(path.as_str()),
        }
    }
}

/// Checks the text read from the locale file at `path` against the
/// per-file budget, then parses it; a syntax error fails the whole file
/// rather than silently dropping it.
pub fn parse_locale_file(path: &str, content: String, max_file_bytes: u64) -> (r: Result<
    fluent::FluentResource,
    LoaderError,
>)
    ensures
        encode_utf8(content@).len() > max_file_bytes ==> (r matches Err(
            LoaderError::OverBudget { path: p, limit_desc, actual_bytes },
        ) && p@ == path@ && limit_desc@ == "max bytes per file"@ && actual_bytes == encode_utf8(
            content@,
        ).len()),
        encode_utf8(content@).len() <= max_file_bytes ==> (r is Ok <==> fluent_accepts(content@)),
        encode_utf8(content@).len() <= max_file_bytes && !fluent_accepts(content@) ==> (r matches Err(
            LoaderError::InvalidSyntax { path: p, .. },
        ) && p@ == path@),
{
    let size = content.as_str().as_bytes().len();
    if size as u64 > max_file_bytes {
        return Err(LoaderError::OverBudget { path: path.to_owned(), limit_desc: "max bytes per file", actual_bytes: size as u64 });
    }
    match fluent_parse(content) {
        Ok(resource) => Ok(resource),
        Err(errors) => Err(LoaderError::InvalidSyntax { path: path.to_owned(), errors }),
    }
}

/// Default ceiling on one locale file, in bytes: 1 MiB.
pub const DEFAULT_MAX_LOCALE_FILE_BYTES: u64 = 1048576;

/// Default ceiling on the number of `.ftl` files in one locale directory.
pub const DEFAULT_MAX_LOCALE_FILES: usize = 256;

/// What loading a locale directory does with one directory entry.
#[derive(Debug, Clone, Copy, PartialEq, Eq, Structural)]
pub enum EntryStep {
    /// Not a Fluent file: skipped, and not counted.
    Skip,
    /// One Fluent file too many: loading stops with a file-count budget
    /// error naming this count.
    RefuseFileCount { count: u64 },
    /// The file is larger than a file may be: loading stops with a
    /// file-size budget error naming this size.
    RefuseFileSize { size: u64 },
    /// Read and parse the file.
    Read,
}

/// Whether the file name `name` (as UTF-8 bytes) has the extension
/// `ftl`: a final `.` that is not the first character, followed by
/// exactly `ftl`.
pub open spec fn spec_has_ftl_extension(name: Seq<u8>) -> bool {
    &&& name.len() >= 5
    &&& name[name.len() - 4] == 46u8
    &&& name[name.len() - 3] == 102u8
    &&& name[name.len() - 2] == 116u8
    &&& name[name.len() - 1] == 108u8
}

/// Whether the file name `name` has the extension `ftl`.
pub fn has_ftl_extension(name: &str) -> (r: bool)
    ensures
        r == spec_has_ftl_extension(name.spec_bytes()),
{
    let b = name.as_bytes();
    let n = b.len();
    n >= 5 && b[n - 4] == 46 && b[n - 3] == 102 && b[n - 2] == 116 && b[n - 1] == 108
}

/// The step for one directory entry, given whether it is a Fluent file,
/// how many Fluent files came before it, and the size the file system
/// reports for it (`u64::MAX` when unknown).
pub open spec fn spec_entry_step(is_ftl: bool, files_before: nat, size: u64, max_file_bytes: u64, max_files: nat) -> EntryStep {
    if !is_ftl {
        EntryStep::Skip
    } else if files_before + 1 > max_files {
        EntryStep::RefuseFileCount { count: (files_before + 1) as u64 }
    } else if size > max_file_bytes {
        EntryStep::RefuseFileSize { size }
    } else {
        EntryStep::Read
    }
}

/// Decides what loading a locale directory does with one entry: entries
/// that are not `.ftl` files are skipped; a Fluent file past the
/// file-count budget or the per-file size budget stops loading before
/// anything is read; any other Fluent file is read.
pub fn entry_step(is_ftl: bool, files_before: usize, size: u64, max_file_bytes: u64, max_files: usize) -> (s: EntryStep)
    requires
        files_before < usize::MAX,
    ensures
        s == spec_entry_step(is_ftl, files_before as nat, size, max_file_bytes, max_files as nat),
{
    if !is_ftl {
        return EntryStep::Skip;
    }
    let count = files_before + 1;
    if count > max_files {
        return EntryStep::RefuseFileCount { count: count as u64 };
    }
    if size > max_file_bytes {
        return EntryStep::RefuseFileSize { size };
    }
    EntryStep::Read
}

} // verus!
