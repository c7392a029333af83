use vstd::prelude::*;

verus! {

/// The kinds of failure a run can end with.
#[derive(Debug, Clone, Copy, PartialEq, Eq, Structural)]
pub enum ErrorKind {
    /// The pattern mapping is unreadable or malformed, or a pattern is not a valid regex.
    Config,
    /// The destination directory is not empty.
    Validation,
    /// A file's content or name is not valid UTF-8.
    Encoding,
    /// A walked entry does not lie under the source root.
    Path,
    /// A read, write, create or traversal failure of the underlying storage.
    FileSystem,
    /// The command line does not have the shape the tool accepts.
    Usage,
}

} // verus!
