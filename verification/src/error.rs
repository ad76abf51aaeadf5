use vstd::prelude::*;

verus! {

/// Everything that can go wrong in the library.
#[derive(Debug)]
pub enum GitError {
    /// A type name that is none of `blob`, `tree`, `commit`, `tag`; holds the name's bytes.
    UnknownObjectType(Vec<u8>),
    /// A stored object without the NUL byte that ends its header.
    NoNullByte,
    /// A header that is not valid UTF-8.
    InvalidUtf8Header,
    /// A header that is not exactly two fields separated by one space.
    InvalidHeaderFormat,
    /// A size field that is not a decimal `usize`.
    InvalidSize,
    /// The header's size differs from the length of the content.
    SizeMismatch { expected: usize, got: usize },
    /// Compressing an object failed while writing into the encoder.
    CompressFailed,
    /// Compressing an object failed while finishing the stream.
    CompressFinishFailed,
    /// Stored bytes that are not a zlib stream.
    DecompressFailed,
    /// An object id shorter than two bytes.
    HashTooShort,
    /// A directory without a `.git` directory.
    NotARepository,
    /// A directory that already has a `.git` directory.
    RepositoryExists,
}

/// The mathematical value of a [`GitError`].
pub enum ErrorView {
    UnknownObjectType(Seq<u8>),
    NoNullByte,
    InvalidUtf8Header,
    InvalidHeaderFormat,
    InvalidSize,
    SizeMismatch { expected: nat, got: nat },
    CompressFailed,
    CompressFinishFailed,
    DecompressFailed,
    HashTooShort,
    NotARepository,
    RepositoryExists,
}

impl View for GitError {
    type V = ErrorView;

    open spec fn view(&self) -> ErrorView {
        match self {
            GitError::UnknownObjectType(name) => ErrorView::UnknownObjectType(name@),
            GitError::NoNullByte => ErrorView::NoNullByte,
            GitError::InvalidUtf8Header => ErrorView::InvalidUtf8Header,
            GitError::InvalidHeaderFormat => ErrorView::InvalidHeaderFormat,
            GitError::InvalidSize => ErrorView::InvalidSize,
            GitError::SizeMismatch { expected, got } => ErrorView::SizeMismatch {
                expected: *expected as nat,
                got: *got as nat,
            },
            GitError::CompressFailed => ErrorView::CompressFailed,
            GitError::CompressFinishFailed => ErrorView::CompressFinishFailed,
            GitError::DecompressFailed => ErrorView::DecompressFailed,
            GitError::HashTooShort => ErrorView::HashTooShort,
            GitError::NotARepository => ErrorView::NotARepository,
            GitError::RepositoryExists => ErrorView::RepositoryExists,
        }
    }
}

} // verus!
