use crate::sha::Sha;
use vstd::prelude::*;

verus! {

/// The broad families every failure belongs to.
#[derive(Debug, Clone, Copy, PartialEq, Eq, Structural)]
pub enum ErrorKind {
    Io,
    Protocol,
    Format,
    Integrity,
    Unsupported,
    Usage,
}

/// Every way an operation of this library can fail.
#[derive(Debug, Clone, Copy, PartialEq, Eq)]
pub enum GitError {
    /// A filesystem or network step reported a failure.
    Io,
    /// A pkt-line length prefix is not four hexadecimal digits.
    BadPktLength,
    /// A pkt-line length prefix is between one and four.
    PktTooShort,
    /// The input ends before the payload a pkt-line announces.
    PktTruncated,
    /// A pkt-line other than the one the protocol calls for.
    UnexpectedPkt,
    /// A want request without a single want.
    NoWants,
    /// No advertised ref points at the object that HEAD names.
    NoHeadRef,
    /// Bytes that must be UTF-8 text are not.
    InvalidUtf8,
    /// An object header without NUL, type, or size separator.
    CorruptHeader,
    /// An object type name other than blob, tree or commit, or an object of
    /// another type than the one called for.
    UnknownType,
    /// A tree entry mode outside the four known ones.
    UnknownMode,
    /// Text that must be a decimal number is not, or does not fit.
    InvalidNumber,
    /// Text that must be hexadecimal is not.
    InvalidHex,
    /// A hash that is not twenty bytes long.
    WrongHashLength,
    /// A variable-length integer that ends early or does not fit.
    BadVarint,
    /// Input that ends before a fixed-size field.
    Truncated,
    /// A commit without a blank line, tree or author.
    MissingField,
    /// An author or committer line that does not follow the grammar.
    BadActor,
    /// A delta instruction with a reserved opcode.
    BadDelta,
    /// A pack that does not start with the magic bytes.
    BadPackHeader,
    /// A zlib stream that cannot be inflated, or data that cannot be deflated.
    Decompress,
    /// An announced size differs from the size found.
    SizeMismatch,
    /// The objects of a pack do not end where its trailer starts.
    CountMismatch,
    /// A delta whose base, named here, is not among the objects.
    UnresolvedDelta(Sha),
    /// The trailer of a pack is not the digest of what precedes it.
    ChecksumMismatch,
    /// A tree that reaches itself, or a tree entry naming an object of the wrong type.
    BadReference,
    /// A pack object type that is not handled (tag, offset delta).
    UnsupportedObjectType,
    /// A pack version other than two.
    UnsupportedVersion,
    /// Data too large for the digest routine.
    TooLarge,
    /// Text that is no address of a repository.
    BadUrl,
    /// A request the caller should not have made.
    Usage,
}

impl GitError {
    pub open spec fn spec_kind(self) -> ErrorKind {
        match self {
            GitError::Io => ErrorKind::Io,
            GitError::BadPktLength
            | GitError::PktTooShort
            | GitError::PktTruncated
            | GitError::UnexpectedPkt
            | GitError::NoWants
            | GitError::NoHeadRef => ErrorKind::Protocol,
            GitError::InvalidUtf8
            | GitError::CorruptHeader
            | GitError::UnknownType
            | GitError::UnknownMode
            | GitError::InvalidNumber
            | GitError::InvalidHex
            | GitError::WrongHashLength
            | GitError::BadVarint
            | GitError::Truncated
            | GitError::MissingField
            | GitError::BadActor
            | GitError::BadDelta
            | GitError::BadPackHeader => ErrorKind::Format,
            GitError::Decompress
            | GitError::SizeMismatch
            | GitError::CountMismatch
            | GitError::UnresolvedDelta(_)
            | GitError::ChecksumMismatch
            | GitError::BadReference => ErrorKind::Integrity,
            GitError::UnsupportedObjectType
            | GitError::UnsupportedVersion
            | GitError::TooLarge => ErrorKind::Unsupported,
            GitError::BadUrl | GitError::Usage => ErrorKind::Usage,
        }
    }

    /// The family this error belongs to.
    #[verifier::when_used_as_spec(spec_kind)]
    pub fn kind(self) -> (k: ErrorKind)
        ensures
            k == self.spec_kind(),
    {
        match self {
            GitError::Io => ErrorKind::Io,
            GitError::BadPktLength
            | GitError::PktTooShort
            | GitError::PktTruncated
            | GitError::UnexpectedPkt
            | GitError::NoWants
            | GitError::NoHeadRef => ErrorKind::Protocol,
            GitError::InvalidUtf8
            | GitError::CorruptHeader
            | GitError::UnknownType
            | GitError::UnknownMode
            | GitError::InvalidNumber
            | GitError::InvalidHex
            | GitError::WrongHashLength
            | GitError::BadVarint
            | GitError::Truncated
            | GitError::MissingField
            | GitError::BadActor
            | GitError::BadDelta
            | GitError::BadPackHeader => ErrorKind::Format,
            GitError::Decompress
            | GitError::SizeMismatch
            | GitError::CountMismatch
            | GitError::UnresolvedDelta(_)
            | GitError::ChecksumMismatch
            | GitError::BadReference => ErrorKind::Integrity,
            GitError::UnsupportedObjectType
            | GitError::UnsupportedVersion
            | GitError::TooLarge => ErrorKind::Unsupported,
            GitError::BadUrl | GitError::Usage => ErrorKind::Usage,
        }
    }
}

} // verus!
