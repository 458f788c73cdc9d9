use vstd::prelude::*;

verus! {

/// The decoder that detected a malformed line.
#[derive(Debug, Clone, Copy, PartialEq, Eq, Structural)]
pub enum Stage {
    Artifact,
    Build,
    Log,
}

/// The tags that lead the lines of build-scoped records.
#[derive(Debug, Clone, Copy, PartialEq, Eq, Structural)]
pub enum Tag {
    BuilderId,
    Id,
    Str,
    FilesCount,
    File,
    End,
    ArtifactCount,
    Artifact,
}

/// Why a line could not be decoded. Every error is fatal to the decode session.
#[derive(Debug, Clone)]
pub enum Error {
    /// The line's tag is not the one the decoder's state requires.
    UnexpectedToken { stage: Stage, expected: Tag, actual: String },
    /// The line ends where a further token is required.
    MissingToken { stage: Stage },
    /// A token that must be a decimal number is not one.
    InvalidNumber { actual: String },
    /// A slot index is not below the declared count.
    SlotOutOfRange { stage: Stage, index: usize, count: usize },
    /// The `end` line came while some file slot was never filled.
    IncompleteArtifact,
    /// A line arrived for a structure that is already complete.
    AlreadyFinished { stage: Stage },
    /// A global line carries a message type other than `ui`.
    UnknownMessageType { actual: String },
    /// A global `ui` line carries a sub-type other than `say`, `message`, `error`.
    UnknownUiType { actual: String },
}

pub ghost enum ErrorView {
    UnexpectedToken { stage: Stage, expected: Tag, actual: Seq<char> },
    MissingToken { stage: Stage },
    InvalidNumber { actual: Seq<char> },
    SlotOutOfRange { stage: Stage, index: nat, count: nat },
    IncompleteArtifact,
    AlreadyFinished { stage: Stage },
    UnknownMessageType { actual: Seq<char> },
    UnknownUiType { actual: Seq<char> },
}

impl View for Error {
    type V = ErrorView;

    open spec fn view(&self) -> ErrorView {
        match self {
            Error::UnexpectedToken { stage, expected, actual } => ErrorView::UnexpectedToken {
                stage: *stage,
                expected: *expected,
                actual: actual@,
            },
            Error::MissingToken { stage } => ErrorView::MissingToken { stage: *stage },
            Error::InvalidNumber { actual } => ErrorView::InvalidNumber { actual: actual@ },
            Error::SlotOutOfRange { stage, index, count } => ErrorView::SlotOutOfRange {
                stage: *stage,
                index: *index as nat,
                count: *count as nat,
            },
            Error::IncompleteArtifact => ErrorView::IncompleteArtifact,
            Error::AlreadyFinished { stage } => ErrorView::AlreadyFinished { stage: *stage },
            Error::UnknownMessageType { actual } => ErrorView::UnknownMessageType {
                actual: actual@,
            },
            Error::UnknownUiType { actual } => ErrorView::UnknownUiType { actual: actual@ },
        }
    }
}

} // verus!
