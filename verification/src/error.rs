//! The ways a digest computation fails, and the message each one carries to
//! the shell.
use vstd::prelude::*;
use vstd::string::*;

verus! {

/// The storage operation that failed.
#[derive(Debug, Clone, Copy, PartialEq, Eq, Structural)]
pub enum IoStage {
    /// Looking up the file's length.
    Metadata,
    /// Opening the file for reading.
    Open,
    /// Reading a chunk.
    Read,
}

/// Why a computation ended without a result.
#[derive(Debug, PartialEq, Eq)]
pub enum DigestError {
    /// Nothing exists at the path.
    NotFound { path: String },
    /// The path names something other than a regular file.
    NotAFile { path: String },
    /// The storage layer failed; `detail` is its own description.
    IoFailure { stage: IoStage, detail: String },
    /// The cancellation signal was seen at a check point.
    Cancelled,
    /// A progress update could not be delivered to the shell.
    SinkUnavailable { detail: String },
}

/// A [`DigestError`] with its texts as sequences of characters.
pub enum DigestErrorView {
    NotFound { path: Seq<char> },
    NotAFile { path: Seq<char> },
    IoFailure { stage: IoStage, detail: Seq<char> },
    Cancelled,
    SinkUnavailable { detail: Seq<char> },
}

impl View for DigestError {
    type V = DigestErrorView;

    open spec fn view(&self) -> DigestErrorView {
        match self {
            DigestError::NotFound { path } => DigestErrorView::NotFound { path: path@ },
            DigestError::NotAFile { path } => DigestErrorView::NotAFile { path: path@ },
            DigestError::IoFailure { stage, detail } => DigestErrorView::IoFailure {
                stage: *stage,
                detail: detail@,
            },
            DigestError::Cancelled => DigestErrorView::Cancelled,
            DigestError::SinkUnavailable { detail } => DigestErrorView::SinkUnavailable {
                detail: detail@,
            },
        }
    }
}

impl IoStage {
    /// How a failure at this stage is introduced to the reader.
    pub open spec fn prefix(self) -> Seq<char> {
        match self {
            IoStage::Metadata => "Failed to read file metadata: "@,
            IoStage::Open => "Failed to open file: "@,
            IoStage::Read => "Failed to read file: "@,
        }
    }
}

impl DigestErrorView {
    /// The message shown for this error: a fixed phrase, followed by the
    /// path or the underlying description where there is one.
    pub open spec fn message(self) -> Seq<char> {
        match self {
            DigestErrorView::NotFound { path } => "File does not exist: "@ + path,
            DigestErrorView::NotAFile { path } => "Path is not a file: "@ + path,
            DigestErrorView::IoFailure { stage, detail } => stage.prefix() + detail,
            DigestErrorView::Cancelled => "Hash operation was cancelled"@,
            DigestErrorView::SinkUnavailable { detail } => "Failed to emit progress event: "@
                + detail,
        }
    }
}

impl DigestError {
    /// The message handed to the shell in place of a result.
    pub fn message(&self) -> (text: String)
        ensures
            text@ == self@.message(),
    {
        match self {
            DigestError::NotFound { path } => {
                String::from_str("File does not exist: ").concat(path.as_str())
            },
            DigestError::NotAFile { path } => {
                String::from_str("Path is not a file: ").concat(path.as_str())
            },
            DigestError::IoFailure { stage, detail } => {
                let prefix = match stage {
                    IoStage::Metadata => "Failed to read file metadata: ",
                    IoStage::Open => "Failed to open file: ",
                    IoStage::Read => "Failed to read file: ",
                };
                String::from_str(prefix).concat(detail.as_str())
            },
            DigestError::Cancelled => String::from_str("Hash operation was cancelled"),
            DigestError::SinkUnavailable { detail } => {
                String::from_str("Failed to emit progress event: ").concat(detail.as_str())
            },
        }
    }
}

} // verus!
