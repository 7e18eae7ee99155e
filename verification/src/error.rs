//! The one error type of the crate: what went wrong, in words.

use crate::text::{optional_text, texts};
use vstd::prelude::*;

verus! {

/// What kind of thing went wrong.
#[derive(Clone, Copy, Debug, PartialEq, Eq, Structural)]
pub enum ErrorKind {
    /// An operation of the system failed before the library had anything to decide.
    System,
    /// A command ran and reported failure.
    CommandFailed,
    /// The output of a command, or the name of a file, is not text.
    Decoding,
    /// A disk has no partitions.
    NoPartitions,
    /// No partition carries the label.
    NoSuchLabel,
    /// Several partitions carry the label.
    AmbiguousLabel,
    /// A partition has no file system type.
    NoFilesystem,
    /// Rereading a partition table was refused: the device may not support partitions.
    NotPartitionable,
    /// Rereading a partition table was refused: the device is in use.
    DeviceInUse,
    /// Rereading a partition table failed for another reason.
    RereadFailed,
    /// A path names no file.
    NoFileName,
    /// A partition has no directory under `/sys/block`.
    NoSysfsDirectory,
    /// A value is not a number that fits.
    NotANumber,
    /// An offset does not fit in 64 bits.
    OffsetOverflow,
    /// A path is not that of a block device.
    NotABlockDevice,
    /// A device reports a size that cannot be one.
    BadSize,
    /// The udev control socket is missing.
    UdevMissing,
}

/// A failure: its kind, the message for the user, and what it came from, in words, if known.
#[derive(Debug)]
pub struct Error {
    pub kind: ErrorKind,
    pub text: String,
    pub cause: Option<String>,
}

/// The mathematical value of an [`Error`].
pub struct ErrorView {
    pub kind: ErrorKind,
    pub text: Seq<char>,
    pub cause: Option<Seq<char>>,
}

impl View for Error {
    type V = ErrorView;

    open spec fn view(&self) -> ErrorView {
        ErrorView { kind: self.kind, text: self.text@, cause: optional_text(self.cause) }
    }
}

/// An error that nothing else is behind.
pub open spec fn plain_error(kind: ErrorKind, text: Seq<char>) -> ErrorView {
    ErrorView { kind, text, cause: None }
}

/// What a function of the library returned, with the value of its error.
pub open spec fn outcome<T>(result: Result<T, Error>) -> Result<T, ErrorView> {
    match result {
        Ok(value) => Ok(value),
        Err(error) => Err(error@),
    }
}

/// What was learnt as a text, or the value of the error that came instead.
pub open spec fn text_outcome(result: Result<String, Error>) -> Result<Seq<char>, ErrorView> {
    match result {
        Ok(text) => Ok(text@),
        Err(error) => Err(error@),
    }
}

/// What was learnt as a list of texts, or the value of the error that came instead.
pub open spec fn texts_outcome(result: Result<Vec<String>, Error>) -> Result<
    Seq<Seq<char>>,
    ErrorView,
> {
    match result {
        Ok(list) => Ok(texts(list@)),
        Err(error) => Err(error@),
    }
}

impl Error {
    /// An error of the library's own.
    pub fn new(kind: ErrorKind, text: String) -> (error: Error)
        ensures
            error@ == plain_error(kind, text@),
    {
        Error { kind, text, cause: None }
    }

    /// A failure in the course of what `text` says, with the words for what it came from.
    pub fn with_cause(kind: ErrorKind, text: String, cause: String) -> (error: Error)
        ensures
            error@ == (ErrorView { kind, text: text@, cause: Some(cause@) }),
    {
        Error { kind, text, cause: Some(cause) }
    }
}

} // verus!
