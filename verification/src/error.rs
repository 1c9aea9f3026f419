//! The engine's error type.

use vstd::prelude::*;
use crate::text::push_str;

verus! {

/// What went wrong, by subsystem, with a message.
#[derive(Debug)]
pub enum Error {
    Wal(String),
    MemTable(String),
    Tssp(String),
    Compression(String),
    Index(String),
    Schema(String),
    Snapshot(String),
    Parse(String),
    Io(String),
    InvalidArgument(String),
    NotFound(String),
}

/// The engine's result type.
pub type Result<T> = std::result::Result<T, Error>;

/// The words that introduce each kind of error, and its message.
pub open spec fn error_text(e: Error) -> Seq<char> {
    match e {
        Error::Wal(m) => "WAL error: "@ + m@,
        Error::MemTable(m) => "MemTable error: "@ + m@,
        Error::Tssp(m) => "TSSP error: "@ + m@,
        Error::Compression(m) => "Compression error: "@ + m@,
        Error::Index(m) => "Index error: "@ + m@,
        Error::Schema(m) => "Schema error: "@ + m@,
        Error::Snapshot(m) => "Snapshot error: "@ + m@,
        Error::Parse(m) => "Parse error: "@ + m@,
        Error::Io(m) => "IO error: "@ + m@,
        Error::InvalidArgument(m) => "Invalid argument: "@ + m@,
        Error::NotFound(m) => "Not found: "@ + m@,
    }
}

impl Error {
    /// The error as text: the words of its kind, then its message.
    pub fn to_string(&self) -> (r: String)
        ensures
            r@ == error_text(*self),
    {
        let (head, m) = match self {
            Error::Wal(m) => ("WAL error: ", m),
            Error::MemTable(m) => ("MemTable error: ", m),
            Error::Tssp(m) => ("TSSP error: ", m),
            Error::Compression(m) => ("Compression error: ", m),
            Error::Index(m) => ("Index error: ", m),
            Error::Schema(m) => ("Schema error: ", m),
            Error::Snapshot(m) => ("Snapshot error: ", m),
            Error::Parse(m) => ("Parse error: ", m),
            Error::Io(m) => ("IO error: ", m),
            Error::InvalidArgument(m) => ("Invalid argument: ", m),
            Error::NotFound(m) => ("Not found: ", m),
        };
        let mut s = head.to_owned();
        push_str(&mut s, m.as_str());
        s
    }
}

} // verus!
