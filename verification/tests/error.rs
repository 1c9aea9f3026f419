use opengemini_engine::error::{Error, Result};

#[test]
fn test_error_display() {
    let err = Error::Wal("test wal error".to_string());
    assert_eq!(err.to_string(), "WAL error: test wal error");
    let err = Error::MemTable("test memtable error".to_string());
    assert_eq!(err.to_string(), "MemTable error: test memtable error");
    let err = Error::Tssp("test tssp error".to_string());
    assert_eq!(err.to_string(), "TSSP error: test tssp error");
    let err = Error::Compression("test compression error".to_string());
    assert_eq!(err.to_string(), "Compression error: test compression error");
}

#[test]
fn test_error_io() {
    let io_err = std::io::Error::new(std::io::ErrorKind::NotFound, "file not found");
    let err = Error::Io(io_err.to_string());
    assert!(err.to_string().contains("file not found"));
}

#[test]
fn test_error_invalid_argument() {
    let err = Error::InvalidArgument("invalid config".to_string());
    assert_eq!(err.to_string(), "Invalid argument: invalid config");
}

#[test]
fn test_error_not_found() {
    let err = Error::NotFound("key not found".to_string());
    assert_eq!(err.to_string(), "Not found: key not found");
}

#[test]
fn test_result_ok() {
    let result: Result<i32> = Ok(42);
    assert!(result.is_ok());
    assert_eq!(result.unwrap(), 42);
}

#[test]
fn test_result_err() {
    let result: Result<i32> = Err(Error::Wal("error".to_string()));
    assert!(result.is_err());
    assert!(result.unwrap_err().to_string().contains("WAL error"));
}

#[test]
fn error_text_of_each_kind() {
    assert_eq!(Error::Index("i".to_string()).to_string(), "Index error: i");
    assert_eq!(Error::Schema("s".to_string()).to_string(), "Schema error: s");
    assert_eq!(Error::Snapshot("n".to_string()).to_string(), "Snapshot error: n");
    assert_eq!(Error::Parse("p".to_string()).to_string(), "Parse error: p");
    assert_eq!(Error::Io("o".to_string()).to_string(), "IO error: o");
}
