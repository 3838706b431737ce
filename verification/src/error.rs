use vstd::prelude::*;

verus! {

/// Errors reported by the read and write paths.
///
/// Input errors (a tokenizer error, a truncated document) abort a parse;
/// sink errors abort a write; the structural-query errors of
/// [`ParseNodeError`] are recoverable and returned to the caller.
#[derive(Debug)]
pub enum Error {
    /// An I/O error described only by its kind.
    IOErrorKind(std::io::ErrorKind),
    /// An I/O error of the byte sink during writing, rendered to text.
    IOError(String),
    /// An error reported by the underlying tokenizer, rendered to text.
    XmlError(String),
    /// Rendered bytes were not valid UTF-8.
    Utf8Error(std::str::Utf8Error),
    /// Malformed attribute syntax reported by the tokenizer.
    AttributeXmlError(quick_xml::events::attributes::AttrError),
    /// The event stream ended before a complete tree was built.
    Eof,
    /// A recoverable structural-query error.
    ParseNodeError(ParseNodeError),
}

/// Recoverable errors raised by queries over an already-built tree.
#[derive(Debug)]
pub enum ParseNodeError {
    /// A node's name differed from the expected one.
    WrongName(String, String),
    /// No child with the given name exists in the named parent.
    MissingChild(String, String),
    /// No attribute with the given key exists in the named node.
    MissingAttribute(String, String),
}

} // verus!
