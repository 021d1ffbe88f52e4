//! Errors reported by the decoder.

use vstd::prelude::*;

verus! {

/// The column of a schema row that did not hold the expected kind of value.
#[derive(Debug, Clone, Copy, PartialEq, Eq, Structural)]
pub enum SchemaField {
    /// The object's name, second column of the row.
    Name,
    /// The name of the table the object belongs to, third column.
    TableName,
    /// The root page number, fourth column.
    RootPage,
    /// The defining statement, fifth column.
    Sql,
}

/// Why a decode operation failed.
#[derive(Debug, Clone, Copy, PartialEq, Eq, Structural)]
pub enum DecodeError {
    /// The file is too short to hold the file header and the header of the
    /// first page.
    TruncatedHeader,
    /// A read reached past the end of the file.
    UnexpectedEof,
    /// The byte window ended before the varint in it did.
    TruncatedVarint,
    /// The page is not a table-leaf page.
    UnsupportedPageType,
    /// The serial type names an integer width that is not decoded
    /// (three-byte and six-byte integers).
    UnimplementedSerialType,
    /// A text value is not valid UTF-8.
    InvalidUtf8,
    /// A record header announces a length shorter than the bytes that encode
    /// that very length.
    MalformedRecordHeader,
    /// A column of a schema row holds an unexpected kind of value, or is
    /// missing.
    SchemaShape { field: SchemaField },
    /// The page handed over as the schema catalog is not a table-leaf page.
    CatalogNotTableLeaf,
}

} // verus!
