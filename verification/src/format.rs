//! The file format as mathematics: what each part of a database file means.
//!
//! Every function here is a specification over the bytes of the file. The
//! decoder's contracts are stated in these terms.

use crate::bytes::{be_int, be_uint, bytes_at};
use crate::error::{DecodeError, SchemaField};
use crate::record::{CellView, PageView, SchemaView, ValueView};
use crate::varint::{varint_len, varint_value};
use vstd::prelude::*;
use vstd::utf8::{decode_utf8, decode_utf8_encode_utf8, encode_utf8, valid_utf8};

verus! {

/// The file header's length in bytes. The first page's own header follows it.
pub const FILE_HEADER_LEN: u64 = 100;

/// The length of a leaf page's header.
pub const PAGE_HEADER_LEN: u64 = 8;

/// The bytes that a varint read looks at, whatever the varint's own length.
pub const VARINT_WINDOW: u64 = 9;

/// The tag of a table-leaf page.
pub const TABLE_LEAF: u8 = 0x0d;

/// The bytes that must be there to open a file: the file header and the
/// twelve bytes after it.
pub const OPEN_LEN: usize = 112;

/// Where page `page_index` starts in the file. Pages count from one.
pub open spec fn page_offset(page_size: u16, page_index: int) -> int {
    (page_index - 1) * page_size
}

/// Where the page header of page `page_index` starts: at the page's start,
/// but for the first page, whose first hundred bytes are the file header.
pub open spec fn page_header_offset(page_size: u16, page_index: int) -> int {
    if page_index == 1 {
        FILE_HEADER_LEN as int
    } else {
        page_offset(page_size, page_index)
    }
}

/// The page size that the file header announces.
pub open spec fn header_page_size(data: Seq<u8>) -> u16 {
    be_uint(data.subrange(16, 18)) as u16
}

/// The cell count in the header of the first page, read as the number of
/// tables.
pub open spec fn header_table_count(data: Seq<u8>) -> u16 {
    be_uint(data.subrange(103, 105)) as u16
}

/// The varint read at `offset` through a window of nine bytes: its value and
/// the offset of the byte after it.
pub open spec fn varint_at(data: Seq<u8>, offset: int) -> Result<(u64, int), DecodeError> {
    match bytes_at(data, offset, VARINT_WINDOW as int) {
        Some(w) => Ok((varint_value(w) as u64, offset + varint_len(w))),
        None => Err(DecodeError::UnexpectedEof),
    }
}

/// The number of bytes that a value of the given serial type occupies.
pub open spec fn value_width(serial_type: u64) -> int {
    if serial_type == 1 {
        1
    } else if serial_type == 2 {
        2
    } else if serial_type == 3 {
        3
    } else if serial_type == 4 {
        4
    } else if serial_type == 5 {
        6
    } else if serial_type == 6 || serial_type == 7 {
        8
    } else if serial_type < 12 {
        0
    } else if serial_type % 2 == 0 {
        (serial_type - 12) / 2
    } else {
        (serial_type - 13) / 2
    }
}

/// Whether a value of the given serial type is text.
pub open spec fn is_text_type(serial_type: u64) -> bool {
    serial_type >= 13 && serial_type % 2 == 1
}

/// Whether a value of the given serial type is a blob.
pub open spec fn is_blob_type(serial_type: u64) -> bool {
    serial_type >= 12 && serial_type % 2 == 0
}

/// Whether the serial type names an integer width that is not decoded.
pub open spec fn is_unimplemented_type(serial_type: u64) -> bool {
    serial_type == 3 || serial_type == 5
}

/// The value that `bytes` hold under a serial type that is neither text nor
/// one of the widths that are not decoded. `bytes` has the type's width.
pub open spec fn plain_value(serial_type: u64, bytes: Seq<u8>) -> ValueView {
    if serial_type == 1 {
        ValueView::Int8 { val: be_int(bytes) as i8 }
    } else if serial_type == 2 {
        ValueView::Int16 { val: be_int(bytes) as i16 }
    } else if serial_type == 4 {
        ValueView::Int32 { val: be_int(bytes) as i32 }
    } else if serial_type == 6 {
        ValueView::Int64 { val: be_int(bytes) as i64 }
    } else if serial_type == 7 {
        ValueView::Double { bits: be_uint(bytes) as u64 }
    } else if serial_type == 8 {
        ValueView::Fake0
    } else if serial_type == 9 {
        ValueView::Fake1
    } else if serial_type >= 12 {
        ValueView::Blob { val: bytes }
    } else {
        ValueView::Null
    }
}

/// The value of the given serial type read at `offset`, and the offset of
/// the byte after it.
pub open spec fn value_at(data: Seq<u8>, serial_type: u64, offset: int) -> Result<
    (ValueView, int),
    DecodeError,
> {
    if is_unimplemented_type(serial_type) {
        Err(DecodeError::UnimplementedSerialType)
    } else {
        match bytes_at(data, offset, value_width(serial_type)) {
            None => Err(DecodeError::UnexpectedEof),
            Some(bytes) => if is_text_type(serial_type) {
                if valid_utf8(bytes) {
                    Ok(
                        (
                            ValueView::VarChar { val: decode_utf8(bytes) },
                            offset + value_width(serial_type),
                        ),
                    )
                } else {
                    Err(DecodeError::InvalidUtf8)
                }
            } else {
                Ok((plain_value(serial_type, bytes), offset + value_width(serial_type)))
            },
        }
    }
}

/// Every serial type but 3 and 5 decodes wherever the file holds the bytes
/// of the value and, for a text, those bytes are valid UTF-8. Types 3 and 5
/// are refused wherever they are met, and no other failure exists than
/// these three.
pub proof fn lemma_value_decoding_total(data: Seq<u8>, serial_type: u64, offset: int)
    ensures
        ({
            let found = value_at(data, serial_type, offset);
            let window = bytes_at(data, offset, value_width(serial_type));
            let refused = Err::<(ValueView, int), DecodeError>(
                DecodeError::UnimplementedSerialType,
            );
            let cut_short = Err::<(ValueView, int), DecodeError>(DecodeError::UnexpectedEof);
            let no_text = Err::<(ValueView, int), DecodeError>(DecodeError::InvalidUtf8);
            &&& is_unimplemented_type(serial_type) <==> found == refused
            &&& found is Ok <==> !is_unimplemented_type(serial_type) && window is Some && (
            is_text_type(serial_type) ==> valid_utf8(window->Some_0))
            &&& found == cut_short <==> !is_unimplemented_type(serial_type) && window is None
            &&& found == no_text <==> !is_unimplemented_type(serial_type) && window is Some
                && is_text_type(serial_type) && !valid_utf8(window->Some_0)
            &&& found matches Ok((_, next)) ==> next == offset + value_width(serial_type)
            &&& found is Err ==> found == refused || found == cut_short || found == no_text
        }),
{
}

/// A blob of serial type `t` has `(t - 12) / 2` bytes, and a text of serial
/// type `t` has `(t - 13) / 2` bytes in UTF-8. Blobs come from the even
/// types from 12 on and from no other, texts from the odd types from 13 on.
pub proof fn lemma_blob_text_length(data: Seq<u8>, serial_type: u64, offset: int)
    ensures
        ({
            let found = value_at(data, serial_type, offset);
            &&& found matches Ok((ValueView::Blob { val }, _)) ==> is_blob_type(serial_type)
                && val.len() == (serial_type - 12) / 2
            &&& found matches Ok((ValueView::VarChar { val }, _)) ==> is_text_type(serial_type)
                && encode_utf8(val).len() == (serial_type - 13) / 2
            &&& found matches Ok((value, _)) ==> (is_blob_type(serial_type) <==> value is Blob)
            &&& found matches Ok((value, _)) ==> (is_text_type(serial_type) <==> value is VarChar)
        }),
{
    if let Ok((ValueView::VarChar { val }, _)) = value_at(data, serial_type, offset) {
        let bytes = bytes_at(data, offset, value_width(serial_type))->Some_0;
        decode_utf8_encode_utf8(bytes);
    }
}

/// Page `n` starts `(n - 1) * page_size` bytes into the file, and so does
/// its page header, but on the first page, whose page header starts at byte
/// 100 whatever the page size.
pub proof fn lemma_page_offsets(page_size: u16, page_index: int)
    requires
        page_index >= 1,
    ensures
        page_offset(page_size, page_index) == (page_index - 1) * page_size,
        page_index > 1 ==> page_header_offset(page_size, page_index) == (page_index - 1)
            * page_size,
        page_index == 1 ==> page_header_offset(page_size, page_index) == 100 && page_offset(
            page_size,
            page_index,
        ) == 0,
{
}

/// `head` followed by what `tail` holds, or the error of `tail`.
pub open spec fn prepend<T>(head: Seq<T>, tail: Result<Seq<T>, DecodeError>) -> Result<
    Seq<T>,
    DecodeError,
> {
    match tail {
        Ok(s) => Ok(head + s),
        Err(e) => Err(e),
    }
}

/// Prepending `head` and then `x` is prepending `head` with `x` at its end.
pub proof fn lemma_prepend_push<T>(head: Seq<T>, x: T, tail: Result<Seq<T>, DecodeError>)
    ensures
        prepend(head, prepend(seq![x], tail)) == prepend(head.push(x), tail),
{
    if let Ok(more) = tail {
        assert(head + (seq![x] + more) =~= head.push(x) + more);
    }
}

/// Prepending nothing changes nothing, and a sequence prepended to an empty
/// one is that sequence.
pub proof fn lemma_prepend_empty<T>(head: Seq<T>, tail: Result<Seq<T>, DecodeError>)
    ensures
        prepend(Seq::<T>::empty(), tail) == tail,
        prepend(head, Ok(Seq::<T>::empty())) == Ok::<Seq<T>, DecodeError>(head),
{
    if let Ok(more) = tail {
        assert(Seq::<T>::empty() + more =~= more);
    }
    assert(head + Seq::<T>::empty() =~= head);
}

/// As [`prepend`], for a sequence that comes with an end offset.
pub open spec fn prepend_types(
    head: Seq<u64>,
    tail: Result<(Seq<u64>, int), DecodeError>,
) -> Result<(Seq<u64>, int), DecodeError> {
    match tail {
        Ok((s, end)) => Ok((head + s, end)),
        Err(e) => Err(e),
    }
}

/// The serial types of a record header: varints read one after the other
/// from `offset` on, until `span` bytes or more are used up. Comes with the
/// offset of the byte after the last of them.
pub open spec fn serial_types_at(data: Seq<u8>, offset: int, span: int) -> Result<
    (Seq<u64>, int),
    DecodeError,
>
    decreases (if span > 0 { span } else { 0 }),
{
    if span <= 0 {
        Ok((Seq::empty(), offset))
    } else {
        match varint_at(data, offset) {
            Err(e) => Err(e),
            Ok((serial_type, next)) => prepend_types(
                seq![serial_type],
                serial_types_at(data, next, span - (next - offset)),
            ),
        }
    }
}

/// The values of the given serial types, read one after the other from
/// `offset` on.
pub open spec fn values_at(data: Seq<u8>, types: Seq<u64>, offset: int) -> Result<
    Seq<ValueView>,
    DecodeError,
>
    decreases types.len(),
{
    if types.len() == 0 {
        Ok(Seq::empty())
    } else {
        match value_at(data, types[0], offset) {
            Err(e) => Err(e),
            Ok((value, next)) => prepend(seq![value], values_at(data, types.drop_first(), next)),
        }
    }
}

/// The cell that `cell_pointer` names on page `page_index`.
///
/// The cell starts `cell_pointer` bytes after the page's start. It holds
/// three varints (the payload size, the row id and the length of the record
/// header, which counts its own bytes), then the serial types, then the
/// values.
#[verifier::opaque]
pub open spec fn cell_at(data: Seq<u8>, page_size: u16, page_index: u32, cell_pointer: u16) -> Result<
    CellView,
    DecodeError,
> {
    let start = page_offset(page_size, page_index as int) + cell_pointer;
    match varint_at(data, start) {
        Err(e) => Err(e),
        Ok((_payload_size, row_id_at)) => match varint_at(data, row_id_at) {
            Err(e) => Err(e),
            Ok((row_id, header_at)) => match varint_at(data, header_at) {
                Err(e) => Err(e),
                Ok((header_len, types_at)) => if header_len < types_at - header_at {
                    Err(DecodeError::MalformedRecordHeader)
                } else {
                    match serial_types_at(data, types_at, header_len - (types_at - header_at)) {
                        Err(e) => Err(e),
                        Ok((types, values_start)) => match values_at(data, types, values_start) {
                            Err(e) => Err(e),
                            Ok(values) => Ok(CellView { row_id, payload: values }),
                        },
                    }
                },
            },
        },
    }
}

/// The cell pointers that a pointer array holds: two bytes each, big-endian.
pub open spec fn cell_pointers(bytes: Seq<u8>) -> Seq<u16> {
    Seq::new(bytes.len() / 2, |i: int| be_uint(bytes.subrange(2 * i, 2 * i + 2)) as u16)
}

/// The cells that the given pointers name on page `page_index`, in the
/// pointers' order.
pub open spec fn cells_at(data: Seq<u8>, page_size: u16, page_index: u32, pointers: Seq<u16>) -> Result<
    Seq<CellView>,
    DecodeError,
>
    decreases pointers.len(),
{
    if pointers.len() == 0 {
        Ok(Seq::empty())
    } else {
        match cell_at(data, page_size, page_index, pointers[0]) {
            Err(e) => Err(e),
            Ok(cell) => prepend(
                seq![cell],
                cells_at(data, page_size, page_index, pointers.drop_first()),
            ),
        }
    }
}

/// The page with index `page_index`.
///
/// Its header gives the page's kind in byte 0 and the number of cells in
/// bytes 3 and 4. On a table-leaf page the cell pointers follow the header.
pub open spec fn page_at(data: Seq<u8>, page_size: u16, page_index: u16) -> Result<
    PageView,
    DecodeError,
> {
    let header_at = page_header_offset(page_size, page_index as int);
    match bytes_at(data, header_at, PAGE_HEADER_LEN as int) {
        None => Err(DecodeError::UnexpectedEof),
        Some(header) => if header[0] != TABLE_LEAF {
            Err(DecodeError::UnsupportedPageType)
        } else {
            let num_cells = be_uint(header.subrange(3, 5));
            match bytes_at(data, header_at + PAGE_HEADER_LEN, 2 * num_cells as int) {
                None => Err(DecodeError::UnexpectedEof),
                Some(pointer_bytes) => match cells_at(
                    data,
                    page_size,
                    page_index as u32,
                    cell_pointers(pointer_bytes),
                ) {
                    Err(e) => Err(e),
                    Ok(cells) => Ok(PageView::TableLeaf { cells }),
                },
            }
        },
    }
}

/// The text in column `i` of a row, or the failure that names `field`.
pub open spec fn text_column(values: Seq<ValueView>, i: int, field: SchemaField) -> Result<
    Seq<char>,
    DecodeError,
> {
    if 0 <= i < values.len() && values[i] is VarChar {
        Ok(values[i]->VarChar_val)
    } else {
        Err(DecodeError::SchemaShape { field })
    }
}

/// An integer brought to 32 bits without sign: its value modulo two to the
/// 32.
pub open spec fn low_32_bits(v: int) -> u32 {
    (v % 0x1_0000_0000) as u32
}

/// The root page in column 3 of a row: an integer of one, two, four or eight
/// bytes, brought to 32 bits.
pub open spec fn root_page_column(values: Seq<ValueView>) -> Result<u32, DecodeError> {
    if values.len() <= 3 {
        Err(DecodeError::SchemaShape { field: SchemaField::RootPage })
    } else {
        match values[3] {
            ValueView::Int8 { val } => Ok(low_32_bits(val as int)),
            ValueView::Int16 { val } => Ok(low_32_bits(val as int)),
            ValueView::Int32 { val } => Ok(low_32_bits(val as int)),
            ValueView::Int64 { val } => Ok(low_32_bits(val as int)),
            _ => Err(DecodeError::SchemaShape { field: SchemaField::RootPage }),
        }
    }
}

/// The schema row that a cell of the catalog stands for. Columns 1 to 4 of
/// the cell give the name, the table's name, the root page and the defining
/// statement; the first of them that does not fit decides the failure.
pub open spec fn schema_row(cell: CellView) -> Result<SchemaView, DecodeError> {
    let values = cell.payload;
    match text_column(values, 1, SchemaField::Name) {
        Err(e) => Err(e),
        Ok(name) => match text_column(values, 2, SchemaField::TableName) {
            Err(e) => Err(e),
            Ok(tbl_name) => match root_page_column(values) {
                Err(e) => Err(e),
                Ok(root_page) => match text_column(values, 4, SchemaField::Sql) {
                    Err(e) => Err(e),
                    Ok(sql) => Ok(SchemaView { name, tbl_name, root_page, sql }),
                },
            },
        },
    }
}

/// The schema rows of the given cells, in order.
pub open spec fn schema_rows(cells: Seq<CellView>) -> Result<Seq<SchemaView>, DecodeError>
    decreases cells.len(),
{
    if cells.len() == 0 {
        Ok(Seq::empty())
    } else {
        match schema_row(cells[0]) {
            Err(e) => Err(e),
            Ok(row) => prepend(seq![row], schema_rows(cells.drop_first())),
        }
    }
}

/// The schema rows of a page that serves as the catalog.
pub open spec fn schema_of_page(page: PageView) -> Result<Seq<SchemaView>, DecodeError> {
    match page {
        PageView::TableLeaf { cells } => schema_rows(cells),
        _ => Err(DecodeError::CatalogNotTableLeaf),
    }
}

/// The schema catalog of a file: the schema rows of its first page.
pub open spec fn schema_table(data: Seq<u8>, page_size: u16) -> Result<
    Seq<SchemaView>,
    DecodeError,
> {
    match page_at(data, page_size, 1) {
        Err(e) => Err(e),
        Ok(page) => schema_of_page(page),
    }
}

} // verus!
