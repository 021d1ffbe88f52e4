//! The database handle and the decoder proper.

use crate::bytes::{
    lemma_be_int_bound, lemma_be_uint_bound, lemma_pow256_values, read_be_int, read_be_uint,
    read_exact_at,
};
use crate::error::DecodeError;
use crate::format::{
    cell_at, cell_pointers, cells_at, header_page_size, header_table_count, is_blob_type,
    is_text_type, is_unimplemented_type, lemma_prepend_empty, lemma_prepend_push, page_at,
    page_header_offset, page_offset, prepend, prepend_types, serial_types_at, value_at,
    value_width, values_at, varint_at, FILE_HEADER_LEN, OPEN_LEN, PAGE_HEADER_LEN, TABLE_LEAF,
    VARINT_WINDOW,
};
use crate::record::{
    cells_view, values_view, CellView, Page, PageView, Record, RecordValue, TableLeafCell,
    ValueView,
};
use crate::varint::handle_varint;
use vstd::prelude::*;
use vstd::slice::{slice_subrange, slice_to_vec};
use vstd::utf8::{decode_utf8, decode_utf8_encode_utf8, encode_utf8, valid_utf8};

verus! {

/// Turns bytes into a string with `String::from_utf8` of the standard
/// library.
///
/// Trusted: the result is a string exactly when the bytes are valid UTF-8,
/// and the string is then the text that the bytes encode.
#[verifier::external_body]
fn string_from_utf8(bytes: Vec<u8>) -> (r: Option<String>)
    ensures
        r is Some <==> valid_utf8(bytes@),
        r matches Some(s) ==> s@ == decode_utf8(bytes@),
{
    match String::from_utf8(bytes) {
        Ok(s) => Some(s),
        Err(_) => None,
    }
}

/// A database file held in memory, with the geometry that its header gives.
pub struct Database {
    page_size: u16,
    num_pages: u16,
    data: Vec<u8>,
}

/// What a [`Database`] stands for.
pub struct DatabaseView {
    pub page_size: u16,
    pub num_pages: u16,
    pub data: Seq<u8>,
}

impl View for Database {
    type V = DatabaseView;

    closed spec fn view(&self) -> DatabaseView {
        DatabaseView { page_size: self.page_size, num_pages: self.num_pages, data: self.data@ }
    }
}

impl Database {
    /// The geometry is the one that the header announces.
    #[verifier::type_invariant]
    spec fn geometry_from_header(self) -> bool {
        &&& self.data@.len() >= OPEN_LEN
        &&& self.page_size == header_page_size(self.data@)
        &&& self.num_pages == header_table_count(self.data@)
    }

    /// Opens a database from the bytes of its file.
    ///
    /// The page size stands in bytes 16 and 17 of the file header. The
    /// number of tables is the cell count of the first page, bytes 3 and 4
    /// of the page header that follows the file header. Fails when the file
    /// is too short to hold both headers.
    pub fn new(data: Vec<u8>) -> (r: Result<Database, DecodeError>)
        ensures
            r is Ok <==> data@.len() >= OPEN_LEN,
            r matches Ok(db) ==> db@.data == data@ && db@.page_size == header_page_size(data@)
                && db@.num_pages == header_table_count(data@),
            r matches Err(e) ==> e == DecodeError::TruncatedHeader,
    {
        if data.len() < OPEN_LEN {
            return Err(DecodeError::TruncatedHeader);
        }
        let size_bytes = slice_subrange(data.as_slice(), 16, 18);
        let count_bytes = slice_subrange(data.as_slice(), 103, 105);
        proof {
            lemma_pow256_values();
            lemma_be_uint_bound(size_bytes@);
            lemma_be_uint_bound(count_bytes@);
        }
        let page_size = read_be_uint(size_bytes) as u16;
        let num_pages = read_be_uint(count_bytes) as u16;
        Ok(Database { page_size, num_pages, data })
    }

    /// The size of a page in bytes, as the file header gives it.
    pub fn page_size(&self) -> (r: u16)
        ensures
            r == self@.page_size,
            r == header_page_size(self@.data),
    {
        proof {
            use_type_invariant(self);
        }
        self.page_size
    }

    /// The number of tables, as the header of the first page gives it.
    pub fn num_pages(&self) -> (r: u16)
        ensures
            r == self@.num_pages,
            r == header_table_count(self@.data),
    {
        proof {
            use_type_invariant(self);
        }
        self.num_pages
    }

    /// The bytes of the file.
    pub fn data(&self) -> (r: &[u8])
        ensures
            r@ == self@.data,
            r@.len() >= OPEN_LEN,
    {
        proof {
            use_type_invariant(self);
        }
        self.data.as_slice()
    }

    /// The offset in the file at which page `page_index` starts.
    pub fn page_offset(&self, page_index: u32) -> (r: u64)
        requires
            page_index >= 1,
        ensures
            r == page_offset(self@.page_size, page_index as int),
            r == (page_index - 1) * self@.page_size,
            r <= 0xffff_0000_0000,
    {
        let index = (page_index - 1) as u64;
        let size = self.page_size as u64;
        assert(index * size <= 0xffff_ffff * 0xffff) by (nonlinear_arith)
            requires
                index <= 0xffff_ffff,
                size <= 0xffff,
        ;
        index * size
    }

    /// The offset in the file at which the page header of page `page_index`
    /// starts: the page's own offset, but 100 for the first page, whatever
    /// the page size.
    pub fn page_header_offset(&self, page_index: u32) -> (r: u64)
        requires
            page_index >= 1,
        ensures
            r == page_header_offset(self@.page_size, page_index as int),
            page_index == 1 ==> r == 100,
            page_index > 1 ==> r == (page_index - 1) * self@.page_size,
    {
        if page_index == 1 {
            FILE_HEADER_LEN
        } else {
            self.page_offset(page_index)
        }
    }

    /// Decodes the varint at `offset` and returns it with the offset of the
    /// byte after it.
    ///
    /// The read looks at nine bytes whatever the varint's length, and fails
    /// when the file ends before the ninth.
    pub fn read_varint(&self, offset: u64) -> (r: Result<(u64, u64), DecodeError>)
        ensures
            match r {
                Ok((value, next)) => varint_at(self@.data, offset as int) == Ok::<
                    (u64, int),
                    DecodeError,
                >((value, next as int)),
                Err(e) => varint_at(self@.data, offset as int) == Err::<(u64, int), DecodeError>(e),
            },
            r matches Ok((_, next)) ==> offset < next <= offset + 9 && offset + 9
                <= self@.data.len() <= usize::MAX,
            r matches Err(e) ==> e == DecodeError::UnexpectedEof,
    {
        match read_exact_at(self.data.as_slice(), offset, VARINT_WINDOW) {
            None => Err(DecodeError::UnexpectedEof),
            Some(window) => match handle_varint(window) {
                Ok((value, len)) => Ok((value, offset + len as u64)),
                Err(e) => Err(e),
            },
        }
    }

    /// Decodes the value of the given serial type at `offset` and returns it
    /// with the offset of the byte after it.
    ///
    /// Serial types 0, 10 and 11 give `Null`; 1, 2, 4 and 6 a signed integer
    /// of one, two, four and eight bytes; 7 a float of eight bytes; 8 and 9
    /// the constants 0 and 1. An even type from 12 on gives a blob of
    /// `(type - 12) / 2` bytes, an odd type from 13 on a text of
    /// `(type - 13) / 2` bytes. Types 3 and 5 are refused. Fails when the
    /// file ends before the value does, and when a text is not valid UTF-8.
    pub fn read_record_value(&self, serial_type: u64, offset: u64) -> (r: Result<
        (RecordValue, u64),
        DecodeError,
    >)
        ensures
            match r {
                Ok((value, next)) => value_at(self@.data, serial_type, offset as int) == Ok::<
                    (ValueView, int),
                    DecodeError,
                >((value@, next as int)),
                Err(e) => value_at(self@.data, serial_type, offset as int) == Err::<
                    (ValueView, int),
                    DecodeError,
                >(e),
            },
            r matches Ok((_, next)) ==> next == offset + value_width(serial_type),
            r matches Ok((RecordValue::Blob { val }, _)) ==> is_blob_type(serial_type) && val@.len()
                == (serial_type - 12) / 2,
            r matches Ok((RecordValue::VarChar { val }, _)) ==> is_text_type(serial_type)
                && encode_utf8(val@).len() == (serial_type - 13) / 2,
            is_unimplemented_type(serial_type) ==> r == Err::<(RecordValue, u64), DecodeError>(
                DecodeError::UnimplementedSerialType,
            ),
    {
        if serial_type == 3 || serial_type == 5 {
            return Err(DecodeError::UnimplementedSerialType);
        }
        let width: u64 = if serial_type == 1 {
            1
        } else if serial_type == 2 {
            2
        } else if serial_type == 4 {
            4
        } else if serial_type == 6 || serial_type == 7 {
            8
        } else if serial_type < 12 {
            0
        } else if serial_type % 2 == 0 {
            (serial_type - 12) / 2
        } else {
            (serial_type - 13) / 2
        };
        let bytes = match read_exact_at(self.data.as_slice(), offset, width) {
            None => { return Err(DecodeError::UnexpectedEof); },
            Some(bytes) => bytes,
        };
        let next = offset + width;
        proof {
            lemma_pow256_values();
            lemma_be_uint_bound(bytes@);
            if bytes@.len() > 0 {
                lemma_be_int_bound(bytes@);
            }
        }
        let value = if serial_type == 1 {
            RecordValue::Int8 { val: read_be_int(bytes) as i8 }
        } else if serial_type == 2 {
            RecordValue::Int16 { val: read_be_int(bytes) as i16 }
        } else if serial_type == 4 {
            RecordValue::Int32 { val: read_be_int(bytes) as i32 }
        } else if serial_type == 6 {
            RecordValue::Int64 { val: read_be_int(bytes) }
        } else if serial_type == 7 {
            RecordValue::Double { bits: read_be_uint(bytes) }
        } else if serial_type == 8 {
            RecordValue::Fake0
        } else if serial_type == 9 {
            RecordValue::Fake1
        } else if serial_type < 12 {
            RecordValue::Null
        } else if serial_type % 2 == 0 {
            RecordValue::Blob { val: slice_to_vec(bytes) }
        } else {
            match string_from_utf8(slice_to_vec(bytes)) {
                None => { return Err(DecodeError::InvalidUtf8); },
                Some(text) => {
                    proof {
                        decode_utf8_encode_utf8(bytes@);
                    }
                    RecordValue::VarChar { val: text }
                },
            }
        };
        Ok((value, next))
    }

    /// Reads the serial types of a record header: varints from `offset` on,
    /// until `span` bytes or more are used up. Returns them with the offset
    /// of the byte after the last.
    pub fn read_serial_types(&self, offset: u64, span: u64) -> (r: Result<
        (Vec<u64>, u64),
        DecodeError,
    >)
        ensures
            match r {
                Ok((types, end)) => serial_types_at(self@.data, offset as int, span as int) == Ok::<
                    (Seq<u64>, int),
                    DecodeError,
                >((types@, end as int)),
                Err(e) => serial_types_at(self@.data, offset as int, span as int) == Err::<
                    (Seq<u64>, int),
                    DecodeError,
                >(e),
            },
    {
        let mut serial_types: Vec<u64> = Vec::new();
        let mut tally: u64 = 0;
        let mut cursor = offset;
        proof {
            if let Ok((all, _)) = serial_types_at(self@.data, offset as int, span as int) {
                assert(serial_types@ + all =~= all);
            }
        }
        while tally < span
            invariant
                cursor == offset + tally,
                tally == 0 || cursor <= self@.data.len() <= usize::MAX,
                serial_types_at(self@.data, offset as int, span as int) == prepend_types(
                    serial_types@,
                    serial_types_at(self@.data, cursor as int, span - tally),
                ),
            decreases (if tally < span { span - tally } else { 0 }),
        {
            let (serial_type, next) = match self.read_varint(cursor) {
                Ok(found) => found,
                Err(e) => { return Err(e); },
            };
            proof {
                let rest = serial_types_at(self@.data, next as int, span - tally - (next - cursor));
                if let Ok((more, _)) = rest {
                    assert(serial_types@ + (seq![serial_type] + more) =~= serial_types@.push(
                        serial_type,
                    ) + more);
                }
            }
            serial_types.push(serial_type);
            tally = tally + (next - cursor);
            cursor = next;
        }
        proof {
            assert(serial_types@ + Seq::<u64>::empty() =~= serial_types@);
        }
        Ok((serial_types, cursor))
    }

    /// Reads the values of the given serial types, one after the other from
    /// `offset` on.
    pub fn read_values(&self, serial_types: &Vec<u64>, offset: u64) -> (r: Result<
        Vec<RecordValue>,
        DecodeError,
    >)
        ensures
            match r {
                Ok(values) => values_at(self@.data, serial_types@, offset as int) == Ok::<
                    Seq<ValueView>,
                    DecodeError,
                >(values_view(values@)),
                Err(e) => values_at(self@.data, serial_types@, offset as int) == Err::<
                    Seq<ValueView>,
                    DecodeError,
                >(e),
            },
            r matches Ok(values) ==> values@.len() == serial_types@.len(),
    {
        let mut values: Vec<RecordValue> = Vec::new();
        let mut cursor = offset;
        let mut i: usize = 0;
        proof {
            assert(serial_types@.skip(0) =~= serial_types@);
            if let Ok(all) = values_at(self@.data, serial_types@, offset as int) {
                assert(values_view(values@) + all =~= all);
            }
        }
        while i < serial_types.len()
            invariant
                i <= serial_types.len(),
                values@.len() == i,
                values_at(self@.data, serial_types@, offset as int) == prepend(
                    values_view(values@),
                    values_at(self@.data, serial_types@.skip(i as int), cursor as int),
                ),
            decreases serial_types.len() - i,
        {
            let (value, next) = match self.read_record_value(serial_types[i], cursor) {
                Ok(found) => found,
                Err(e) => { return Err(e); },
            };
            proof {
                assert(serial_types@.skip(i as int).drop_first() =~= serial_types@.skip(i + 1));
                let rest = values_at(self@.data, serial_types@.skip(i + 1), next as int);
                if let Ok(more) = rest {
                    assert(values_view(values@) + (seq![value@] + more) =~= values_view(
                        values@.push(value),
                    ) + more);
                }
            }
            values.push(value);
            cursor = next;
            i += 1;
        }
        proof {
            assert(values_view(values@) + Seq::<ValueView>::empty() =~= values_view(values@));
        }
        Ok(values)
    }

    /// Decodes the cell that `cell_pointer` names on page `page_index`.
    ///
    /// The cell starts `cell_pointer` bytes after the start of the page. Its
    /// payload size, row id and record header length are varints; the serial
    /// types fill the rest of the record header; the values follow them, one
    /// for each serial type. Fails when a read reaches past the end of the
    /// file, when the record header is shorter than its own length field,
    /// and when a value cannot be decoded.
    pub fn read_table_leaf_cell(&self, page_index: u32, cell_pointer: u16) -> (r: Result<
        TableLeafCell,
        DecodeError,
    >)
        requires
            page_index >= 1,
        ensures
            match r {
                Ok(cell) => cell_at(self@.data, self@.page_size, page_index, cell_pointer) == Ok::<
                    CellView,
                    DecodeError,
                >(cell@),
                Err(e) => cell_at(self@.data, self@.page_size, page_index, cell_pointer) == Err::<
                    CellView,
                    DecodeError,
                >(e),
            },
    {
        reveal(cell_at);
        let start = self.page_offset(page_index) + cell_pointer as u64;
        let row_id_at = match self.read_varint(start) {
            Ok((_payload_size, next)) => next,
            Err(e) => { return Err(e); },
        };
        let (row_id, header_at) = match self.read_varint(row_id_at) {
            Ok(found) => found,
            Err(e) => { return Err(e); },
        };
        let (header_len, types_at) = match self.read_varint(header_at) {
            Ok(found) => found,
            Err(e) => { return Err(e); },
        };
        if header_len < types_at - header_at {
            return Err(DecodeError::MalformedRecordHeader);
        }
        let span = header_len - (types_at - header_at);
        let (serial_types, values_at) = match self.read_serial_types(types_at, span) {
            Ok(found) => found,
            Err(e) => { return Err(e); },
        };
        let values = match self.read_values(&serial_types, values_at) {
            Ok(values) => values,
            Err(e) => { return Err(e); },
        };
        Ok(TableLeafCell { row_id, payload: Record { values } })
    }

    /// Decodes the cells that a pointer array names on page `page_index`, in
    /// the pointers' order. Each pointer is two bytes, big-endian; a last
    /// odd byte is not looked at.
    pub fn read_cells(&self, page_index: u32, pointer_bytes: &[u8]) -> (r: Result<
        Vec<TableLeafCell>,
        DecodeError,
    >)
        requires
            page_index >= 1,
        ensures
            match r {
                Ok(cells) => cells_at(
                    self@.data,
                    self@.page_size,
                    page_index,
                    cell_pointers(pointer_bytes@),
                ) == Ok::<Seq<CellView>, DecodeError>(cells_view(cells@)),
                Err(e) => cells_at(
                    self@.data,
                    self@.page_size,
                    page_index,
                    cell_pointers(pointer_bytes@),
                ) == Err::<Seq<CellView>, DecodeError>(e),
            },
            r matches Ok(cells) ==> cells@.len() == pointer_bytes@.len() / 2,
    {
        let ghost pointers = cell_pointers(pointer_bytes@);
        let count = pointer_bytes.len() / 2;
        let mut cells: Vec<TableLeafCell> = Vec::new();
        let mut i: usize = 0;
        proof {
            assert(pointers.skip(0) =~= pointers);
            assert(cells_view(cells@) =~= Seq::<CellView>::empty());
            lemma_prepend_empty(
                Seq::<CellView>::empty(),
                cells_at(self@.data, self@.page_size, page_index, pointers),
            );
        }
        while i < count
            invariant
                page_index >= 1,
                i <= count == pointer_bytes@.len() / 2,
                pointer_bytes@.len() <= usize::MAX,
                cells@.len() == i,
                pointers == cell_pointers(pointer_bytes@),
                cells_at(self@.data, self@.page_size, page_index, pointers) == prepend(
                    cells_view(cells@),
                    cells_at(self@.data, self@.page_size, page_index, pointers.skip(i as int)),
                ),
            decreases count - i,
        {
            let entry = slice_subrange(pointer_bytes, 2 * i, 2 * i + 2);
            proof {
                lemma_pow256_values();
                lemma_be_uint_bound(entry@);
            }
            let pointer = read_be_uint(entry) as u16;
            let cell = match self.read_table_leaf_cell(page_index, pointer) {
                Ok(cell) => cell,
                Err(e) => {
                    proof {
                        assert(pointers.skip(i as int)[0] == pointer);
                    }
                    return Err(e);
                },
            };
            proof {
                assert(pointers.skip(i as int)[0] == pointer);
                assert(pointers.skip(i as int).drop_first() =~= pointers.skip(i + 1));
                assert(cells_view(cells@.push(cell)) =~= cells_view(cells@).push(cell@));
                lemma_prepend_push(
                    cells_view(cells@),
                    cell@,
                    cells_at(self@.data, self@.page_size, page_index, pointers.skip(i + 1)),
                );
            }
            cells.push(cell);
            i += 1;
        }
        proof {
            assert(pointers.skip(i as int) =~= Seq::<u16>::empty());
            lemma_prepend_empty(cells_view(cells@), Ok(Seq::<CellView>::empty()));
        }
        Ok(cells)
    }

    /// Decodes page `page_index`.
    ///
    /// The page header gives the page's kind and the number of its cells. On
    /// a table-leaf page the cell pointers follow the header, two bytes
    /// each, and each names one cell; the cells come in the pointers' order.
    /// A page of any other kind is refused. Fails also when a read reaches
    /// past the end of the file and when a cell cannot be decoded.
    pub fn read_page(&self, page_index: u16) -> (r: Result<Page, DecodeError>)
        requires
            page_index >= 1,
        ensures
            match r {
                Ok(page) => page_at(self@.data, self@.page_size, page_index) == Ok::<
                    PageView,
                    DecodeError,
                >(page@),
                Err(e) => page_at(self@.data, self@.page_size, page_index) == Err::<
                    PageView,
                    DecodeError,
                >(e),
            },
            r matches Ok(page) ==> page is TableLeaf,
    {
        let header_at = self.page_header_offset(page_index as u32);
        let header = match read_exact_at(self.data.as_slice(), header_at, PAGE_HEADER_LEN) {
            None => { return Err(DecodeError::UnexpectedEof); },
            Some(header) => header,
        };
        let page_type = header[0];
        let count_bytes = slice_subrange(header, 3, 5);
        proof {
            lemma_pow256_values();
            lemma_be_uint_bound(count_bytes@);
        }
        let num_cells = read_be_uint(count_bytes);
        if page_type != TABLE_LEAF {
            return Err(DecodeError::UnsupportedPageType);
        }
        let pointer_bytes = match read_exact_at(
            self.data.as_slice(),
            header_at + PAGE_HEADER_LEN,
            2 * num_cells,
        ) {
            None => { return Err(DecodeError::UnexpectedEof); },
            Some(bytes) => bytes,
        };
        match self.read_cells(page_index as u32, pointer_bytes) {
            Ok(cells) => Ok(Page::TableLeaf { cells }),
            Err(e) => Err(e),
        }
    }
}

} // verus!
