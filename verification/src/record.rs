//! The values that the decoder hands out, and their mathematical views.

use vstd::prelude::*;

verus! {

/// One typed value of a record.
///
/// Integers are signed, in two's complement. A floating-point value is held
/// as the 64 bits of its IEEE-754 pattern.
#[derive(Debug, Clone, PartialEq, Eq)]
#[allow(inconsistent_fields)]
pub enum RecordValue {
    Null,
    Int8 { val: i8 },
    Int16 { val: i16 },
    Int24 { val: i32 },
    Int32 { val: i32 },
    Int48 { val: i64 },
    Int64 { val: i64 },
    /// The bit pattern of a 64-bit float.
    Double { bits: u64 },
    Blob { val: Vec<u8> },
    /// The integer constant 0, stored without bytes.
    Fake0,
    /// The integer constant 1, stored without bytes.
    Fake1,
    VarChar { val: String },
}

/// What a [`RecordValue`] stands for.
#[allow(inconsistent_fields)]
pub enum ValueView {
    Null,
    Int8 { val: i8 },
    Int16 { val: i16 },
    Int24 { val: i32 },
    Int32 { val: i32 },
    Int48 { val: i64 },
    Int64 { val: i64 },
    Double { bits: u64 },
    Blob { val: Seq<u8> },
    Fake0,
    Fake1,
    VarChar { val: Seq<char> },
}

impl View for RecordValue {
    type V = ValueView;

    open spec fn view(&self) -> ValueView {
        match *self {
            RecordValue::Null => ValueView::Null,
            RecordValue::Int8 { val } => ValueView::Int8 { val },
            RecordValue::Int16 { val } => ValueView::Int16 { val },
            RecordValue::Int24 { val } => ValueView::Int24 { val },
            RecordValue::Int32 { val } => ValueView::Int32 { val },
            RecordValue::Int48 { val } => ValueView::Int48 { val },
            RecordValue::Int64 { val } => ValueView::Int64 { val },
            RecordValue::Double { bits } => ValueView::Double { bits },
            RecordValue::Blob { val } => ValueView::Blob { val: val@ },
            RecordValue::Fake0 => ValueView::Fake0,
            RecordValue::Fake1 => ValueView::Fake1,
            RecordValue::VarChar { val } => ValueView::VarChar { val: val@ },
        }
    }
}

/// What a sequence of values stands for, value by value.
pub open spec fn values_view(values: Seq<RecordValue>) -> Seq<ValueView> {
    Seq::new(values.len(), |i: int| values[i]@)
}

/// What a sequence of cells stands for, cell by cell.
pub open spec fn cells_view(cells: Seq<TableLeafCell>) -> Seq<CellView> {
    Seq::new(cells.len(), |i: int| cells[i]@)
}

/// What a sequence of schema rows stands for, row by row.
pub open spec fn schemas_view(rows: Seq<Schema>) -> Seq<SchemaView> {
    Seq::new(rows.len(), |i: int| rows[i]@)
}

/// The values of one row, in column order.
#[derive(Debug, Clone, PartialEq, Eq)]
pub struct Record {
    pub values: Vec<RecordValue>,
}

impl View for Record {
    type V = Seq<ValueView>;

    open spec fn view(&self) -> Seq<ValueView> {
        values_view(self.values@)
    }
}

/// One cell of a table-leaf page: a row with its row id.
#[derive(Debug, Clone, PartialEq, Eq)]
pub struct TableLeafCell {
    pub row_id: u64,
    pub payload: Record,
}

/// What a [`TableLeafCell`] stands for.
pub struct CellView {
    pub row_id: u64,
    pub payload: Seq<ValueView>,
}

impl View for TableLeafCell {
    type V = CellView;

    open spec fn view(&self) -> CellView {
        CellView { row_id: self.row_id, payload: self.payload@ }
    }
}

/// A decoded page. Only table-leaf pages carry their content.
#[derive(Debug, Clone, PartialEq, Eq)]
pub enum Page {
    TableInterior {  },
    TableLeaf { cells: Vec<TableLeafCell> },
    IndexInterior {  },
    IndexLeaf {  },
}

/// What a [`Page`] stands for.
pub enum PageView {
    TableInterior,
    TableLeaf { cells: Seq<CellView> },
    IndexInterior,
    IndexLeaf,
}

impl View for Page {
    type V = PageView;

    open spec fn view(&self) -> PageView {
        match *self {
            Page::TableInterior {  } => PageView::TableInterior,
            Page::TableLeaf { cells } => PageView::TableLeaf { cells: cells_view(cells@) },
            Page::IndexInterior {  } => PageView::IndexInterior,
            Page::IndexLeaf {  } => PageView::IndexLeaf,
        }
    }
}

/// One row of the schema catalog.
#[derive(Debug, Clone, PartialEq, Eq)]
pub struct Schema {
    pub name: String,
    pub tbl_name: String,
    pub root_page: u32,
    pub sql: String,
}

/// What a [`Schema`] stands for.
pub struct SchemaView {
    pub name: Seq<char>,
    pub tbl_name: Seq<char>,
    pub root_page: u32,
    pub sql: Seq<char>,
}

impl View for Schema {
    type V = SchemaView;

    open spec fn view(&self) -> SchemaView {
        SchemaView {
            name: self.name@,
            tbl_name: self.tbl_name@,
            root_page: self.root_page,
            sql: self.sql@,
        }
    }
}

} // verus!
