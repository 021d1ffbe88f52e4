//! The schema catalog: the rows of the first page, read as descriptions of
//! the tables of the database.

use crate::database::Database;
use crate::error::{DecodeError, SchemaField};
use crate::format::{
    lemma_prepend_empty, lemma_prepend_push, low_32_bits, prepend, root_page_column,
    schema_of_page, schema_row, schema_rows, schema_table, text_column,
};
use crate::record::{
    cells_view, schemas_view, CellView, Page, RecordValue, Schema, SchemaView, TableLeafCell,
};
use vstd::prelude::*;

verus! {

/// Brings a signed integer to 32 bits without sign: its value modulo two to
/// the 32.
pub fn to_low_32_bits(v: i64) -> (r: u32)
    ensures
        r == low_32_bits(v as int),
        0 <= v <= u32::MAX ==> r == v,
{
    if v >= 0 {
        (v % 0x1_0000_0000) as u32
    } else {
        let below: i64 = -(v + 1);
        (0xffff_ffff - below % 0x1_0000_0000) as u32
    }
}

/// The text in column `i` of a row, or the failure that names `field`.
fn text_at(values: &Vec<RecordValue>, i: usize, field: SchemaField) -> (r: Result<
    String,
    DecodeError,
>)
    ensures
        match r {
            Ok(text) => text_column(crate::record::values_view(values@), i as int, field) == Ok::<
                Seq<char>,
                DecodeError,
            >(text@),
            Err(e) => text_column(crate::record::values_view(values@), i as int, field) == Err::<
                Seq<char>,
                DecodeError,
            >(e),
        },
{
    if i < values.len() {
        match &values[i] {
            RecordValue::VarChar { val } => Ok(val.clone()),
            _ => Err(DecodeError::SchemaShape { field }),
        }
    } else {
        Err(DecodeError::SchemaShape { field })
    }
}

/// The root page in column 3 of a row.
fn root_page_at(values: &Vec<RecordValue>) -> (r: Result<u32, DecodeError>)
    ensures
        r == root_page_column(crate::record::values_view(values@)),
{
    if values.len() <= 3 {
        return Err(DecodeError::SchemaShape { field: SchemaField::RootPage });
    }
    match &values[3] {
        RecordValue::Int8 { val } => Ok(to_low_32_bits(*val as i64)),
        RecordValue::Int16 { val } => Ok(to_low_32_bits(*val as i64)),
        RecordValue::Int32 { val } => Ok(to_low_32_bits(*val as i64)),
        RecordValue::Int64 { val } => Ok(to_low_32_bits(*val)),
        _ => Err(DecodeError::SchemaShape { field: SchemaField::RootPage }),
    }
}

impl Schema {
    /// Reads a cell of the catalog as a schema row.
    ///
    /// Column 1 of the cell is the name, column 2 the table's name, column 3
    /// the root page and column 4 the defining statement. The three texts
    /// must be text values. The root page must be an integer of one, two,
    /// four or eight bytes, and is brought to 32 bits. The first column, in
    /// this order, that is missing or holds another kind of value decides
    /// the failure.
    pub fn from_cell(cell: &TableLeafCell) -> (r: Result<Schema, DecodeError>)
        ensures
            match r {
                Ok(row) => schema_row(cell@) == Ok::<SchemaView, DecodeError>(row@),
                Err(e) => schema_row(cell@) == Err::<SchemaView, DecodeError>(e),
            },
    {
        let values = &cell.payload.values;
        let name = match text_at(values, 1, SchemaField::Name) {
            Ok(text) => text,
            Err(e) => { return Err(e); },
        };
        let tbl_name = match text_at(values, 2, SchemaField::TableName) {
            Ok(text) => text,
            Err(e) => { return Err(e); },
        };
        let root_page = match root_page_at(values) {
            Ok(page) => page,
            Err(e) => { return Err(e); },
        };
        let sql = match text_at(values, 4, SchemaField::Sql) {
            Ok(text) => text,
            Err(e) => { return Err(e); },
        };
        Ok(Schema { name, tbl_name, root_page, sql })
    }

    /// Reads a page as the schema catalog: one schema row for each cell, in
    /// the page's order. Fails when the page is not a table-leaf page, and
    /// with the failure of the first cell that is no schema row.
    pub fn from_page(page: &Page) -> (r: Result<Vec<Schema>, DecodeError>)
        ensures
            match r {
                Ok(rows) => schema_of_page(page@) == Ok::<Seq<SchemaView>, DecodeError>(
                    schemas_view(rows@),
                ),
                Err(e) => schema_of_page(page@) == Err::<Seq<SchemaView>, DecodeError>(e),
            },
            page !is TableLeaf ==> r == Err::<Vec<Schema>, DecodeError>(
                DecodeError::CatalogNotTableLeaf,
            ),
            r matches Ok(rows) ==> page matches Page::TableLeaf { cells } && rows@.len()
                == cells@.len(),
    {
        match page {
            Page::TableLeaf { cells } => {
                let ghost all = cells_view(cells@);
                let mut rows: Vec<Schema> = Vec::new();
                let mut i: usize = 0;
                proof {
                    assert(all.skip(0) =~= all);
                    assert(schemas_view(rows@) =~= Seq::<SchemaView>::empty());
                    lemma_prepend_empty(Seq::<SchemaView>::empty(), schema_rows(all));
                }
                while i < cells.len()
                    invariant
                        i <= cells.len(),
                        rows@.len() == i,
                        all == cells_view(cells@),
                        page is TableLeaf,
                        schema_of_page(page@) == schema_rows(all),
                        schema_rows(all) == prepend(
                            schemas_view(rows@),
                            schema_rows(all.skip(i as int)),
                        ),
                    decreases cells.len() - i,
                {
                    let row = match Schema::from_cell(&cells[i]) {
                        Ok(row) => row,
                        Err(e) => {
                            proof {
                                assert(all.skip(i as int)[0] == cells@[i as int]@);
                            }
                            return Err(e);
                        },
                    };
                    proof {
                        assert(all.skip(i as int)[0] == cells@[i as int]@);
                        assert(all.skip(i as int).drop_first() =~= all.skip(i + 1));
                        assert(schemas_view(rows@.push(row)) =~= schemas_view(rows@).push(row@));
                        lemma_prepend_push(schemas_view(rows@), row@, schema_rows(all.skip(i + 1)));
                    }
                    rows.push(row);
                    i += 1;
                }
                proof {
                    assert(all.skip(i as int) =~= Seq::<CellView>::empty());
                    lemma_prepend_empty(schemas_view(rows@), Ok(Seq::<SchemaView>::empty()));
                }
                Ok(rows)
            },
            _ => Err(DecodeError::CatalogNotTableLeaf),
        }
    }
}

impl Database {
    /// Lists the schema catalog: the cells of the first page, each read as a
    /// schema row.
    ///
    /// Fails when the first page cannot be decoded and when one of its cells
    /// is no schema row; no part of the catalog is returned then.
    pub fn get_schema_table(&self) -> (r: Result<Vec<Schema>, DecodeError>)
        ensures
            match r {
                Ok(rows) => schema_table(self@.data, self@.page_size) == Ok::<
                    Seq<SchemaView>,
                    DecodeError,
                >(schemas_view(rows@)),
                Err(e) => schema_table(self@.data, self@.page_size) == Err::<
                    Seq<SchemaView>,
                    DecodeError,
                >(e),
            },
    {
        let first_page = match self.read_page(1) {
            Ok(page) => page,
            Err(e) => { return Err(e); },
        };
        Schema::from_page(&first_page)
    }
}

} // verus!
