//! Trusted construction of the final comparison table through comfy_table.
//! The table's abstract contents — a header and a sequence of rows of cell
//! texts — are named by two uninterpreted functions, and each wrapper states
//! over them what the crate's source shows the call does.

use vstd::prelude::*;

verus! {

/// `comfy_table::Table`, declared so that verified code can build one.
#[verifier::external_type_specification]
#[verifier::external_body]
pub struct ExTable(comfy_table::Table);

/// The header cells a table was given, as character sequences.
pub uninterp spec fn table_header(t: comfy_table::Table) -> Seq<Seq<char>>;

/// The content rows a table holds, in insertion order, each a sequence of
/// cell texts.
pub uninterp spec fn table_rows(t: comfy_table::Table) -> Seq<Seq<Seq<char>>>;

/// Relies on `comfy_table::Table::new`: a fresh table has no header and no
/// content rows.
#[verifier::external_body]
pub fn table_new() -> (t: comfy_table::Table)
    ensures
        table_header(t) == Seq::<Seq<char>>::empty(),
        table_rows(t) == Seq::<Seq<Seq<char>>>::empty(),
{
    comfy_table::Table::new()
}

/// Relies on `comfy_table::Table::set_header`: replaces the header row with
/// the given cells and leaves the content rows alone (it only autogenerates
/// columns, one per header cell).
#[verifier::external_body]
pub fn table_set_header(t: &mut comfy_table::Table, header: Vec<String>)
    ensures
        table_header(*final(t)) == header.deep_view(),
        table_rows(*final(t)) == table_rows(*old(t)),
{
    t.set_header(header);
}

/// Relies on `comfy_table::Table::add_row`: appends one content row, one
/// cell per string, and leaves the header alone.
#[verifier::external_body]
pub fn table_add_row(t: &mut comfy_table::Table, row: Vec<String>)
    ensures
        table_header(*final(t)) == table_header(*old(t)),
        table_rows(*final(t)) == table_rows(*old(t)).push(row.deep_view()),
{
    t.add_row(row);
}

/// Relies on `comfy_table::Table::column_mut` and
/// `comfy_table::Column::set_cell_alignment`: right-aligns the cells of one
/// column, touching neither the header nor the rows. The column exists
/// because `set_header` generates one per header cell.
#[verifier::external_body]
pub fn table_align_right(t: &mut comfy_table::Table, column: usize)
    requires
        column < table_header(*old(t)).len(),
    ensures
        table_header(*final(t)) == table_header(*old(t)),
        table_rows(*final(t)) == table_rows(*old(t)),
{
    if let Some(col) = t.column_mut(column) {
        col.set_cell_alignment(comfy_table::CellAlignment::Right);
    }
}

} // verus!
