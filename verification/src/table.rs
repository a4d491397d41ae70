//! The relational table model: schema-typed rows of plain cells.

use vstd::prelude::*;

verus! {

/// One cell of a relational row.  Values that the schema types as numeric
/// or boolean are held as such; everything else is text.
#[derive(Debug, PartialEq, Eq)]
pub enum Cell {
    Null,
    Bool(bool),
    Int(i64),
    Text(Vec<u8>),
}

/// Ghost value of a cell.
pub enum CellV {
    Null,
    Bool(bool),
    Int(int),
    Text(Seq<u8>),
}

impl DeepView for Cell {
    type V = CellV;

    open spec fn deep_view(&self) -> CellV {
        match self {
            Cell::Null => CellV::Null,
            Cell::Bool(b) => CellV::Bool(*b),
            Cell::Int(i) => CellV::Int(*i as int),
            Cell::Text(t) => CellV::Text(t@),
        }
    }
}

/// Column affinity of a projected table.
#[derive(Debug, Clone, Copy, PartialEq, Eq, Structural)]
pub enum ColType {
    Integer,
    Boolean,
    Text,
}

/// One column of a table definition.
#[derive(Debug, PartialEq, Eq)]
pub struct ColumnDef {
    pub name: Vec<u8>,
    pub ctype: ColType,
}

/// Ghost value of a column definition.
pub struct ColumnDefV {
    pub name: Seq<u8>,
    pub ctype: ColType,
}

impl DeepView for ColumnDef {
    type V = ColumnDefV;

    open spec fn deep_view(&self) -> ColumnDefV {
        ColumnDefV { name: self.name@, ctype: self.ctype }
    }
}

/// A schema-typed table of rows, as decoded from a record.
#[derive(Debug, PartialEq, Eq)]
pub struct RelationalTable {
    pub table_name: Vec<u8>,
    pub version: u32,
    pub columns: Vec<ColumnDef>,
    pub rows: Vec<Vec<Cell>>,
}

/// Ghost value of a relational table.
pub struct TableV {
    pub table_name: Seq<u8>,
    pub version: int,
    pub columns: Seq<ColumnDefV>,
    pub rows: Seq<Seq<CellV>>,
}

impl DeepView for RelationalTable {
    type V = TableV;

    open spec fn deep_view(&self) -> TableV {
        TableV {
            table_name: self.table_name@,
            version: self.version as int,
            columns: self.columns.deep_view(),
            rows: self.rows.deep_view(),
        }
    }
}

impl RelationalTable {
    /// Every row is as wide as the column list.
    pub open spec fn wf(&self) -> bool {
        forall|i: int| 0 <= i < self.rows@.len() ==> (#[trigger] self.rows@[i])@.len()
            == self.columns@.len()
    }
}

pub fn clone_cell(c: &Cell) -> (r: Cell)
    ensures
        r.deep_view() == c.deep_view(),
{
    match c {
        Cell::Null => Cell::Null,
        Cell::Bool(b) => Cell::Bool(*b),
        Cell::Int(i) => Cell::Int(*i),
        Cell::Text(t) => Cell::Text(t.clone()),
    }
}

pub fn clone_row(row: &Vec<Cell>) -> (r: Vec<Cell>)
    ensures
        r.deep_view() == row.deep_view(),
        r@.len() == row@.len(),
{
    let mut r: Vec<Cell> = Vec::new();
    let n = row.len();
    let mut i: usize = 0;
    while i < n
        invariant
            n == row@.len(),
            i <= n,
            r@.len() == i,
            forall|j: int| 0 <= j < i ==> r@[j].deep_view() == row@[j].deep_view(),
        decreases n - i,
    {
        r.push(clone_cell(&row[i]));
        i += 1;
    }
    proof {
        assert(r.deep_view() =~= row.deep_view());
    }
    r
}

pub fn clone_rows(rows: &Vec<Vec<Cell>>) -> (r: Vec<Vec<Cell>>)
    ensures
        r.deep_view() == rows.deep_view(),
        r@.len() == rows@.len(),
        forall|j: int| 0 <= j < rows@.len() ==> r@[j]@.len() == (#[trigger] rows@[j])@.len(),
{
    let mut r: Vec<Vec<Cell>> = Vec::new();
    let n = rows.len();
    let mut i: usize = 0;
    while i < n
        invariant
            n == rows@.len(),
            i <= n,
            r@.len() == i,
            forall|j: int| 0 <= j < i ==> r@[j].deep_view() == rows@[j].deep_view(),
            forall|j: int| 0 <= j < i ==> r@[j]@.len() == (#[trigger] rows@[j])@.len(),
        decreases n - i,
    {
        r.push(clone_row(&rows[i]));
        i += 1;
    }
    proof {
        assert(r.deep_view() =~= rows.deep_view());
    }
    r
}

pub fn clone_column(c: &ColumnDef) -> (r: ColumnDef)
    ensures
        r.deep_view() == c.deep_view(),
{
    ColumnDef { name: c.name.clone(), ctype: c.ctype }
}

pub fn clone_columns(cols: &Vec<ColumnDef>) -> (r: Vec<ColumnDef>)
    ensures
        r.deep_view() == cols.deep_view(),
        r@.len() == cols@.len(),
{
    let mut r: Vec<ColumnDef> = Vec::new();
    let n = cols.len();
    let mut i: usize = 0;
    while i < n
        invariant
            n == cols@.len(),
            i <= n,
            r@.len() == i,
            forall|j: int| 0 <= j < i ==> r@[j].deep_view() == cols@[j].deep_view(),
        decreases n - i,
    {
        r.push(clone_column(&cols[i]));
        i += 1;
    }
    proof {
        assert(r.deep_view() =~= cols.deep_view());
    }
    r
}

pub fn clone_table(t: &RelationalTable) -> (r: RelationalTable)
    ensures
        r.deep_view() == t.deep_view(),
        t.wf() ==> r.wf(),
{
    let r = RelationalTable {
        table_name: t.table_name.clone(),
        version: t.version,
        columns: clone_columns(&t.columns),
        rows: clone_rows(&t.rows),
    };
    proof {
        assert(r.deep_view() =~= t.deep_view());
        if t.wf() {
            assert forall|i: int| 0 <= i < r.rows@.len() implies (#[trigger] r.rows@[i])@.len()
                == r.columns@.len() by {
                assert(r.rows@[i]@.len() == t.rows@[i]@.len());
                assert(r.columns.deep_view().len() == t.columns.deep_view().len());
            }
        }
    }
    r
}

} // verus!
