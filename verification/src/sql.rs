//! Generation of the SQL text that projects tables into the store and
//! pulls their rows back out.
//!
//! A projected table is named after its relational table name; its first
//! two columns carry the identity of the source record (archive name and
//! file name), followed by the declared columns.  Numeric and boolean
//! cells keep numeric affinity; everything else is text.

use vstd::prelude::*;

use crate::table::Cell;
use crate::table::ColType;
use crate::table::ColumnDef;
use crate::table::RelationalTable;
use crate::text;

verus! {

use crate::table::CellV;
use crate::table::ColumnDefV;
use crate::table::TableV;
use vstd::string::StringSliceAdditionalSpecFns;

/// A double-quoted identifier, inner double quotes doubled.
pub open spec fn spec_quote_ident(name: Seq<u8>) -> Seq<u8> {
    seq![34u8] + text::spec_replace_all(name, seq![34u8], seq![34u8, 34u8]) + seq![34u8]
}

pub fn quote_ident(name: &Vec<u8>) -> (r: Vec<u8>)
    ensures
        r@ == spec_quote_ident(name@),
{
    let mut q: Vec<u8> = Vec::new();
    q.push(34);
    let mut qq: Vec<u8> = Vec::new();
    qq.push(34);
    qq.push(34);
    proof {
        assert(q@ =~= seq![34u8]);
        assert(qq@ =~= seq![34u8, 34u8]);
    }
    let escaped = text::replace_all(name, &q, &qq);
    let mut r: Vec<u8> = Vec::new();
    r.push(34);
    text::push_all(&mut r, &escaped);
    r.push(34);
    proof {
        assert(r@ =~= spec_quote_ident(name@));
    }
    r
}

/// A single-quoted text literal, inner single quotes doubled.
pub open spec fn spec_quote_text(v: Seq<u8>) -> Seq<u8> {
    seq![39u8] + text::spec_replace_all(v, seq![39u8], seq![39u8, 39u8]) + seq![39u8]
}

pub fn quote_text(v: &Vec<u8>) -> (r: Vec<u8>)
    ensures
        r@ == spec_quote_text(v@),
{
    let mut q: Vec<u8> = Vec::new();
    q.push(39);
    let mut qq: Vec<u8> = Vec::new();
    qq.push(39);
    qq.push(39);
    proof {
        assert(q@ =~= seq![39u8]);
        assert(qq@ =~= seq![39u8, 39u8]);
    }
    let escaped = text::replace_all(v, &q, &qq);
    let mut r: Vec<u8> = Vec::new();
    r.push(39);
    text::push_all(&mut r, &escaped);
    r.push(39);
    proof {
        assert(r@ =~= spec_quote_text(v@));
    }
    r
}

/// The SQL literal of one cell.
pub open spec fn spec_cell_literal(c: CellV) -> Seq<u8> {
    match c {
        CellV::Null => "NULL".spec_bytes(),
        CellV::Bool(b) => if b {
            "1".spec_bytes()
        } else {
            "0".spec_bytes()
        },
        CellV::Int(i) => text::spec_i64_dec(i),
        CellV::Text(t) => spec_quote_text(t),
    }
}

pub fn cell_literal(c: &Cell) -> (r: Vec<u8>)
    ensures
        r@ == spec_cell_literal(c.deep_view()),
{
    match c {
        Cell::Null => text::bytes_of("NULL"),
        Cell::Bool(b) => if *b {
            text::bytes_of("1")
        } else {
            text::bytes_of("0")
        },
        Cell::Int(i) => text::i64_to_dec(*i),
        Cell::Text(t) => quote_text(t),
    }
}

/// The declared SQL affinity of a column.
pub open spec fn spec_coltype_sql(t: ColType) -> Seq<u8> {
    match t {
        ColType::Integer => "INTEGER".spec_bytes(),
        ColType::Boolean => "INTEGER".spec_bytes(),
        ColType::Text => "TEXT".spec_bytes(),
    }
}

pub fn coltype_sql(t: ColType) -> (r: Vec<u8>)
    ensures
        r@ == spec_coltype_sql(t),
{
    match t {
        ColType::Integer => text::bytes_of("INTEGER"),
        ColType::Boolean => text::bytes_of("INTEGER"),
        ColType::Text => text::bytes_of("TEXT"),
    }
}

/// The declared-column part of a table definition, each with a leading
/// comma (the two identity columns come first).
pub open spec fn spec_create_cols(cols: Seq<ColumnDefV>) -> Seq<u8>
    decreases cols.len(),
{
    if cols.len() == 0 {
        Seq::empty()
    } else {
        spec_create_cols(cols.drop_last()) + ", ".spec_bytes() + spec_quote_ident(
            cols.last().name,
        ) + seq![32u8] + spec_coltype_sql(cols.last().ctype)
    }
}

/// The statement creating a projected table if it is not there yet.
pub open spec fn spec_create_sql(t: TableV) -> Seq<u8> {
    "CREATE TABLE IF NOT EXISTS ".spec_bytes() + spec_quote_ident(t.table_name) + " (".spec_bytes()
        + spec_quote_ident("__container".spec_bytes()) + " TEXT, ".spec_bytes() + spec_quote_ident(
        "__file".spec_bytes(),
    ) + " TEXT".spec_bytes() + spec_create_cols(t.columns) + ");\n".spec_bytes()
}

pub fn create_sql(t: &RelationalTable) -> (r: Vec<u8>)
    ensures
        r@ == spec_create_sql(t.deep_view()),
{
    let ghost cv = t.columns.deep_view();
    let mut r = text::bytes_of("CREATE TABLE IF NOT EXISTS ");
    let qname = quote_ident(&t.table_name);
    text::push_all(&mut r, &qname);
    let open_paren = text::bytes_of(" (");
    text::push_all(&mut r, &open_paren);
    let qc = quote_ident(&text::bytes_of("__container"));
    text::push_all(&mut r, &qc);
    let t1 = text::bytes_of(" TEXT, ");
    text::push_all(&mut r, &t1);
    let qf = quote_ident(&text::bytes_of("__file"));
    text::push_all(&mut r, &qf);
    let t2 = text::bytes_of(" TEXT");
    text::push_all(&mut r, &t2);
    let ghost head = r@;
    let n = t.columns.len();
    let mut i: usize = 0;
    proof {
        assert(cv.take(0) =~= Seq::<ColumnDefV>::empty());
        assert(head + spec_create_cols(cv.take(0)) =~= head);
    }
    while i < n
        invariant
            n == t.columns@.len(),
            cv == t.columns.deep_view(),
            cv.len() == n,
            i <= n,
            r@ == head + spec_create_cols(cv.take(i as int)),
        decreases n - i,
    {
        let comma = text::bytes_of(", ");
        text::push_all(&mut r, &comma);
        let c = &t.columns[i];
        proof {
            assert(c.deep_view() == cv[i as int]);
        }
        let qn = quote_ident(&c.name);
        text::push_all(&mut r, &qn);
        r.push(32);
        let ty = coltype_sql(c.ctype);
        text::push_all(&mut r, &ty);
        proof {
            assert(cv.take(i + 1).drop_last() =~= cv.take(i as int));
            assert(cv.take(i + 1).last() == cv[i as int]);
            assert(r@ =~= head + spec_create_cols(cv.take(i + 1)));
        }
        i += 1;
    }
    proof {
        assert(cv.take(n as int) =~= cv);
    }
    let close = text::bytes_of(");\n");
    text::push_all(&mut r, &close);
    proof {
        assert(r@ =~= spec_create_sql(t.deep_view()));
    }
    r
}

/// The statement clearing a source record's prior rows.
pub open spec fn spec_delete_sql(table_name: Seq<u8>, container: Seq<u8>, file: Seq<u8>) -> Seq<
    u8,
> {
    "DELETE FROM ".spec_bytes() + spec_quote_ident(table_name) + " WHERE ".spec_bytes()
        + spec_quote_ident("__container".spec_bytes()) + " = ".spec_bytes() + spec_quote_text(
        container,
    ) + " AND ".spec_bytes() + spec_quote_ident("__file".spec_bytes()) + " = ".spec_bytes()
        + spec_quote_text(file) + ";\n".spec_bytes()
}

pub fn delete_sql(table_name: &Vec<u8>, container: &Vec<u8>, file: &Vec<u8>) -> (r: Vec<u8>)
    ensures
        r@ == spec_delete_sql(table_name@, container@, file@),
{
    let mut r = text::bytes_of("DELETE FROM ");
    let qn = quote_ident(table_name);
    text::push_all(&mut r, &qn);
    let w = text::bytes_of(" WHERE ");
    text::push_all(&mut r, &w);
    let qc = quote_ident(&text::bytes_of("__container"));
    text::push_all(&mut r, &qc);
    let eq = text::bytes_of(" = ");
    text::push_all(&mut r, &eq);
    let tc = quote_text(container);
    text::push_all(&mut r, &tc);
    let a = text::bytes_of(" AND ");
    text::push_all(&mut r, &a);
    let qf = quote_ident(&text::bytes_of("__file"));
    text::push_all(&mut r, &qf);
    let eq2 = text::bytes_of(" = ");
    text::push_all(&mut r, &eq2);
    let tf = quote_text(file);
    text::push_all(&mut r, &tf);
    let sc = text::bytes_of(";\n");
    text::push_all(&mut r, &sc);
    proof {
        assert(r@ =~= spec_delete_sql(table_name@, container@, file@));
    }
    r
}

/// The cell part of one insert, each literal with a leading comma.
pub open spec fn spec_row_literals(row: Seq<CellV>) -> Seq<u8>
    decreases row.len(),
{
    if row.len() == 0 {
        Seq::empty()
    } else {
        spec_row_literals(row.drop_last()) + ", ".spec_bytes() + spec_cell_literal(row.last())
    }
}

/// The statement inserting one row, identity columns first.
pub open spec fn spec_insert_sql(
    table_name: Seq<u8>,
    container: Seq<u8>,
    file: Seq<u8>,
    row: Seq<CellV>,
) -> Seq<u8> {
    "INSERT INTO ".spec_bytes() + spec_quote_ident(table_name) + " VALUES (".spec_bytes()
        + spec_quote_text(container) + ", ".spec_bytes() + spec_quote_text(file)
        + spec_row_literals(row) + ");\n".spec_bytes()
}

pub fn insert_sql(table_name: &Vec<u8>, container: &Vec<u8>, file: &Vec<u8>, row: &Vec<Cell>) -> (r:
    Vec<u8>)
    ensures
        r@ == spec_insert_sql(table_name@, container@, file@, row.deep_view()),
{
    let ghost rv = row.deep_view();
    let mut r = text::bytes_of("INSERT INTO ");
    let qn = quote_ident(table_name);
    text::push_all(&mut r, &qn);
    let v = text::bytes_of(" VALUES (");
    text::push_all(&mut r, &v);
    let tc = quote_text(container);
    text::push_all(&mut r, &tc);
    let comma = text::bytes_of(", ");
    text::push_all(&mut r, &comma);
    let tf = quote_text(file);
    text::push_all(&mut r, &tf);
    let ghost head = r@;
    let n = row.len();
    let mut i: usize = 0;
    proof {
        assert(rv.take(0) =~= Seq::<CellV>::empty());
        assert(head + spec_row_literals(rv.take(0)) =~= head);
    }
    while i < n
        invariant
            n == row@.len(),
            rv == row.deep_view(),
            rv.len() == n,
            i <= n,
            r@ == head + spec_row_literals(rv.take(i as int)),
        decreases n - i,
    {
        let comma2 = text::bytes_of(", ");
        text::push_all(&mut r, &comma2);
        let lit = cell_literal(&row[i]);
        proof {
            assert(row@[i as int].deep_view() == rv[i as int]);
        }
        text::push_all(&mut r, &lit);
        proof {
            assert(rv.take(i + 1).drop_last() =~= rv.take(i as int));
            assert(rv.take(i + 1).last() == rv[i as int]);
            assert(r@ =~= head + spec_row_literals(rv.take(i + 1)));
        }
        i += 1;
    }
    proof {
        assert(rv.take(n as int) =~= rv);
    }
    let close = text::bytes_of(");\n");
    text::push_all(&mut r, &close);
    proof {
        assert(r@ =~= spec_insert_sql(table_name@, container@, file@, rv));
    }
    r
}

/// The insert statements of all rows, in order.
pub open spec fn spec_insert_rows(
    table_name: Seq<u8>,
    container: Seq<u8>,
    file: Seq<u8>,
    rows: Seq<Seq<CellV>>,
) -> Seq<u8>
    decreases rows.len(),
{
    if rows.len() == 0 {
        Seq::empty()
    } else {
        spec_insert_rows(table_name, container, file, rows.drop_last()) + spec_insert_sql(
            table_name,
            container,
            file,
            rows.last(),
        )
    }
}

/// The whole batch that projects one table: create it if needed, clear
/// this source record's rows, then insert every row.
pub open spec fn spec_project_table_sql(t: TableV, container: Seq<u8>, file: Seq<u8>) -> Seq<u8> {
    spec_create_sql(t) + spec_delete_sql(t.table_name, container, file) + spec_insert_rows(
        t.table_name,
        container,
        file,
        t.rows,
    )
}

pub fn project_table_sql(t: &RelationalTable, container: &Vec<u8>, file: &Vec<u8>) -> (r: Vec<u8>)
    ensures
        r@ == spec_project_table_sql(t.deep_view(), container@, file@),
{
    let ghost rowsv = t.rows.deep_view();
    let mut r = create_sql(t);
    let del = delete_sql(&t.table_name, container, file);
    text::push_all(&mut r, &del);
    let ghost head = r@;
    let n = t.rows.len();
    let mut i: usize = 0;
    proof {
        assert(rowsv.take(0) =~= Seq::<Seq<CellV>>::empty());
        assert(head + spec_insert_rows(t.table_name@, container@, file@, rowsv.take(0)) =~= head);
    }
    while i < n
        invariant
            n == t.rows@.len(),
            rowsv == t.rows.deep_view(),
            rowsv.len() == n,
            i <= n,
            r@ == head + spec_insert_rows(t.table_name@, container@, file@, rowsv.take(i as int)),
        decreases n - i,
    {
        let ins = insert_sql(&t.table_name, container, file, &t.rows[i]);
        proof {
            assert(t.rows@[i as int].deep_view() == rowsv[i as int]);
        }
        text::push_all(&mut r, &ins);
        proof {
            assert(rowsv.take(i + 1).drop_last() =~= rowsv.take(i as int));
            assert(rowsv.take(i + 1).last() == rowsv[i as int]);
            assert(r@ =~= head + spec_insert_rows(
                t.table_name@,
                container@,
                file@,
                rowsv.take(i + 1),
            ));
        }
        i += 1;
    }
    proof {
        assert(rowsv.take(n as int) =~= rowsv);
        assert(r@ =~= spec_project_table_sql(t.deep_view(), container@, file@));
    }
    r
}

/// The cast column list of a select, comma separated.
pub open spec fn spec_select_cols(cols: Seq<ColumnDefV>) -> Seq<u8>
    decreases cols.len(),
{
    if cols.len() == 0 {
        Seq::empty()
    } else if cols.len() == 1 {
        "CAST(".spec_bytes() + spec_quote_ident(cols[0].name) + " AS TEXT)".spec_bytes()
    } else {
        spec_select_cols(cols.drop_last()) + ", CAST(".spec_bytes() + spec_quote_ident(
            cols.last().name,
        ) + " AS TEXT)".spec_bytes()
    }
}

/// The query pulling a source record's current rows back, every cell as
/// text, in insertion (rowid) order.
pub open spec fn spec_select_sql(t: TableV, container: Seq<u8>, file: Seq<u8>) -> Seq<u8> {
    "SELECT ".spec_bytes() + spec_select_cols(t.columns) + " FROM ".spec_bytes() + spec_quote_ident(
        t.table_name,
    ) + " WHERE ".spec_bytes() + spec_quote_ident("__container".spec_bytes()) + " = ".spec_bytes()
        + spec_quote_text(container) + " AND ".spec_bytes() + spec_quote_ident(
        "__file".spec_bytes(),
    ) + " = ".spec_bytes() + spec_quote_text(file) + " ORDER BY rowid;\n".spec_bytes()
}

pub fn select_sql(t: &RelationalTable, container: &Vec<u8>, file: &Vec<u8>) -> (r: Vec<u8>)
    ensures
        r@ == spec_select_sql(t.deep_view(), container@, file@),
{
    let ghost cv = t.columns.deep_view();
    let mut r = text::bytes_of("SELECT ");
    let ghost head = r@;
    let n = t.columns.len();
    let mut i: usize = 0;
    proof {
        assert(cv.take(0) =~= Seq::<ColumnDefV>::empty());
        assert(head + spec_select_cols(cv.take(0)) =~= head);
    }
    while i < n
        invariant
            n == t.columns@.len(),
            cv == t.columns.deep_view(),
            cv.len() == n,
            i <= n,
            r@ == head + spec_select_cols(cv.take(i as int)),
        decreases n - i,
    {
        if i > 0 {
            let comma = text::bytes_of(", CAST(");
            text::push_all(&mut r, &comma);
        } else {
            let cast = text::bytes_of("CAST(");
            text::push_all(&mut r, &cast);
        }
        let c = &t.columns[i];
        proof {
            assert(c.deep_view() == cv[i as int]);
        }
        let qn = quote_ident(&c.name);
        text::push_all(&mut r, &qn);
        let astext = text::bytes_of(" AS TEXT)");
        text::push_all(&mut r, &astext);
        proof {
            assert(cv.take(i + 1).drop_last() =~= cv.take(i as int));
            assert(cv.take(i + 1).last() == cv[i as int]);
            if i == 0 {
                assert(cv.take(1).len() == 1);
                assert(cv.take(1)[0] == cv[0]);
                assert(r@ =~= head + spec_select_cols(cv.take(1)));
            } else {
                assert(r@ =~= head + spec_select_cols(cv.take(i + 1)));
            }
        }
        i += 1;
    }
    proof {
        assert(cv.take(n as int) =~= cv);
    }
    let f = text::bytes_of(" FROM ");
    text::push_all(&mut r, &f);
    let qn = quote_ident(&t.table_name);
    text::push_all(&mut r, &qn);
    let w = text::bytes_of(" WHERE ");
    text::push_all(&mut r, &w);
    let qc = quote_ident(&text::bytes_of("__container"));
    text::push_all(&mut r, &qc);
    let eq = text::bytes_of(" = ");
    text::push_all(&mut r, &eq);
    let tc = quote_text(container);
    text::push_all(&mut r, &tc);
    let a = text::bytes_of(" AND ");
    text::push_all(&mut r, &a);
    let qf = quote_ident(&text::bytes_of("__file"));
    text::push_all(&mut r, &qf);
    let eq2 = text::bytes_of(" = ");
    text::push_all(&mut r, &eq2);
    let tf = quote_text(file);
    text::push_all(&mut r, &tf);
    let ob = text::bytes_of(" ORDER BY rowid;\n");
    text::push_all(&mut r, &ob);
    proof {
        assert(r@ =~= spec_select_sql(t.deep_view(), container@, file@));
    }
    r
}

/// The batch that clears every schema object of the snapshot before a
/// rebuild.
pub open spec fn spec_reset_sql() -> Seq<u8> {
    "PRAGMA writable_schema = 1;\ndelete from sqlite_master where type in ('table', 'index', 'trigger');\nPRAGMA writable_schema = 0;\nVACUUM;\nPRAGMA INTEGRITY_CHECK;\n".spec_bytes()
}

pub fn reset_sql() -> (r: Vec<u8>)
    ensures
        r@ == spec_reset_sql(),
{
    text::bytes_of(
        "PRAGMA writable_schema = 1;\ndelete from sqlite_master where type in ('table', 'index', 'trigger');\nPRAGMA writable_schema = 0;\nVACUUM;\nPRAGMA INTEGRITY_CHECK;\n",
    )
}

} // verus!
