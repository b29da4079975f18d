//! Result tables: typed columns, rows of cells, and the cursor that hands the
//! rows out a chunk at a time.

use vstd::prelude::*;
use vstd::string::*;

use crate::text::{chars_of, decimal, decimal_text, trim, trimmed};

verus! {

/// One output cell. `Double` holds the IEEE 754 bits of the number.
#[derive(Clone, Debug, PartialEq, Eq)]
pub enum Cell {
    Null,
    Str(String),
    Int(i64),
    Double(u64),
    Bool(bool),
}

/// What a cell holds.
pub enum CellView {
    Null,
    Str(Seq<char>),
    Int(i64),
    Double(u64),
    Bool(bool),
}

impl View for Cell {
    type V = CellView;

    open spec fn view(&self) -> CellView {
        match self {
            Cell::Null => CellView::Null,
            Cell::Str(s) => CellView::Str(s@),
            Cell::Int(n) => CellView::Int(*n),
            Cell::Double(d) => CellView::Double(*d),
            Cell::Bool(b) => CellView::Bool(*b),
        }
    }
}

/// The physical type of an output column.
#[derive(Clone, Copy, Debug, PartialEq, Eq, Structural)]
pub enum ColType {
    Varchar,
    BigInt,
    Double,
    Boolean,
}

/// Whether a cell may stand in a column of the given type: a null anywhere, any
/// other value only in the column of its own type.
pub open spec fn fits(cell: CellView, ty: ColType) -> bool {
    match cell {
        CellView::Null => true,
        CellView::Str(_) => ty == ColType::Varchar,
        CellView::Int(_) => ty == ColType::BigInt,
        CellView::Double(_) => ty == ColType::Double,
        CellView::Bool(_) => ty == ColType::Boolean,
    }
}

/// One output column.
#[derive(Clone, Debug, PartialEq, Eq)]
pub struct Column {
    pub name: String,
    pub ty: ColType,
}

/// A result: its columns, and its rows in order.
#[derive(Clone, Debug, PartialEq, Eq)]
pub struct Table {
    pub columns: Vec<Column>,
    pub rows: Vec<Vec<Cell>>,
}

/// The names and types of a list of columns.
pub open spec fn columns_view(columns: Seq<Column>) -> Seq<(Seq<char>, ColType)> {
    Seq::new(columns.len(), |i: int| (columns[i].name@, columns[i].ty))
}

/// The values of a row.
pub open spec fn row_view(row: Seq<Cell>) -> Seq<CellView> {
    Seq::new(row.len(), |i: int| row[i]@)
}

/// The values of a list of rows.
pub open spec fn rows_view(rows: Seq<Vec<Cell>>) -> Seq<Seq<CellView>> {
    Seq::new(rows.len(), |i: int| row_view(rows[i]@))
}

/// Whether every row has one cell for each column, and each cell fits its column.
pub open spec fn well_typed(
    columns: Seq<(Seq<char>, ColType)>,
    rows: Seq<Seq<CellView>>,
) -> bool {
    forall|r: int|
        0 <= r < rows.len() ==> {
            &&& (#[trigger] rows[r]).len() == columns.len()
            &&& forall|c: int| 0 <= c < columns.len() ==> fits(#[trigger] rows[r][c], columns[c].1)
        }
}

/// A column of the given name and type.
pub fn column(name: &str, ty: ColType) -> (r: Column)
    ensures
        r.name@ == name@,
        r.ty == ty,
{
    Column { name: name.to_owned(), ty }
}

/// A text cell.
pub fn str_cell(s: &str) -> (r: Cell)
    ensures
        r@ == CellView::Str(s@),
{
    Cell::Str(s.to_owned())
}

/// The cell of an optional text: null where there is none.
pub open spec fn opt_cell(t: Option<Seq<char>>) -> CellView {
    match t {
        Some(s) => CellView::Str(s),
        None => CellView::Null,
    }
}

/// The cell of a text that is null where it is empty.
pub open spec fn nonempty_cell(s: Seq<char>) -> CellView {
    if s.len() == 0 {
        CellView::Null
    } else {
        CellView::Str(s)
    }
}

/// The cell of an optional text.
pub fn option_cell(t: &Option<String>) -> (r: Cell)
    ensures
        r@ == opt_cell(crate::text::opt_text(*t)),
        match *t {
            Some(s) => r@ == CellView::Str(s@),
            None => r@ is Null,
        },
{
    match t {
        Some(s) => str_cell(s.as_str()),
        None => Cell::Null,
    }
}

/// The cell of a text that is null where it is empty.
pub fn text_or_null(s: &str) -> (r: Cell)
    ensures
        r@ == nonempty_cell(s@),
        s@.len() == 0 ==> r@ is Null,
        s@.len() > 0 ==> r@ == CellView::Str(s@),
{
    if s.is_empty() {
        Cell::Null
    } else {
        str_cell(s)
    }
}

/// Whether a text can be handed on as a C string: one that holds a NUL cannot, and
/// is stored as null rather than cut short.
pub fn storable(s: &str) -> (r: bool)
    ensures
        r == !s@.contains('\0'),
{
    let cs: Vec<char> = chars_of(s);
    let mut i: usize = 0;
    while i < cs.len()
        invariant
            i <= cs.len(),
            cs@ == s@,
            forall|j: int| 0 <= j < i ==> s@[j] != '\0',
        decreases cs.len() - i,
    {
        if cs[i] == '\0' {
            assert(s@[i as int] == '\0');
            return false;
        }
        i = i + 1;
    }
    true
}

/// How many rows come next: all that are left behind `start`, up to `cap`.
pub open spec fn chunk_len(total: nat, start: nat, cap: nat) -> nat {
    let left = if start < total {
        (total - start) as nat
    } else {
        0
    };
    if left < cap {
        left
    } else {
        cap
    }
}

/// The number of rows in the next chunk; none ends the scan.
pub fn next_chunk(total: usize, start: usize, cap: usize) -> (n: usize)
    ensures
        n == chunk_len(total as nat, start as nat, cap as nat),
        n <= cap,
        start <= total ==> start + n <= total,
        start >= total ==> n == 0,
        n < cap ==> start + n >= total,
{
    let left: usize = if start < total {
        total - start
    } else {
        0
    };
    if left < cap {
        left
    } else {
        cap
    }
}

/// The rows of a result on their way out, and how many have gone.
#[derive(Clone, Debug)]
pub struct RowsState {
    pub columns: usize,
    pub rows: Vec<Vec<Cell>>,
    pub cursor: usize,
}

impl RowsState {
    /// No more rows have gone than there are, and each row has its columns.
    pub open spec fn wf(&self) -> bool {
        &&& self.cursor <= self.rows@.len()
        &&& forall|i: int|
            0 <= i < self.rows@.len() ==> (#[trigger] self.rows@[i])@.len() == self.columns
    }

    /// The state before the first chunk.
    pub fn new(columns: usize, rows: Vec<Vec<Cell>>) -> (r: RowsState)
        requires
            forall|i: int| 0 <= i < rows@.len() ==> (#[trigger] rows@[i])@.len() == columns,
        ensures
            r.wf(),
            r.columns == columns,
            r.rows == rows,
            r.cursor == 0,
    {
        RowsState { columns, rows, cursor: 0 }
    }

    /// Takes the next chunk of at most `cap` rows: where it starts, and how many
    /// rows it has.
    pub fn scan(&mut self, cap: usize) -> (r: (usize, usize))
        requires
            old(self).wf(),
        ensures
            final(self).wf(),
            final(self).rows == old(self).rows,
            final(self).columns == old(self).columns,
            r.0 == old(self).cursor,
            r.1 == chunk_len(old(self).rows@.len(), old(self).cursor as nat, cap as nat),
            r.1 <= cap,
            r.1 < cap ==> r.0 + r.1 == old(self).rows@.len(),
            final(self).cursor == old(self).cursor + r.1,
    {
        let start: usize = self.cursor;
        let n: usize = next_chunk(self.rows.len(), start, cap);
        self.cursor = start + n;
        (start, n)
    }
}

/// All that a scan hands out from `start` on, chunk by chunk, until a chunk is
/// empty.
pub open spec fn streamed<T>(rows: Seq<T>, start: nat, cap: nat) -> Seq<T>
    decreases rows.len() - start,
{
    let n = chunk_len(rows.len(), start, cap);
    if n == 0 {
        Seq::empty()
    } else {
        rows.subrange(start as int, (start + n) as int) + streamed(rows, start + n, cap)
    }
}

/// A scan in chunks of any size hands out every row, once and in order.
pub proof fn streaming_keeps_every_row<T>(rows: Seq<T>, start: nat, cap: nat)
    requires
        cap > 0,
        start <= rows.len(),
    ensures
        streamed(rows, start, cap) == rows.skip(start as int),
    decreases rows.len() - start,
{
    let n = chunk_len(rows.len(), start, cap);
    if n == 0 {
        assert(rows.skip(start as int) =~= Seq::empty());
    } else {
        streaming_keeps_every_row(rows, start + n, cap);
        assert(rows.subrange(start as int, (start + n) as int) + rows.skip((start + n) as int) =~= rows.skip(
            start as int,
        ));
    }
}

/// The value of a positional parameter: `None` where the caller gave none, and
/// `Some(None)` where what was given is no text.
pub fn param_str(index: usize, given: Option<Option<String>>) -> (r: Result<String, String>)
    ensures
        match given {
            Some(Some(s)) => r == Ok::<String, String>(s),
            Some(None) => r is Err && r->Err_0@ == "positional parameter "@ + decimal(index as nat)
                + " is not a string"@,
            None => r is Err && r->Err_0@ == "missing positional parameter "@ + decimal(
                index as nat,
            ),
        },
{
    match given {
        Some(Some(s)) => Ok(s),
        Some(None) => {
            let mut m = "positional parameter ".to_owned();
            m.append(decimal_text(index as u64).as_str());
            m.append(" is not a string");
            Err(m)
        },
        None => {
            let mut m = "missing positional parameter ".to_owned();
            m.append(decimal_text(index as u64).as_str());
            Err(m)
        },
    }
}

/// The value of a named parameter: none where it is absent or blank.
pub fn named_str(given: Option<String>) -> (r: Option<String>)
    ensures
        r == match given {
            Some(s) => if trimmed(s@).len() == 0 {
                None
            } else {
                Some(s)
            },
            None => None,
        },
{
    match given {
        Some(s) => {
            if trim(s.as_str()).is_empty() {
                None
            } else {
                Some(s)
            }
        },
        None => None,
    }
}

/// A chunk is as large as it may be: it holds the cap, or all that is left.
pub proof fn a_chunk_is_as_large_as_it_may_be(total: nat, start: nat, cap: nat)
    ensures
        chunk_len(total, start, cap) <= cap,
        start <= total ==> start + chunk_len(total, start, cap) <= total,
        start >= total ==> chunk_len(total, start, cap) == 0,
        chunk_len(total, start, cap) < cap ==> start + chunk_len(total, start, cap) >= total,
{
}

/// The cell of a text that may be absent, and of one that may be empty, is null just
/// where it is, and else the text.
pub proof fn a_text_cell_is_its_text(s: Seq<char>)
    ensures
        opt_cell(Some(s)) == CellView::Str(s),
        opt_cell(None) is Null,
        s.len() > 0 ==> nonempty_cell(s) == CellView::Str(s),
        s.len() == 0 ==> nonempty_cell(s) is Null,
{
}

} // verus!
