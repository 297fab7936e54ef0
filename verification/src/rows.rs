//! The in-memory row model for the operations the engine has no plain-SQL
//! form for: reversing row order, concatenating sources, and removing
//! duplicate rows.
//!
//! A table is the column names and the rows in scan order; a row is one cell
//! per column. Cells carry the plain values the operations compare and move;
//! two null cells count as equal, the convention the engine uses when rows
//! are compared whole for deduplication.

use vstd::prelude::*;
use vstd::string::*;
use vstd::seq_lib::group_seq_properties;

use crate::text::str_eq;
use crate::utils::DfKitError;

verus! {

broadcast use group_seq_properties;

/// One cell of a row.
#[derive(Debug, PartialEq, Eq)]
pub enum Cell {
    Int(i64),
    Str(String),
    Null,
}

/// The mathematical value of a cell.
pub enum CellValue {
    Int(int),
    Str(Seq<char>),
    Null,
}

impl View for Cell {
    type V = CellValue;

    open spec fn view(&self) -> CellValue {
        match self {
            Cell::Int(i) => CellValue::Int(*i as int),
            Cell::Str(s) => CellValue::Str(s@),
            Cell::Null => CellValue::Null,
        }
    }
}

impl DeepView for Cell {
    type V = CellValue;

    open spec fn deep_view(&self) -> CellValue {
        self.view()
    }
}

impl Clone for Cell {
    fn clone(&self) -> (r: Self)
        ensures
            r == *self,
    {
        match self {
            Cell::Int(i) => Cell::Int(*i),
            Cell::Str(s) => Cell::Str(s.clone()),
            Cell::Null => Cell::Null,
        }
    }
}

/// Cell equality as deduplication sees it: by value, two nulls equal.
pub fn cell_eq(a: &Cell, b: &Cell) -> (r: bool)
    ensures
        r == (a.deep_view() == b.deep_view()),
{
    match (a, b) {
        (Cell::Int(x), Cell::Int(y)) => *x == *y,
        (Cell::Str(x), Cell::Str(y)) => str_eq(x.as_str(), y.as_str()),
        (Cell::Null, Cell::Null) => true,
        _ => false,
    }
}

/// Row equality: the same cell values in the same order.
pub fn row_eq(a: &Vec<Cell>, b: &Vec<Cell>) -> (r: bool)
    ensures
        r == (a.deep_view() == b.deep_view()),
{
    if a.len() != b.len() {
        proof {
            assert(a.deep_view().len() != b.deep_view().len());
        }
        return false;
    }
    let mut i: usize = 0;
    while i < a.len()
        invariant
            a@.len() == b@.len(),
            i <= a@.len(),
            forall|k: int| 0 <= k < i ==> a.deep_view()[k] == b.deep_view()[k],
        decreases a@.len() - i,
    {
        proof {
            assert(a.deep_view()[i as int] == a@[i as int].deep_view());
            assert(b.deep_view()[i as int] == b@[i as int].deep_view());
        }
        if !cell_eq(&a[i], &b[i]) {
            return false;
        }
        i += 1;
    }
    proof {
        assert(a.deep_view() =~= b.deep_view());
    }
    true
}

fn clone_row(row: &Vec<Cell>) -> (r: Vec<Cell>)
    ensures
        r@ == row@,
{
    let mut out: Vec<Cell> = Vec::new();
    let mut i: usize = 0;
    while i < row.len()
        invariant
            i <= row@.len(),
            out@ == row@.take(i as int),
        decreases row@.len() - i,
    {
        out.push(row[i].clone());
        proof {
            assert(out@ =~= row@.take(i + 1));
        }
        i += 1;
    }
    proof {
        assert(row@.take(row@.len() as int) =~= row@);
    }
    out
}

/// A materialized table: the column names and the rows in scan order.
#[derive(Debug, PartialEq, Eq)]
pub struct Table {
    pub schema: Vec<String>,
    pub rows: Vec<Vec<Cell>>,
}

impl Table {
    /// The rows as mathematical values, in their scan order.
    pub open spec fn rows_view(self) -> Seq<Seq<CellValue>> {
        self.rows.deep_view()
    }

    /// The column names as character sequences.
    pub open spec fn schema_view(self) -> Seq<Seq<char>> {
        self.schema.deep_view()
    }

    /// Every row is exactly as wide as the schema.
    pub open spec fn well_formed(self) -> bool {
        forall|i: int|
            0 <= i < self.rows_view().len() ==> (#[trigger] self.rows_view()[i]).len()
                == self.schema_view().len()
    }

    /// The table with its rows in reverse order and the schema unchanged.
    ///
    /// The engine yields rows in scan order; every row becomes its own unit
    /// and the whole sequence is inverted, so a zero-row table stays a
    /// zero-row table with the same schema.
    pub fn reversed(self) -> (r: Table)
        ensures
            r.schema_view() == self.schema_view(),
            r.rows_view() == self.rows_view().reverse(),
            self.well_formed() ==> r.well_formed(),
    {
        let Table { schema, rows } = self;
        let ghost orig = rows.deep_view();
        let ghost n = orig.len();
        let mut out: Vec<Vec<Cell>> = Vec::new();
        let mut i: usize = rows.len();
        while i > 0
            invariant
                n == orig.len(),
                rows.deep_view() == orig,
                rows@.len() == n,
                i <= n,
                out@.len() == n - i,
                forall|k: int|
                    0 <= k < out@.len() ==> out.deep_view()[k] == orig[n - 1 - k],
            decreases i,
        {
            i -= 1;
            let ghost out_prev = out.deep_view();
            let copy = clone_row(&rows[i]);
            proof {
                assert(copy.deep_view() == rows@[i as int].deep_view());
                assert(rows@[i as int].deep_view() == orig[i as int]);
            }
            out.push(copy);
            proof {
                assert(out.deep_view() =~= out_prev.push(orig[i as int]));
            }
        }
        let r = Table { schema, rows: out };
        proof {
            assert(r.rows_view() =~= orig.reverse());
            assert(orig == self.rows_view());
            if self.well_formed() {
                assert forall|k: int|
                    0 <= k < r.rows_view().len() implies (#[trigger] r.rows_view()[k]).len()
                    == r.schema_view().len() by {
                    assert(r.rows_view()[k] == self.rows_view()[n - 1 - k]);
                    assert(self.rows_view()[n - 1 - k].len() == self.schema_view().len());
                }
            }
        }
        r
    }
}

/// `s` with every row removed that occurs earlier in `s`: the first
/// occurrence of each row value is kept, in place.
pub open spec fn dedup_seq(s: Seq<Seq<CellValue>>) -> Seq<Seq<CellValue>>
    decreases s.len(),
{
    if s.len() == 0 {
        s
    } else {
        let rest = dedup_seq(s.drop_last());
        if s.drop_last().contains(s.last()) {
            rest
        } else {
            rest.push(s.last())
        }
    }
}

/// Deduplication keeps exactly the row values of its input: a row value
/// occurs in the output if and only if it occurs in the input.
pub proof fn lemma_dedup_complete(s: Seq<Seq<CellValue>>, x: Seq<CellValue>)
    ensures
        dedup_seq(s).contains(x) <==> s.contains(x),
    decreases s.len(),
{
    if s.len() > 0 {
        lemma_dedup_complete(s.drop_last(), x);
        if s.contains(x) {
            let i = choose|i: int| 0 <= i < s.len() && s[i] == x;
            if i < s.len() - 1 {
                assert(s.drop_last()[i] == x);
            }
            if !s.drop_last().contains(s.last()) && s.last() == x {
                assert(dedup_seq(s).last() == x);
            }
        }
        if dedup_seq(s).contains(x) {
            let rest = dedup_seq(s.drop_last());
            let i = choose|i: int| 0 <= i < dedup_seq(s).len() && dedup_seq(s)[i] == x;
            if i < rest.len() {
                assert(rest[i] == x);
                assert(s.drop_last().contains(x));
                let j = choose|j: int| 0 <= j < s.drop_last().len() && s.drop_last()[j] == x;
                assert(s[j] == x);
            } else {
                assert(s.last() == x);
            }
        }
    }
}

/// Deduplication leaves no two equal rows behind.
pub proof fn lemma_dedup_no_duplicates(s: Seq<Seq<CellValue>>)
    ensures
        dedup_seq(s).no_duplicates(),
    decreases s.len(),
{
    if s.len() > 0 {
        lemma_dedup_no_duplicates(s.drop_last());
        let rest = dedup_seq(s.drop_last());
        if !s.drop_last().contains(s.last()) {
            lemma_dedup_complete(s.drop_last(), s.last());
            assert(!rest.contains(s.last()));
            assert forall|i: int, j: int|
                0 <= i < rest.push(s.last()).len() && 0 <= j < rest.push(s.last()).len() && i
                    != j implies rest.push(s.last())[i] != rest.push(s.last())[j] by {
                if i < rest.len() && j < rest.len() {
                } else if i < rest.len() {
                    assert(rest[i] == rest.push(s.last())[i]);
                    if rest.push(s.last())[i] == s.last() {
                        assert(rest.contains(s.last()));
                    }
                } else if j < rest.len() {
                    if rest.push(s.last())[j] == s.last() {
                        assert(rest.contains(s.last()));
                    }
                }
            }
        }
    }
}

/// Reversing a row sequence twice restores the original order.
pub proof fn lemma_reverse_twice(rows: Seq<Seq<CellValue>>)
    ensures
        rows.reverse().reverse() == rows,
{
    assert(rows.reverse().reverse() =~= rows);
}

impl Table {
    /// The table with duplicate rows removed: the whole row is the identity
    /// key, the first occurrence in scan order is kept, and later equal rows
    /// are dropped. The schema is unchanged.
    pub fn deduped(self) -> (r: Table)
        ensures
            r.schema_view() == self.schema_view(),
            r.rows_view() == dedup_seq(self.rows_view()),
            self.well_formed() ==> r.well_formed(),
    {
        let Table { schema, rows } = self;
        let ghost orig = rows.deep_view();
        let mut out: Vec<Vec<Cell>> = Vec::new();
        let mut i: usize = 0;
        while i < rows.len()
            invariant
                rows.deep_view() == orig,
                rows@.len() == orig.len(),
                i <= orig.len(),
                out.deep_view() == dedup_seq(orig.take(i as int)),
            decreases orig.len() - i,
        {
            proof {
                assert(rows.deep_view()[i as int] == rows@[i as int].deep_view());
            }
            let mut seen = false;
            let mut j: usize = 0;
            while j < i
                invariant
                    rows.deep_view() == orig,
                    rows@.len() == orig.len(),
                    j <= i < orig.len(),
                    seen == orig.take(j as int).contains(orig[i as int]),
                decreases i - j,
            {
                proof {
                    assert(rows.deep_view()[j as int] == rows@[j as int].deep_view());
                }
                let ghost seen_before = seen;
                if row_eq(&rows[j], &rows[i]) {
                    seen = true;
                }
                proof {
                    let tj = orig.take(j as int);
                    let tj1 = orig.take(j + 1);
                    assert(tj1.drop_last() =~= tj);
                    assert(tj1.last() == orig[j as int]);
                    if orig[j as int] == orig[i as int] {
                        assert(tj1[j as int] == orig[i as int]);
                        assert(tj1.contains(orig[i as int]));
                    } else if seen_before {
                        let w = choose|w: int| 0 <= w < tj.len() && tj[w] == orig[i as int];
                        assert(tj1[w] == orig[i as int]);
                        assert(tj1.contains(orig[i as int]));
                    } else {
                        if tj1.contains(orig[i as int]) {
                            let w = choose|w: int|
                                0 <= w < tj1.len() && tj1[w] == orig[i as int];
                            if w < j {
                                assert(tj[w] == orig[i as int]);
                            }
                            assert(false);
                        }
                    }
                }
                j += 1;
            }
            let ghost out_prev = out.deep_view();
            let ghost ti = orig.take(i as int);
            let ghost ti1 = orig.take(i + 1);
            proof {
                assert(ti1.drop_last() =~= ti);
                assert(ti1.last() == orig[i as int]);
            }
            if !seen {
                let copy = clone_row(&rows[i]);
                proof {
                    assert(copy.deep_view() == rows@[i as int].deep_view());
                }
                out.push(copy);
                proof {
                    assert(out.deep_view() =~= out_prev.push(orig[i as int]));
                    assert(dedup_seq(ti1) == dedup_seq(ti).push(orig[i as int]));
                }
            } else {
                proof {
                    assert(dedup_seq(ti1) == dedup_seq(ti));
                }
            }
            i += 1;
        }
        proof {
            assert(orig.take(orig.len() as int) =~= orig);
        }
        let r = Table { schema, rows: out };
        proof {
            if self.well_formed() {
                assert(orig == self.rows_view());
                assert forall|k: int|
                    0 <= k < orig.len() implies (#[trigger] orig[k]).len()
                    == self.schema_view().len() by {
                    assert(self.rows_view()[k] == orig[k]);
                }
                lemma_dedup_len_widths(orig, self.schema_view().len() as int);
            }
        }
        r
    }
}

/// The rows of a table, as `concatenated` collects them.
pub open spec fn table_rows(t: Table) -> Seq<Seq<CellValue>> {
    t.rows_view()
}

impl Table {
    /// All rows of `tables` concatenated in source order: every row of an
    /// earlier source precedes every row of a later one, and nothing is
    /// deduplicated. The result carries the first source's schema; schema
    /// compatibility across sources is the engine's concern and is not
    /// checked here. An empty source list is rejected.
    pub fn concatenated(tables: Vec<Table>) -> (r: Result<Table, DfKitError>)
        ensures
            tables@.len() == 0 ==> (r matches Err(DfKitError::CustomError(m)) && m@
                == "No files provided"@),
            tables@.len() > 0 ==> (r matches Ok(t) && t.schema_view()
                == tables@[0].schema_view() && t.rows_view() == tables@.map_values(
                |tb: Table| table_rows(tb),
            ).flatten()),
    {
        let ghost orig = tables@;
        let mut tables = tables;
        if tables.len() == 0 {
            return Err(DfKitError::CustomError(String::from_str("No files provided")));
        }
        let mut acc = tables.remove(0);
        proof {
            assert(tables@ =~= orig.skip(1));
            assert(orig.take(1).map_values(|tb: Table| table_rows(tb)) =~= seq![
                table_rows(orig[0]),
            ]);
            seq![table_rows(orig[0])].lemma_flatten_one_element();
        }
        let ghost k: int = 1;
        while tables.len() > 0
            invariant
                1 <= k <= orig.len(),
                tables@ == orig.skip(k),
                acc.schema_view() == orig[0].schema_view(),
                acc.rows_view() == orig.take(k).map_values(|tb: Table| table_rows(tb)).flatten(),
            decreases tables@.len(),
        {
            let ghost acc_rows_prev = acc.rows.deep_view();
            let mut t = tables.remove(0);
            proof {
                assert(t == orig[k]);
                assert(tables@ =~= orig.skip(k + 1));
            }
            let ghost t_rows = t.rows.deep_view();
            acc.rows.append(&mut t.rows);
            proof {
                assert(acc.rows.deep_view() =~= acc_rows_prev + t_rows);
                let f = |tb: Table| table_rows(tb);
                let m_k = orig.take(k).map_values(f);
                assert(orig.take(k + 1).map_values(f) =~= m_k.push(table_rows(orig[k])));
                m_k.lemma_flatten_push(table_rows(orig[k]));
            }
            proof {
                k = k + 1;
            }
        }
        proof {
            assert(k == orig.len());
            assert(orig.take(k) =~= orig);
        }
        Ok(acc)
    }
}

proof fn lemma_dedup_len_widths(s: Seq<Seq<CellValue>>, w: int)
    requires
        forall|i: int| 0 <= i < s.len() ==> (#[trigger] s[i]).len() == w,
    ensures
        forall|i: int| 0 <= i < dedup_seq(s).len() ==> (#[trigger] dedup_seq(s)[i]).len() == w,
    decreases s.len(),
{
    if s.len() > 0 {
        assert(forall|i: int|
            0 <= i < s.drop_last().len() ==> (#[trigger] s.drop_last()[i]).len() == w);
        lemma_dedup_len_widths(s.drop_last(), w);
        let rest = dedup_seq(s.drop_last());
        if !s.drop_last().contains(s.last()) {
            assert(forall|i: int|
                0 <= i < rest.push(s.last()).len() ==> (#[trigger] rest.push(s.last())[i]).len()
                    == w);
        }
    }
}

} // verus!
