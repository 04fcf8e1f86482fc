//! The table the engine evaluates against: named columns, each holding rows
//! of text keyed by row number.  Row keys are kept in strictly ascending
//! order, which is what the row driver's single in-place pass relies on.

use crate::literal::EvalError;
use crate::strutil::str_eq;
use vstd::prelude::*;

verus! {

/// One row of a column: a key and the cell text.
pub struct Cell {
    pub row: u32,
    pub text: String,
}

/// A named column.
pub struct Column {
    pub name: String,
    pub cells: Vec<Cell>,
}

/// An ordered collection of named columns.
pub struct TableData {
    pub columns: Vec<Column>,
}

#[verifier::ext_equal]
pub ghost struct CellV {
    pub row: u32,
    pub text: Seq<char>,
}

#[verifier::ext_equal]
pub ghost struct ColV {
    pub name: Seq<char>,
    pub cells: Seq<CellV>,
}

impl View for Cell {
    type V = CellV;

    open spec fn view(&self) -> CellV {
        CellV { row: self.row, text: self.text@ }
    }
}

impl View for Column {
    type V = ColV;

    open spec fn view(&self) -> ColV {
        ColV { name: self.name@, cells: Seq::new(self.cells@.len(), |i: int| self.cells@[i]@) }
    }
}

impl View for TableData {
    type V = Seq<ColV>;

    open spec fn view(&self) -> Seq<ColV> {
        Seq::new(self.columns@.len(), |i: int| self.columns@[i]@)
    }
}

/// A column is well formed when its row keys are strictly ascending.
pub open spec fn col_wf(c: ColV) -> bool {
    forall|i: int, j: int| 0 <= i < j < c.cells.len() ==> c.cells[i].row < c.cells[j].row
}

/// A table is well formed when all of its columns are.
pub open spec fn table_wf(t: Seq<ColV>) -> bool {
    forall|i: int| 0 <= i < t.len() ==> col_wf(#[trigger] t[i])
}

/// Index of the first column with this name, or -1.
pub open spec fn col_at(t: Seq<ColV>, name: Seq<char>) -> int
    decreases t.len(),
{
    if t.len() == 0 {
        -1
    } else if t[0].name == name {
        0
    } else {
        let r = col_at(t.skip(1), name);
        if r == -1 {
            -1
        } else {
            r + 1
        }
    }
}

pub proof fn lemma_col_at_value(t: Seq<ColV>, name: Seq<char>, j: int)
    requires
        0 <= j <= t.len(),
        forall|k: int| 0 <= k < j ==> t[k].name != name,
        j == t.len() || t[j].name == name,
    ensures
        col_at(t, name) == if j == t.len() {
            -1int
        } else {
            j
        },
    decreases j,
{
    if t.len() == 0 {
    } else if j == 0 {
    } else {
        assert(forall|k: int| 0 <= k < j - 1 ==> t.skip(1)[k].name != name);
        lemma_col_at_value(t.skip(1), name, j - 1);
    }
}

/// Index of the first cell with this row key, or -1.
pub open spec fn row_at(c: ColV, key: u32) -> int
    decreases c.cells.len(),
{
    if c.cells.len() == 0 {
        -1
    } else if c.cells[0].row == key {
        0
    } else {
        let r = row_at(ColV { name: c.name, cells: c.cells.skip(1) }, key);
        if r == -1 {
            -1
        } else {
            r + 1
        }
    }
}

pub proof fn lemma_row_at_value(c: ColV, key: u32, j: int)
    requires
        0 <= j <= c.cells.len(),
        forall|k: int| 0 <= k < j ==> c.cells[k].row != key,
        j == c.cells.len() || c.cells[j].row == key,
    ensures
        row_at(c, key) == if j == c.cells.len() {
            -1int
        } else {
            j
        },
    decreases j,
{
    if c.cells.len() == 0 {
    } else if j == 0 {
    } else {
        let c1 = ColV { name: c.name, cells: c.cells.skip(1) };
        assert(forall|k: int| 0 <= k < j - 1 ==> c1.cells[k].row != key);
        lemma_row_at_value(c1, key, j - 1);
    }
}

/// The text of the cell with this row key, or the lookup failure.
pub open spec fn col_cell(c: ColV, key: u32) -> Result<Seq<char>, EvalError> {
    let ri = row_at(c, key);
    if ri == -1 {
        Err(EvalError::MissingRow)
    } else {
        Ok(c.cells[ri].text)
    }
}

/// The text of cell `key` of the first column named `name`.
pub open spec fn table_cell(t: Seq<ColV>, name: Seq<char>, key: u32) -> Result<
    Seq<char>,
    EvalError,
> {
    let ci = col_at(t, name);
    if ci == -1 {
        Err(EvalError::MissingColumn)
    } else {
        col_cell(t[ci], key)
    }
}

/// The last (highest-keyed) cell text of the first column named `name`.
pub open spec fn table_last(t: Seq<ColV>, name: Seq<char>) -> Result<Seq<char>, EvalError> {
    let ci = col_at(t, name);
    if ci == -1 {
        Err(EvalError::MissingColumn)
    } else if t[ci].cells.len() == 0 {
        Err(EvalError::EmptyColumn)
    } else {
        Ok(t[ci].cells.last().text)
    }
}

impl Column {
    /// The row keys of this column, in storage order; ascending when the
    /// column is well formed.
    pub fn get_sorted_keys(&self) -> (r: Vec<u32>)
        ensures
            r@.len() == self@.cells.len(),
            forall|i: int| 0 <= i < r@.len() ==> r@[i] == self@.cells[i].row,
    {
        let mut r: Vec<u32> = Vec::new();
        let mut j: usize = 0;
        while j < self.cells.len()
            invariant
                j <= self.cells.len(),
                r@.len() == j,
                forall|i: int| 0 <= i < j ==> r@[i] == self@.cells[i].row,
            decreases self.cells.len() - j,
        {
            r.push(self.cells[j].row);
            j = j + 1;
        }
        r
    }

    /// Position of the cell with this row key.
    pub fn find_row(&self, key: u32) -> (r: Option<usize>)
        ensures
            match r {
                Some(j) => row_at(self@, key) == j as int && j < self@.cells.len(),
                None => row_at(self@, key) == -1,
            },
    {
        let mut j: usize = 0;
        while j < self.cells.len()
            invariant
                j <= self.cells.len(),
                forall|k: int| 0 <= k < j ==> self@.cells[k].row != key,
            decreases self.cells.len() - j,
        {
            if self.cells[j].row == key {
                proof {
                    lemma_row_at_value(self@, key, j as int);
                }
                return Some(j);
            }
            j = j + 1;
        }
        proof {
            lemma_row_at_value(self@, key, self@.cells.len() as int);
        }
        None
    }

    /// The cell text at this row key; fails when the row is absent.
    pub fn get_cell_by_index(&self, index: usize) -> (r: Result<String, EvalError>)
        ensures
            match r {
                Ok(s) => index <= u32::MAX && col_cell(self@, index as u32) == Ok::<
                    Seq<char>,
                    EvalError,
                >(s@),
                Err(e) => e == EvalError::MissingRow && (index > u32::MAX || col_cell(
                    self@,
                    index as u32,
                ) == Err::<Seq<char>, EvalError>(e)),
            },
    {
        if index > u32::MAX as usize {
            return Err(EvalError::MissingRow);
        }
        let key: u32 = index as u32;
        match self.find_row(key) {
            Some(j) => Ok(self.cells[j].text.clone()),
            None => Err(EvalError::MissingRow),
        }
    }
}

impl TableData {
    /// An empty table.
    pub fn new() -> (r: TableData)
        ensures
            r@ == Seq::<ColV>::empty(),
            table_wf(r@),
    {
        let r = TableData { columns: Vec::new() };
        proof {
            assert(r@ =~= Seq::<ColV>::empty());
        }
        r
    }

    /// Appends an empty column with this name.
    pub fn add_column(&mut self, name: String)
        ensures
            final(self)@ == old(self)@.push(ColV { name: name@, cells: Seq::empty() }),
            table_wf(old(self)@) ==> table_wf(final(self)@),
    {
        self.columns.push(Column { name, cells: Vec::new() });
        proof {
            assert(final(self)@ =~~= old(self)@.push(
                ColV { name: final(self).columns@.last().name@, cells: Seq::empty() },
            ));
        }
    }

    /// Appends a row to the column at `ci`; the key must exceed every key
    /// already there, which keeps the column well formed.
    pub fn add_row(&mut self, ci: usize, row: u32, text: String)
        requires
            ci < old(self)@.len(),
            forall|k: int|
                0 <= k < old(self)@[ci as int].cells.len() ==> old(
                    self,
                )@[ci as int].cells[k].row < row,
        ensures
            final(self)@ == old(self)@.update(
                ci as int,
                ColV {
                    name: old(self)@[ci as int].name,
                    cells: old(self)@[ci as int].cells.push(CellV { row, text: text@ }),
                },
            ),
            table_wf(old(self)@) ==> table_wf(final(self)@),
    {
        self.columns[ci].cells.push(Cell { row, text });
        proof {
            let newtext = final(self)@[ci as int].cells.last().text;
            assert(final(self)@ =~~= old(self)@.update(
                ci as int,
                ColV {
                    name: old(self)@[ci as int].name,
                    cells: old(self)@[ci as int].cells.push(CellV { row, text: newtext }),
                },
            ));
        }
    }

    /// Position of the first column with this name.
    pub fn find_column(&self, name: &str) -> (r: Option<usize>)
        ensures
            match r {
                Some(j) => col_at(self@, name@) == j as int && j < self@.len(),
                None => col_at(self@, name@) == -1,
            },
    {
        let mut j: usize = 0;
        while j < self.columns.len()
            invariant
                j <= self.columns.len(),
                forall|k: int| 0 <= k < j ==> self@[k].name != name@,
            decreases self.columns.len() - j,
        {
            if str_eq(self.columns[j].name.as_str(), name) {
                proof {
                    lemma_col_at_value(self@, name@, j as int);
                }
                return Some(j);
            }
            j = j + 1;
        }
        proof {
            lemma_col_at_value(self@, name@, self@.len() as int);
        }
        None
    }

    /// The first column with this name; fails when the table has none.
    pub fn get_by_name_unmut(&self, name: &str) -> (r: Result<&Column, EvalError>)
        ensures
            match r {
                Ok(c) => col_at(self@, name@) >= 0 && c@ == self@[col_at(self@, name@)],
                Err(e) => e == EvalError::MissingColumn && col_at(self@, name@) == -1,
            },
    {
        match self.find_column(name) {
            Some(j) => Ok(&self.columns[j]),
            None => Err(EvalError::MissingColumn),
        }
    }

    /// The cell at `(column letter, row key)`.
    pub fn get_by_coordinate(&self, letter: char, row: u32) -> (r: Result<String, EvalError>)
        ensures
            match r {
                Ok(s) => table_cell(self@, seq![letter], row) == Ok::<Seq<char>, EvalError>(s@),
                Err(e) => table_cell(self@, seq![letter], row) == Err::<Seq<char>, EvalError>(e),
            },
    {
        let mut name: String = String::new();
        crate::strutil::push_char(&mut name, letter);
        proof {
            assert(name@ =~= seq![letter]);
        }
        match self.get_by_name_unmut(name.as_str()) {
            Ok(col) => {
                match col.find_row(row) {
                    Some(j) => Ok(col.cells[j].text.clone()),
                    None => Err(EvalError::MissingRow),
                }
            },
            Err(e) => Err(e),
        }
    }

    /// The last value of the column named by a single letter.
    pub fn get_last_value_of_the_column(&self, letter: char) -> (r: Result<String, EvalError>)
        ensures
            match r {
                Ok(s) => table_last(self@, seq![letter]) == Ok::<Seq<char>, EvalError>(s@),
                Err(e) => table_last(self@, seq![letter]) == Err::<Seq<char>, EvalError>(e),
            },
    {
        let mut name: String = String::new();
        crate::strutil::push_char(&mut name, letter);
        proof {
            assert(name@ =~= seq![letter]);
        }
        match self.get_by_name_unmut(name.as_str()) {
            Ok(col) => {
                if col.cells.len() == 0 {
                    Err(EvalError::EmptyColumn)
                } else {
                    Ok(col.cells[col.cells.len() - 1].text.clone())
                }
            },
            Err(e) => Err(e),
        }
    }

    /// Replaces the text of the cell at column position `ci`, row position
    /// `ri`; names and keys stay as they are.
    pub fn set_cell_text(&mut self, ci: usize, ri: usize, text: String)
        requires
            ci < old(self)@.len(),
            ri < old(self)@[ci as int].cells.len(),
        ensures
            final(self)@ == old(self)@.update(
                ci as int,
                ColV {
                    name: old(self)@[ci as int].name,
                    cells: old(self)@[ci as int].cells.update(
                        ri as int,
                        CellV { row: old(self)@[ci as int].cells[ri as int].row, text: text@ },
                    ),
                },
            ),
            table_wf(old(self)@) ==> table_wf(final(self)@),
    {
        let row: u32 = self.columns[ci].cells[ri].row;
        self.columns[ci].cells[ri] = Cell { row, text };
        proof {
            assert(final(self)@ =~~= old(self)@.update(
                ci as int,
                ColV {
                    name: old(self)@[ci as int].name,
                    cells: old(self)@[ci as int].cells.update(
                        ri as int,
                        CellV {
                            row: old(self)@[ci as int].cells[ri as int].row,
                            text: final(self)@[ci as int].cells[ri as int].text,
                        },
                    ),
                },
            ));
            let oldt = old(self)@;
            let newt = final(self)@;
            assert(table_wf(oldt) ==> table_wf(newt)) by {
                if table_wf(oldt) {
                    assert forall|i: int| 0 <= i < newt.len() implies col_wf(
                        #[trigger] newt[i],
                    ) by {
                        assert(col_wf(oldt[i]));
                        if i == ci as int {
                            assert(forall|a: int|
                                0 <= a < newt[i].cells.len() ==> newt[i].cells[a].row
                                    == oldt[i].cells[a].row);
                        }
                    }
                }
            }
        }
    }
}

} // verus!
