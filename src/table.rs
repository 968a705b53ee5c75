//! An in-memory statement table: named columns of equal length whose cells
//! are text or empty.
use vstd::prelude::*;
use crate::text::same_text;
use crate::ParseError;

verus! {

/// One named column; an empty cell is `None`.
#[derive(Debug, Clone)]
pub struct Column {
    pub name: String,
    pub cells: Vec<Option<String>>,
}

/// The mathematical content of a [`Column`].
pub struct ColumnModel {
    pub name: Seq<char>,
    pub cells: Seq<Option<Seq<char>>>,
}

pub open spec fn cell_view(c: Option<String>) -> Option<Seq<char>> {
    match c {
        Some(s) => Some(s@),
        None => None,
    }
}

pub open spec fn cells_view(cells: Seq<Option<String>>) -> Seq<Option<Seq<char>>> {
    cells.map_values(|c: Option<String>| cell_view(c))
}

impl View for Column {
    type V = ColumnModel;

    open spec fn view(&self) -> ColumnModel {
        ColumnModel { name: self.name@, cells: cells_view(self.cells@) }
    }
}

pub open spec fn columns_view(columns: Seq<Column>) -> Seq<ColumnModel> {
    columns.map_values(|c: Column| c@)
}

/// All columns have the same length and no two share a name.
pub open spec fn well_formed(cols: Seq<ColumnModel>) -> bool {
    &&& forall|i: int, j: int|
        0 <= i < cols.len() && 0 <= j < cols.len() ==> #[trigger] cols[i].cells.len()
            == #[trigger] cols[j].cells.len()
    &&& forall|i: int, j: int|
        0 <= i < cols.len() && 0 <= j < cols.len() && i != j ==> #[trigger] cols[i].name
            != #[trigger] cols[j].name
}

pub open spec fn has_column(cols: Seq<ColumnModel>, name: Seq<char>) -> bool {
    exists|i: int| 0 <= i < cols.len() && #[trigger] cols[i].name == name
}

/// The cells of the column called `name` (meaningful where it exists).
pub open spec fn column_cells(cols: Seq<ColumnModel>, name: Seq<char>) -> Seq<Option<Seq<char>>> {
    cols[choose|i: int| 0 <= i < cols.len() && #[trigger] cols[i].name == name].cells
}

/// The elements of `s` whose position is marked in `keep`, in order.
pub open spec fn select<A>(s: Seq<A>, keep: Seq<bool>) -> Seq<A>
    decreases s.len(),
{
    if s.len() == 0 {
        s
    } else {
        let rest = select(s.drop_last(), keep);
        if keep[s.len() - 1] {
            rest.push(s.last())
        } else {
            rest
        }
    }
}

/// How many of the first `n` marks are set.
pub open spec fn count_kept(keep: Seq<bool>, n: int) -> nat
    decreases n,
{
    if n <= 0 {
        0
    } else {
        count_kept(keep, n - 1) + if keep[n - 1] { 1nat } else { 0nat }
    }
}

proof fn lemma_select_len<A>(s: Seq<A>, keep: Seq<bool>)
    ensures
        select(s, keep).len() == count_kept(keep, s.len() as int),
    decreases s.len(),
{
    if s.len() > 0 {
        lemma_select_len(s.drop_last(), keep);
    }
}

/// Every column keeps the rows marked in `keep`.
pub open spec fn filtered(cols: Seq<ColumnModel>, keep: Seq<bool>) -> Seq<ColumnModel> {
    cols.map_values(|c: ColumnModel| ColumnModel { name: c.name, cells: select(c.cells, keep) })
}

/// A table whose columns have equal length and distinct names.
#[derive(Debug, Clone)]
pub struct Table {
    columns: Vec<Column>,
}

impl View for Table {
    type V = Seq<ColumnModel>;

    closed spec fn view(&self) -> Seq<ColumnModel> {
        columns_view(self.columns@)
    }
}

fn clone_cell(c: &Option<String>) -> (r: Option<String>)
    ensures
        cell_view(r) == cell_view(*c),
{
    match c {
        Some(s) => Some(s.clone()),
        None => None,
    }
}

fn select_cells(cells: &Vec<Option<String>>, keep: &Vec<bool>) -> (r: Vec<Option<String>>)
    requires
        cells@.len() == keep@.len(),
    ensures
        cells_view(r@) == select(cells_view(cells@), keep@),
{
    let ghost all = cells_view(cells@);
    let mut out: Vec<Option<String>> = Vec::new();
    let mut i: usize = 0;
    while i < cells.len()
        invariant
            cells@.len() == keep@.len(),
            all == cells_view(cells@),
            i <= cells@.len(),
            cells_view(out@) == select(all.subrange(0, i as int), keep@),
        decreases cells@.len() - i,
    {
        proof {
            assert(all.subrange(0, i + 1).drop_last() == all.subrange(0, i as int));
        }
        if keep[i] {
            out.push(clone_cell(&cells[i]));
            proof {
                assert(cells_view(out@) =~= cells_view(out@.drop_last()).push(
                    cell_view(out@.last()),
                ));
            }
        }
        i = i + 1;
    }
    proof {
        assert(all.subrange(0, i as int) == all);
    }
    out
}

impl Table {
    pub open spec fn wf(&self) -> bool {
        well_formed(self@)
    }

    /// Makes a table of the given columns; they must have equal length and
    /// distinct names.
    pub fn new(columns: Vec<Column>) -> (r: Result<Table, ParseError>)
        ensures
            well_formed(columns_view(columns@)) ==> (r matches Ok(t) && t@ == columns_view(
                columns@,
            )),
            !well_formed(columns_view(columns@)) ==> r == Err::<Table, ParseError>(
                ParseError::MalformedTable,
            ),
            r matches Ok(t) ==> t.wf(),
    {
        let ghost cols = columns_view(columns@);
        let n = columns.len();
        let mut i: usize = 0;
        while i < n
            invariant
                n == columns@.len(),
                cols == columns_view(columns@),
                i <= n,
                forall|a: int, b: int|
                    0 <= a < i && 0 <= b < n ==> #[trigger] cols[a].cells.len()
                        == #[trigger] cols[b].cells.len(),
                forall|a: int, b: int|
                    0 <= a < i && 0 <= b < n && a != b ==> #[trigger] cols[a].name
                        != #[trigger] cols[b].name,
            decreases n - i,
        {
            let mut j: usize = 0;
            while j < n
                invariant
                    n == columns@.len(),
                    cols == columns_view(columns@),
                    i < n,
                    j <= n,
                    forall|a: int, b: int|
                        0 <= a < i && 0 <= b < n ==> #[trigger] cols[a].cells.len()
                            == #[trigger] cols[b].cells.len(),
                    forall|a: int, b: int|
                        0 <= a < i && 0 <= b < n && a != b ==> #[trigger] cols[a].name
                            != #[trigger] cols[b].name,
                    forall|b: int| 0 <= b < j ==> #[trigger] cols[b].cells.len() == cols[i as int].cells.len(),
                    forall|b: int| 0 <= b < j && b != i ==> #[trigger] cols[b].name != cols[i as int].name,
                decreases n - j,
            {
                if columns[i].cells.len() != columns[j].cells.len() {
                    proof {
                        assert(cols[i as int].cells.len() != cols[j as int].cells.len());
                    }
                    return Err(ParseError::MalformedTable);
                }
                if i != j && same_text(columns[i].name.as_str(), columns[j].name.as_str()) {
                    proof {
                        assert(cols[i as int].name == cols[j as int].name);
                    }
                    return Err(ParseError::MalformedTable);
                }
                j = j + 1;
            }
            i = i + 1;
        }
        Ok(Table { columns })
    }

    /// The columns, in order.
    pub fn columns(&self) -> (r: &Vec<Column>)
        ensures
            columns_view(r@) == self@,
    {
        &self.columns
    }

    /// The column called `name`; `MissingColumn` where there is none.
    pub fn column(&self, name: &str) -> (r: Result<&Column, ParseError>)
        requires
            self.wf(),
        ensures
            has_column(self@, name@) ==> (r matches Ok(c) && c@.name == name@ && c@.cells
                == column_cells(self@, name@)),
            !has_column(self@, name@) ==> r == Err::<&Column, ParseError>(
                ParseError::MissingColumn,
            ),
    {
        let mut i: usize = 0;
        while i < self.columns.len()
            invariant
                self.wf(),
                i <= self@.len(),
                self@.len() == self.columns@.len(),
                forall|k: int| 0 <= k < i ==> #[trigger] self@[k].name != name@,
            decreases self.columns@.len() - i,
        {
            if same_text(self.columns[i].name.as_str(), name) {
                proof {
                    assert(self@[i as int] == self.columns@[i as int]@);
                    assert(self@[i as int].name == name@);
                    let k = choose|k: int| 0 <= k < self@.len() && #[trigger] self@[k].name == name@;
                    assert(0 <= k < self@.len() && self@[k].name == name@);
                    assert(well_formed(self@));
                    if k != i {
                        assert(self@[k].name != self@[i as int].name);
                    }
                }
                return Ok(&self.columns[i]);
            }
            i = i + 1;
        }
        Err(ParseError::MissingColumn)
    }

    /// Whether a column called `name` exists.
    pub fn has_column(&self, name: &str) -> (r: bool)
        requires
            self.wf(),
        ensures
            r == has_column(self@, name@),
    {
        self.column(name).is_ok()
    }

    /// Keeps the rows whose mark is set, in their order, in every column.
    pub fn filter_rows(&self, keep: &Vec<bool>) -> (r: Table)
        requires
            self.wf(),
            forall|i: int| 0 <= i < self@.len() ==> #[trigger] self@[i].cells.len() == keep@.len(),
        ensures
            r@ == filtered(self@, keep@),
            r.wf(),
    {
        let mut out: Vec<Column> = Vec::new();
        let mut i: usize = 0;
        while i < self.columns.len()
            invariant
                i <= self@.len(),
                self@.len() == self.columns@.len(),
                forall|k: int| 0 <= k < self@.len() ==> #[trigger] self@[k].cells.len() == keep@.len(),
                columns_view(out@) == filtered(self@, keep@).subrange(0, i as int),
            decreases self.columns@.len() - i,
        {
            proof {
                assert(self@[i as int] == self.columns@[i as int]@);
                assert(self@[i as int].cells.len() == self.columns@[i as int].cells@.len());
            }
            let cells = select_cells(&self.columns[i].cells, keep);
            let col = Column { name: self.columns[i].name.clone(), cells };
            proof {
                assert(col@ == filtered(self@, keep@)[i as int]);
            }
            let ghost before = out@;
            out.push(col);
            proof {
                assert(columns_view(out@) =~= columns_view(before).push(col@));
                assert(filtered(self@, keep@).subrange(0, i + 1) =~= filtered(self@, keep@).subrange(0, i as int).push(filtered(self@, keep@)[i as int]));
                assert(columns_view(out@) =~= filtered(self@, keep@).subrange(0, i + 1));
            }
            i = i + 1;
        }
        let r = Table { columns: out };
        proof {
            assert(r@ =~= filtered(self@, keep@));
            assert forall|a: int, b: int| 0 <= a < r@.len() && 0 <= b < r@.len() implies #[trigger] r@[a].cells.len() == #[trigger] r@[b].cells.len() by {
                lemma_select_len(self@[a].cells, keep@);
                lemma_select_len(self@[b].cells, keep@);
            }
        }
        r
    }
}

/// In a well-formed table every column is as long as the one called `name`.
pub proof fn lemma_column_cells_len(cols: Seq<ColumnModel>, name: Seq<char>)
    requires
        well_formed(cols),
        has_column(cols, name),
    ensures
        forall|k: int| 0 <= k < cols.len() ==> #[trigger] cols[k].cells.len() == column_cells(cols, name).len(),
{
    let j = choose|i: int| 0 <= i < cols.len() && #[trigger] cols[i].name == name;
    assert forall|k: int| 0 <= k < cols.len() implies #[trigger] cols[k].cells.len() == column_cells(cols, name).len() by {
        assert(cols[k].cells.len() == cols[j].cells.len());
    }
}

} // verus!
