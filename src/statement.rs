//! From a loaded statement table to its ordered (date, amount) records.
//!
//! Savings statements keep their interest rows, investment statements their
//! dividend and custody fee rows; both then have their date and amount
//! columns parsed and paired row by row.
use vstd::prelude::*;
use crate::amount::{cell_amount, extract_cash, Currency, CurrencyModel};
use crate::dates::{date_text, investment_date_format, normalize_date, savings_date_format};
use crate::table::{
    cell_view, cells_view, column_cells, filtered, has_column, lemma_column_cells_len,
    well_formed, Column, ColumnModel, Table,
};
use crate::text::{contains, contains_text, same_text};
use crate::ParseError;

verus! {

/// The two statement layouts that are recognised.
#[derive(PartialEq, Eq, Structural, Debug, Clone, Copy)]
pub enum Layout {
    /// Completed date, description and money in.
    Savings,
    /// Date, type and total amount.
    Investment,
}

/// The layout that the column names show: the savings columns win over the
/// investment ones.
pub open spec fn layout_of(cols: Seq<ColumnModel>) -> Option<Layout> {
    if has_column(cols, "Completed Date"@) && has_column(cols, "Description"@) && has_column(
        cols,
        "Money in"@,
    ) {
        Some(Layout::Savings)
    } else if has_column(cols, "Type"@) && has_column(cols, "Price per share"@) {
        Some(Layout::Investment)
    } else {
        None
    }
}

/// Tells the layout of a table from its column names.
pub fn detect_layout(table: &Table) -> (r: Result<Layout, ParseError>)
    requires
        table.wf(),
    ensures
        r == match layout_of(table@) {
            Some(l) => Ok::<Layout, ParseError>(l),
            None => Err(ParseError::UnsupportedSchema),
        },
{
    if table.has_column("Completed Date") && table.has_column("Description") && table.has_column(
        "Money in",
    ) {
        Ok(Layout::Savings)
    } else if table.has_column("Type") && table.has_column("Price per share") {
        Ok(Layout::Investment)
    } else {
        Err(ParseError::UnsupportedSchema)
    }
}

/// A description that announces interest, in Polish or in English.
pub open spec fn is_interest(cell: Option<Seq<char>>) -> bool {
    match cell {
        Some(s) => contains(s, "Odsetki brutto"@) || contains(s, "Gross interest"@),
        None => false,
    }
}

/// A row type that is exactly a dividend or a custody fee.
pub open spec fn is_dividend_or_fee(cell: Option<Seq<char>>) -> bool {
    cell == Some("DIVIDEND"@) || cell == Some("CUSTODY FEE"@)
}

/// The marks of a column under `is_interest`.
pub open spec fn interest_marks(cells: Seq<Option<Seq<char>>>) -> Seq<bool> {
    cells.map_values(|c: Option<Seq<char>>| is_interest(c))
}

/// The marks of a column under `is_dividend_or_fee`.
pub open spec fn dividend_or_fee_marks(cells: Seq<Option<Seq<char>>>) -> Seq<bool> {
    cells.map_values(|c: Option<Seq<char>>| is_dividend_or_fee(c))
}

/// The interest rows of a savings table, all columns kept.
pub open spec fn interest_rows(cols: Seq<ColumnModel>) -> Result<Seq<ColumnModel>, ParseError> {
    if has_column(cols, "Completed Date"@) && has_column(cols, "Description"@) && has_column(
        cols,
        "Money in"@,
    ) {
        Ok(filtered(cols, interest_marks(column_cells(cols, "Description"@))))
    } else {
        Err(ParseError::MissingColumn)
    }
}

/// The dividend and custody fee rows of an investment table, all columns
/// kept.
pub open spec fn dividend_and_fee_rows(cols: Seq<ColumnModel>) -> Result<
    Seq<ColumnModel>,
    ParseError,
> {
    if has_column(cols, "Date"@) && has_column(cols, "Type"@) && has_column(cols, "Total Amount"@) {
        Ok(filtered(cols, dividend_or_fee_marks(column_cells(cols, "Type"@))))
    } else {
        Err(ParseError::MissingColumn)
    }
}

fn interest_mask(cells: &Vec<Option<String>>) -> (r: Vec<bool>)
    ensures
        r@ == interest_marks(cells_view(cells@)),
{
    let mut out: Vec<bool> = Vec::new();
    let mut i: usize = 0;
    while i < cells.len()
        invariant
            i <= cells@.len(),
            out@.len() == i,
            forall|k: int| 0 <= k < i ==> out@[k] == is_interest(cell_view(#[trigger] cells@[k])),
        decreases cells@.len() - i,
    {
        let mark = match &cells[i] {
            Some(s) => contains_text(s.as_str(), "Odsetki brutto") || contains_text(
                s.as_str(),
                "Gross interest",
            ),
            None => false,
        };
        out.push(mark);
        i = i + 1;
    }
    assert(out@ =~= interest_marks(cells_view(cells@)));
    out
}

fn dividend_or_fee_mask(cells: &Vec<Option<String>>) -> (r: Vec<bool>)
    ensures
        r@ == dividend_or_fee_marks(cells_view(cells@)),
{
    let mut out: Vec<bool> = Vec::new();
    let mut i: usize = 0;
    while i < cells.len()
        invariant
            i <= cells@.len(),
            out@.len() == i,
            forall|k: int|
                0 <= k < i ==> out@[k] == is_dividend_or_fee(cell_view(#[trigger] cells@[k])),
        decreases cells@.len() - i,
    {
        let mark = match &cells[i] {
            Some(s) => same_text(s.as_str(), "DIVIDEND") || same_text(s.as_str(), "CUSTODY FEE"),
            None => false,
        };
        out.push(mark);
        i = i + 1;
    }
    assert(out@ =~= dividend_or_fee_marks(cells_view(cells@)));
    out
}

/// Keeps the rows of a savings table whose description announces interest.
pub fn extract_intrest_rate_transactions(table: &Table) -> (r: Result<Table, ParseError>)
    requires
        table.wf(),
    ensures
        match interest_rows(table@) {
            Ok(f) => r matches Ok(t) && t@ == f && t.wf(),
            Err(e) => r matches Err(x) && x == e,
        },
{
    if !(table.has_column("Completed Date") && table.has_column("Description")
        && table.has_column("Money in")) {
        return Err(ParseError::MissingColumn);
    }
    let description = match table.column("Description") {
        Ok(c) => c,
        Err(e) => return Err(e),
    };
    let keep = interest_mask(&description.cells);
    proof {
        lemma_column_cells_len(table@, "Description"@);
    }
    Ok(table.filter_rows(&keep))
}

/// Keeps the rows of an investment table whose type is a dividend or a
/// custody fee.
pub fn extract_investment_gains_and_costs_transactions(table: &Table) -> (r: Result<
    Table,
    ParseError,
>)
    requires
        table.wf(),
    ensures
        match dividend_and_fee_rows(table@) {
            Ok(f) => r matches Ok(t) && t@ == f && t.wf(),
            Err(e) => r matches Err(x) && x == e,
        },
{
    if !(table.has_column("Date") && table.has_column("Type") && table.has_column(
        "Total Amount",
    )) {
        return Err(ParseError::MissingColumn);
    }
    let kind = match table.column("Type") {
        Ok(c) => c,
        Err(e) => return Err(e),
    };
    let keep = dividend_or_fee_mask(&kind.cells);
    proof {
        lemma_column_cells_len(table@, "Type"@);
    }
    Ok(table.filter_rows(&keep))
}

/// The canonical dates of the filled cells of a column, in order; `None` as
/// soon as one of them is not a date in `format`.
pub open spec fn column_dates(cells: Seq<Option<Seq<char>>>, format: Seq<char>) -> Option<
    Seq<Seq<char>>,
>
    decreases cells.len(),
{
    if cells.len() == 0 {
        Some(Seq::empty())
    } else {
        match column_dates(cells.drop_last(), format) {
            None => None,
            Some(ds) => match cells.last() {
                None => Some(ds),
                Some(text) => match date_text(text, format) {
                    Some(d) => Some(ds.push(d)),
                    None => None,
                },
            },
        }
    }
}

/// The amounts of the filled cells of a column, in order; `None` as soon as
/// one of them spells no amount.
pub open spec fn column_amounts(cells: Seq<Option<Seq<char>>>) -> Option<Seq<CurrencyModel>>
    decreases cells.len(),
{
    if cells.len() == 0 {
        Some(Seq::empty())
    } else {
        match column_amounts(cells.drop_last()) {
            None => None,
            Some(am) => match cells.last() {
                None => Some(am),
                Some(text) => match cell_amount(text) {
                    Some(a) => Some(am.push(a)),
                    None => None,
                },
            },
        }
    }
}

proof fn lemma_dates_fail_extends(cells: Seq<Option<Seq<char>>>, format: Seq<char>, i: int)
    requires
        0 <= i <= cells.len(),
        column_dates(cells.subrange(0, i), format) is None,
    ensures
        column_dates(cells, format) is None,
    decreases cells.len() - i,
{
    if i < cells.len() {
        assert(cells.subrange(0, i + 1).drop_last() == cells.subrange(0, i));
        lemma_dates_fail_extends(cells, format, i + 1);
    } else {
        assert(cells.subrange(0, i) == cells);
    }
}

proof fn lemma_amounts_fail_extends(cells: Seq<Option<Seq<char>>>, i: int)
    requires
        0 <= i <= cells.len(),
        column_amounts(cells.subrange(0, i)) is None,
    ensures
        column_amounts(cells) is None,
    decreases cells.len() - i,
{
    if i < cells.len() {
        assert(cells.subrange(0, i + 1).drop_last() == cells.subrange(0, i));
        lemma_amounts_fail_extends(cells, i + 1);
    } else {
        assert(cells.subrange(0, i) == cells);
    }
}

pub open spec fn texts_view(v: Seq<String>) -> Seq<Seq<char>> {
    v.map_values(|s: String| s@)
}

pub open spec fn amounts_view(v: Seq<Currency>) -> Seq<CurrencyModel> {
    v.map_values(|c: Currency| c@)
}

/// Normalizes the filled cells of a column of dates, stopping at the first
/// that is not a date in `format`.
fn dates_in_column(column: &Column, format: &str) -> (r: Result<Vec<String>, ParseError>)
    ensures
        match column_dates(column@.cells, format@) {
            Some(ds) => r matches Ok(v) && texts_view(v@) == ds,
            None => r == Err::<Vec<String>, ParseError>(ParseError::MalformedDate),
        },
{
    let ghost cells = column@.cells;
    let mut out: Vec<String> = Vec::new();
    let mut i: usize = 0;
    while i < column.cells.len()
        invariant
            cells == column@.cells,
            cells.len() == column.cells@.len(),
            i <= cells.len(),
            column_dates(cells.subrange(0, i as int), format@) == Some(texts_view(out@)),
        decreases cells.len() - i,
    {
        proof {
            assert(cells.subrange(0, i + 1).drop_last() == cells.subrange(0, i as int));
            assert(cells[i as int] == cell_view(column.cells@[i as int]));
        }
        match &column.cells[i] {
            Some(text) => {
                match normalize_date(text.as_str(), format) {
                    Ok(d) => {
                        let ghost before = out@;
                        out.push(d);
                        proof {
                            assert(texts_view(out@) =~= texts_view(before).push(d@));
                        }
                    },
                    Err(_) => {
                        proof {
                            lemma_dates_fail_extends(cells, format@, i + 1);
                        }
                        return Err(ParseError::MalformedDate);
                    },
                }
            },
            None => {},
        }
        i = i + 1;
    }
    proof {
        assert(cells.subrange(0, i as int) == cells);
    }
    Ok(out)
}

/// Parses the filled cells of a column of amounts, stopping at the first
/// that spells no amount.
fn amounts_in_column(column: &Column) -> (r: Result<Vec<Currency>, ParseError>)
    ensures
        match column_amounts(column@.cells) {
            Some(am) => r matches Ok(v) && amounts_view(v@) == am,
            None => r == Err::<Vec<Currency>, ParseError>(ParseError::UnparsableAmount),
        },
{
    let ghost cells = column@.cells;
    let mut out: Vec<Currency> = Vec::new();
    let mut i: usize = 0;
    while i < column.cells.len()
        invariant
            cells == column@.cells,
            cells.len() == column.cells@.len(),
            i <= cells.len(),
            column_amounts(cells.subrange(0, i as int)) == Some(amounts_view(out@)),
        decreases cells.len() - i,
    {
        proof {
            assert(cells.subrange(0, i + 1).drop_last() == cells.subrange(0, i as int));
            assert(cells[i as int] == cell_view(column.cells@[i as int]));
        }
        match &column.cells[i] {
            Some(text) => {
                match extract_cash(text.as_str()) {
                    Ok(a) => {
                        let ghost before = out@;
                        out.push(a);
                        proof {
                            assert(amounts_view(out@) =~= amounts_view(before).push(a@));
                        }
                    },
                    Err(_) => {
                        proof {
                            lemma_amounts_fail_extends(cells, i + 1);
                        }
                        return Err(ParseError::UnparsableAmount);
                    },
                }
            },
            None => {},
        }
        i = i + 1;
    }
    proof {
        assert(cells.subrange(0, i as int) == cells);
    }
    Ok(out)
}

/// The savings dates of a filtered table, from its `Completed Date` column.
pub fn parse_transaction_dates(table: &Table) -> (r: Result<Vec<String>, ParseError>)
    requires
        table.wf(),
    ensures
        !has_column(table@, "Completed Date"@) ==> r == Err::<Vec<String>, ParseError>(
            ParseError::MissingColumn,
        ),
        has_column(table@, "Completed Date"@) ==> match column_dates(
            column_cells(table@, "Completed Date"@),
            savings_date_format(),
        ) {
            Some(ds) => r matches Ok(v) && texts_view(v@) == ds,
            None => r == Err::<Vec<String>, ParseError>(ParseError::MalformedDate),
        },
{
    match table.column("Completed Date") {
        Ok(c) => dates_in_column(c, "%e %b %Y"),
        Err(e) => Err(e),
    }
}

/// The investment dates of a filtered table, from its `Date` column.
pub fn parse_investment_transaction_dates(table: &Table) -> (r: Result<Vec<String>, ParseError>)
    requires
        table.wf(),
    ensures
        !has_column(table@, "Date"@) ==> r == Err::<Vec<String>, ParseError>(
            ParseError::MissingColumn,
        ),
        has_column(table@, "Date"@) ==> match column_dates(
            column_cells(table@, "Date"@),
            investment_date_format(),
        ) {
            Some(ds) => r matches Ok(v) && texts_view(v@) == ds,
            None => r == Err::<Vec<String>, ParseError>(ParseError::MalformedDate),
        },
{
    match table.column("Date") {
        Ok(c) => dates_in_column(c, "%Y-%m-%dT%H:%M:%S%.fZ"),
        Err(e) => Err(e),
    }
}

/// The amounts of the column called `col` of a filtered table.
pub fn parse_incomes(table: &Table, col: &str) -> (r: Result<Vec<Currency>, ParseError>)
    requires
        table.wf(),
    ensures
        !has_column(table@, col@) ==> r == Err::<Vec<Currency>, ParseError>(
            ParseError::MissingColumn,
        ),
        has_column(table@, col@) ==> match column_amounts(column_cells(table@, col@)) {
            Some(am) => r matches Ok(v) && amounts_view(v@) == am,
            None => r == Err::<Vec<Currency>, ParseError>(ParseError::UnparsableAmount),
        },
{
    match table.column(col) {
        Ok(c) => amounts_in_column(c),
        Err(e) => Err(e),
    }
}

pub open spec fn min(a: int, b: int) -> int {
    if a <= b { a } else { b }
}

/// Dates and amounts paired by position, up to the shorter of the two.
pub open spec fn paired(ds: Seq<Seq<char>>, am: Seq<CurrencyModel>) -> Seq<(Seq<char>, CurrencyModel)> {
    Seq::new(min(ds.len() as int, am.len() as int) as nat, |i: int| (ds[i], am[i]))
}

pub open spec fn records_view(v: Seq<(String, Currency)>) -> Seq<(Seq<char>, CurrencyModel)> {
    v.map_values(|p: (String, Currency)| (p.0@, p.1@))
}

/// Pairs dates and amounts by position; the longer sequence's tail is
/// dropped.
pub fn pair_records(dates: Vec<String>, amounts: Vec<Currency>) -> (r: Vec<(String, Currency)>)
    ensures
        records_view(r@) == paired(texts_view(dates@), amounts_view(amounts@)),
{
    let ghost ds = texts_view(dates@);
    let ghost am = amounts_view(amounts@);
    let n = if dates.len() <= amounts.len() { dates.len() } else { amounts.len() };
    let mut dates = dates;
    assert(dates@.len() == ds.len());
    assert(amounts@.len() == am.len());
    let mut amounts = amounts;
    let mut out: Vec<(String, Currency)> = Vec::new();
    let mut k: usize = 0;
    while k < n
        invariant
            n == min(ds.len() as int, am.len() as int),
            k <= n,
            dates@.len() + k == ds.len(),
            amounts@.len() + k == am.len(),
            texts_view(dates@) == ds.subrange(k as int, ds.len() as int),
            amounts_view(amounts@) == am.subrange(k as int, am.len() as int),
            records_view(out@) == paired(ds, am).subrange(0, k as int),
        decreases n - k,
    {
        let ghost before_d = dates@;
        let ghost before_a = amounts@;
        let ghost before = out@;
        let d = dates.remove(0);
        let a = amounts.remove(0);
        proof {
            assert(texts_view(before_d)[0] == ds[k as int]);
            assert(amounts_view(before_a)[0] == am[k as int]);
            assert(dates@ =~= before_d.subrange(1, before_d.len() as int));
            assert(amounts@ =~= before_a.subrange(1, before_a.len() as int));
            assert forall|j: int| 0 <= j < dates@.len() implies texts_view(dates@)[j] == ds[k + 1 + j] by {
                assert(texts_view(before_d)[j + 1] == ds[k + 1 + j]);
            }
            assert forall|j: int| 0 <= j < amounts@.len() implies amounts_view(amounts@)[j] == am[k + 1 + j] by {
                assert(amounts_view(before_a)[j + 1] == am[k + 1 + j]);
            }
            assert(texts_view(dates@) =~= ds.subrange(k + 1, ds.len() as int));
            assert(amounts_view(amounts@) =~= am.subrange(k + 1, am.len() as int));
        }
        out.push((d, a));
        proof {
            assert(records_view(out@) =~= records_view(before).push((d@, a@)));
            assert(records_view(out@) =~= paired(ds, am).subrange(0, k + 1));
        }
        k = k + 1;
    }
    proof {
        assert(paired(ds, am).subrange(0, k as int) =~= paired(ds, am));
    }
    out
}

/// The records of a filtered table: dates from `date_col` read in `format`,
/// amounts from `amount_col`, paired by position.
pub open spec fn records_of(
    cols: Seq<ColumnModel>,
    date_col: Seq<char>,
    format: Seq<char>,
    amount_col: Seq<char>,
) -> Result<Seq<(Seq<char>, CurrencyModel)>, ParseError> {
    if !has_column(cols, date_col) {
        Err(ParseError::MissingColumn)
    } else {
        match column_dates(column_cells(cols, date_col), format) {
            None => Err(ParseError::MalformedDate),
            Some(ds) => if !has_column(cols, amount_col) {
                Err(ParseError::MissingColumn)
            } else {
                match column_amounts(column_cells(cols, amount_col)) {
                    None => Err(ParseError::UnparsableAmount),
                    Some(am) => Ok(paired(ds, am)),
                }
            },
        }
    }
}

/// The records that a statement table yields.
pub open spec fn transactions_of(cols: Seq<ColumnModel>) -> Result<
    Seq<(Seq<char>, CurrencyModel)>,
    ParseError,
> {
    match layout_of(cols) {
        None => Err(ParseError::UnsupportedSchema),
        Some(Layout::Savings) => match interest_rows(cols) {
            Err(e) => Err(e),
            Ok(f) => records_of(f, "Completed Date"@, savings_date_format(), "Money in"@),
        },
        Some(Layout::Investment) => match dividend_and_fee_rows(cols) {
            Err(e) => Err(e),
            Ok(f) => records_of(f, "Date"@, investment_date_format(), "Total Amount"@),
        },
    }
}

/// Turns a statement table into its ordered (date, amount) records: the
/// layout is detected, the rows of interest kept, and their dates and
/// amounts parsed and paired.
pub fn parse_revolut_transactions(table: &Table) -> (r: Result<Vec<(String, Currency)>, ParseError>)
    requires
        table.wf(),
    ensures
        match transactions_of(table@) {
            Ok(s) => r matches Ok(v) && records_view(v@) == s,
            Err(e) => r matches Err(x) && x == e,
        },
{
    let layout = match detect_layout(table) {
        Ok(l) => l,
        Err(e) => return Err(e),
    };
    let dates: Vec<String>;
    let incomes: Vec<Currency>;
    match layout {
        Layout::Savings => {
            let rows = match extract_intrest_rate_transactions(table) {
                Ok(t) => t,
                Err(e) => return Err(e),
            };
            dates = match parse_transaction_dates(&rows) {
                Ok(d) => d,
                Err(e) => return Err(e),
            };
            incomes = match parse_incomes(&rows, "Money in") {
                Ok(a) => a,
                Err(e) => return Err(e),
            };
        },
        Layout::Investment => {
            let rows = match extract_investment_gains_and_costs_transactions(table) {
                Ok(t) => t,
                Err(e) => return Err(e),
            };
            dates = match parse_investment_transaction_dates(&rows) {
                Ok(d) => d,
                Err(e) => return Err(e),
            };
            incomes = match parse_incomes(&rows, "Total Amount") {
                Ok(a) => a,
                Err(e) => return Err(e),
            };
        },
    }
    Ok(pair_records(dates, incomes))
}

/// Layout detection is total: every table is a savings statement, an
/// investment statement, or unsupported, and exactly one of these.
pub proof fn law_layout_total(cols: Seq<ColumnModel>)
    ensures
        (layout_of(cols) == Some(Layout::Savings)) as int + (layout_of(cols) == Some(
            Layout::Investment,
        )) as int + (layout_of(cols) is None) as int == 1,
{
}

/// Parsing is deterministic: two tables with the same columns and cells
/// yield the same records, or the same error.
pub proof fn law_same_table_same_records(a: Seq<ColumnModel>, b: Seq<ColumnModel>)
    requires
        a == b,
    ensures
        transactions_of(a) == transactions_of(b),
{
}

} // verus!
