use revolut_statements::amount::{extract_cash, Currency, Decimal};
use revolut_statements::dates::{
    canonical_date, exchange_rate_url, normalize_investment_date, normalize_savings_date, CivilDate,
};
use revolut_statements::statement::{
    detect_layout, extract_intrest_rate_transactions,
    extract_investment_gains_and_costs_transactions, pair_records, parse_incomes,
    parse_investment_transaction_dates, parse_revolut_transactions, parse_transaction_dates, Layout,
};
use revolut_statements::table::{Column, Table};
use revolut_statements::text::{contains_text, same_text};
use revolut_statements::ParseError;

#[derive(Debug, PartialEq)]
enum Money {
    EUR(f64),
    PLN(f64),
    USD(f64),
}

fn decimal_value(d: &Decimal) -> f64 {
    let text = format!(
        "{}0{}.{}0e{}0{}",
        if d.negative { "-" } else { "" },
        d.whole,
        d.fraction,
        if d.exponent_negative { "-" } else { "" },
        d.exponent
    );
    text.parse::<f64>().unwrap()
}

fn money(c: Currency) -> Money {
    match c {
        Currency::EUR(d) => Money::EUR(decimal_value(&d)),
        Currency::PLN(d) => Money::PLN(decimal_value(&d)),
        Currency::USD(d) => Money::USD(decimal_value(&d)),
    }
}

fn moneys(v: Result<Vec<Currency>, ParseError>) -> Result<Vec<Money>, ParseError> {
    v.map(|cs| cs.into_iter().map(money).collect())
}

fn records(
    v: Result<Vec<(String, Currency)>, ParseError>,
) -> Result<Vec<(String, Money)>, ParseError> {
    v.map(|rs| rs.into_iter().map(|(d, c)| (d, money(c))).collect())
}

fn column(name: &str, cells: Vec<&str>) -> Column {
    Column {
        name: name.to_owned(),
        cells: cells.into_iter().map(|c| Some(c.to_owned())).collect(),
    }
}

fn table(columns: Vec<Column>) -> Table {
    Table::new(columns).map_err(|_| "Error creating DataFrame").unwrap()
}

#[test]
fn test_extract_cash() {
    assert_eq!(extract_cash("+€0.07").map(money), Ok(Money::EUR(0.07)));
    assert_eq!(extract_cash("+€6,000").map(money), Ok(Money::EUR(6000.00)));
    assert_eq!(extract_cash("+€600").map(money), Ok(Money::EUR(600.00)));
    assert_eq!(extract_cash("+€6,000.45").map(money), Ok(Money::EUR(6000.45)));

    assert_eq!(extract_cash("+1.06 PLN").map(money), Ok(Money::PLN(1.06)));
    assert_eq!(extract_cash("+4,000 PLN").map(money), Ok(Money::PLN(4000.00)));
    assert_eq!(extract_cash("+500 PLN").map(money), Ok(Money::PLN(500.00)));
    assert_eq!(extract_cash("+4,000.32 PLN").map(money), Ok(Money::PLN(4000.32)));

    assert_eq!(extract_cash("$2.94").map(money), Ok(Money::USD(2.94)));
    assert_eq!(extract_cash("-$0.51").map(money), Ok(Money::USD(-0.51)));
}

#[test]
fn test_parse_incomes() {
    let moneyin = column("Money in", vec!["+€6,000", "+€3,000"]);
    let description = column("Description", vec!["odsetki", "odsetki"]);
    let df = table(vec![description, moneyin]);
    assert_eq!(
        moneys(parse_incomes(&df, "Money in")),
        Ok(vec![Money::EUR(6000.00), Money::EUR(3000.00)])
    );
}

#[test]
fn test_parse_investment_incomes() {
    let moneyin = column("Total Amount", vec!["$2.94", "-$0.51"]);
    let description = column("Description", vec!["DIVIDEND", "CUSTODY FEE"]);
    let df = table(vec![description, moneyin]);
    assert_eq!(
        moneys(parse_incomes(&df, "Total Amount")),
        Ok(vec![Money::USD(2.94), Money::USD(-0.51)])
    );
}

#[test]
fn test_parse_transaction_dates() {
    let completed_dates = column("Completed Date", vec!["25 Aug 2023", "1 Sep 2023"]);
    let description = column("Description", vec!["odsetki", "odsetki"]);
    let df = table(vec![description, completed_dates]);
    let expected_first_date = "08/25/23".to_owned();
    let expected_second_date = "09/01/23".to_owned();
    assert_eq!(
        parse_transaction_dates(&df),
        Ok(vec![expected_first_date, expected_second_date])
    );
}

#[test]
fn test_parse_investment_transaction_dates() {
    let completed_dates = column(
        "Date",
        vec!["2023-12-08T14:30:08.150Z", "2023-09-09T05:35:43.253726Z"],
    );
    let description = column("Type", vec!["DIVIDEND", "CUSTODY FEE"]);
    let df = table(vec![description, completed_dates]);
    let expected_first_date = "12/08/23".to_owned();
    let expected_second_date = "09/09/23".to_owned();
    assert_eq!(
        parse_investment_transaction_dates(&df),
        Ok(vec![expected_first_date, expected_second_date])
    );
}

fn savings_table() -> Table {
    table(vec![
        column("Type", vec!["INTEREST", "TRANSFER", "INTEREST"]),
        column("Completed Date", vec!["25 Aug 2023", "26 Aug 2023", "1 Sep 2023"]),
        column(
            "Description",
            vec!["Gross interest", "To pocket EUR Savings", "Odsetki brutto"],
        ),
        column("Money in", vec!["+€0.07", "+€6,000", "+€0.05"]),
    ])
}

#[test]
fn savings_statement_keeps_interest_rows_only() {
    assert_eq!(
        records(parse_revolut_transactions(&savings_table())),
        Ok(vec![
            ("08/25/23".to_owned(), Money::EUR(0.07)),
            ("09/01/23".to_owned(), Money::EUR(0.05)),
        ])
    );
}

#[test]
fn savings_statement_single_interest_row() {
    let t = table(vec![
        column("Completed Date", vec!["25 Aug 2023", "26 Aug 2023"]),
        column("Description", vec!["Gross interest", "Card payment"]),
        column("Money in", vec!["+€0.07", "+€10"]),
    ]);
    assert_eq!(
        records(parse_revolut_transactions(&t)),
        Ok(vec![("08/25/23".to_owned(), Money::EUR(0.07))])
    );
}

fn investment_table() -> Table {
    table(vec![
        column(
            "Date",
            vec![
                "2023-12-01T10:00:00.000Z",
                "2023-12-05T10:00:00.000Z",
                "2023-12-14T14:30:08.150Z",
            ],
        ),
        column("Ticker", vec!["", "AAPL", "AAPL"]),
        column("Type", vec!["CUSTODY FEE", "BUY - MARKET", "DIVIDEND"]),
        column("Quantity", vec!["", "1", ""]),
        column("Price per share", vec!["", "$190.00", ""]),
        column("Total Amount", vec!["-$0.51", "$190.00", "$2.94"]),
    ])
}

#[test]
fn investment_statement_keeps_dividends_and_fees_in_order() {
    assert_eq!(
        records(parse_revolut_transactions(&investment_table())),
        Ok(vec![
            ("12/01/23".to_owned(), Money::USD(-0.51)),
            ("12/14/23".to_owned(), Money::USD(2.94)),
        ])
    );
}

#[test]
fn investment_dividend_then_fee_keeps_order() {
    let t = table(vec![
        column("Date", vec!["2023-12-14T14:30:08.150Z", "2023-12-15T09:00:00.5Z"]),
        column("Type", vec!["DIVIDEND", "CUSTODY FEE"]),
        column("Price per share", vec!["", ""]),
        column("Total Amount", vec!["$2.94", "-$0.51"]),
    ]);
    assert_eq!(
        records(parse_revolut_transactions(&t)),
        Ok(vec![
            ("12/14/23".to_owned(), Money::USD(2.94)),
            ("12/15/23".to_owned(), Money::USD(-0.51)),
        ])
    );
}

#[test]
fn parsing_twice_gives_the_same_records() {
    let t = savings_table();
    assert_eq!(
        records(parse_revolut_transactions(&t)),
        records(parse_revolut_transactions(&t))
    );
}

#[test]
fn layout_detection() {
    assert_eq!(detect_layout(&savings_table()), Ok(Layout::Savings));
    assert_eq!(detect_layout(&investment_table()), Ok(Layout::Investment));
    let other = table(vec![column("Name", vec!["x"]), column("Value", vec!["1"])]);
    assert_eq!(detect_layout(&other), Err(ParseError::UnsupportedSchema));
    assert_eq!(parse_revolut_transactions(&other).err(), Some(ParseError::UnsupportedSchema));
}

#[test]
fn savings_columns_win_over_investment_ones() {
    let both = table(vec![
        column("Completed Date", vec!["25 Aug 2023"]),
        column("Description", vec!["Gross interest"]),
        column("Money in", vec!["+€1"]),
        column("Type", vec!["DIVIDEND"]),
        column("Price per share", vec![""]),
    ]);
    assert_eq!(detect_layout(&both), Ok(Layout::Savings));
}

#[test]
fn investment_without_total_amount_is_missing_column() {
    let t = table(vec![
        column("Date", vec!["2023-12-14T14:30:08.150Z"]),
        column("Type", vec!["DIVIDEND"]),
        column("Price per share", vec![""]),
    ]);
    assert_eq!(parse_revolut_transactions(&t).err(), Some(ParseError::MissingColumn));
    assert_eq!(
        extract_investment_gains_and_costs_transactions(&t).err(),
        Some(ParseError::MissingColumn)
    );
    assert_eq!(parse_incomes(&t, "Total Amount").err(), Some(ParseError::MissingColumn));
}

#[test]
fn malformed_date_fails_the_whole_statement() {
    let t = table(vec![
        column("Completed Date", vec!["25 Aug 2023", "2023-08-26"]),
        column("Description", vec!["Gross interest", "Gross interest"]),
        column("Money in", vec!["+€0.07", "+€0.07"]),
    ]);
    assert_eq!(parse_revolut_transactions(&t).err(), Some(ParseError::MalformedDate));
}

#[test]
fn unparsable_amount_fails_the_whole_statement() {
    let t = table(vec![
        column("Completed Date", vec!["25 Aug 2023"]),
        column("Description", vec!["Gross interest"]),
        column("Money in", vec!["0.07 EUR"]),
    ]);
    assert_eq!(parse_revolut_transactions(&t).err(), Some(ParseError::UnparsableAmount));
}

#[test]
fn empty_cells_are_skipped() {
    let t = table(vec![
        Column {
            name: "Completed Date".to_owned(),
            cells: vec![Some("25 Aug 2023".to_owned()), None],
        },
        Column { name: "Money in".to_owned(), cells: vec![None, Some("+€1".to_owned())] },
    ]);
    assert_eq!(parse_transaction_dates(&t), Ok(vec!["08/25/23".to_owned()]));
    assert_eq!(moneys(parse_incomes(&t, "Money in")), Ok(vec![Money::EUR(1.0)]));
}

#[test]
fn malformed_tables_are_refused() {
    assert!(matches!(
        Table::new(vec![column("A", vec!["1", "2"]), column("B", vec!["1"])]),
        Err(ParseError::MalformedTable)
    ));
    assert!(matches!(
        Table::new(vec![column("A", vec!["1"]), column("B", vec!["1", "2"])]),
        Err(ParseError::MalformedTable)
    ));
    assert!(matches!(
        Table::new(vec![column("A", vec!["1"]), column("A", vec!["2"])]),
        Err(ParseError::MalformedTable)
    ));
    assert!(Table::new(vec![]).is_ok());
}

#[test]
fn interest_filter_keeps_all_columns() {
    let kept = extract_intrest_rate_transactions(&savings_table()).unwrap();
    let cols = kept.columns();
    assert_eq!(cols.len(), 4);
    assert_eq!(cols[0].name, "Type");
    assert_eq!(
        cols[0].cells,
        vec![Some("INTEREST".to_owned()), Some("INTEREST".to_owned())]
    );
}

#[test]
fn dividend_filter_needs_exact_type() {
    let t = table(vec![
        column("Date", vec!["2023-12-14T14:30:08.150Z", "2023-12-15T14:30:08.150Z"]),
        column("Type", vec!["DIVIDEND TAX", "dividend"]),
        column("Total Amount", vec!["$1", "$2"]),
    ]);
    let kept = extract_investment_gains_and_costs_transactions(&t).unwrap();
    assert_eq!(kept.columns()[0].cells.len(), 0);
}

#[test]
fn pairing_drops_the_longer_tail() {
    let dates = vec!["01/01/23".to_owned(), "01/02/23".to_owned()];
    let amounts = vec![extract_cash("$1").unwrap()];
    let paired = pair_records(dates, amounts);
    assert_eq!(paired.len(), 1);
    assert_eq!(paired[0].0, "01/01/23");
    assert_eq!(money(paired[0].1.clone()), Money::USD(1.0));
}

#[test]
fn date_normalization() {
    assert_eq!(normalize_savings_date("25 Aug 2023"), Ok("08/25/23".to_owned()));
    assert_eq!(
        normalize_investment_date("2023-12-08T14:30:08.150Z"),
        Ok("12/08/23".to_owned())
    );
    assert_eq!(normalize_savings_date("2023-08-25"), Err(ParseError::MalformedDate));
    assert_eq!(normalize_investment_date("25 Aug 2023"), Err(ParseError::MalformedDate));
}

#[test]
fn canonical_date_pads_and_wraps_the_year() {
    assert_eq!(canonical_date(CivilDate { year: 2005, month: 3, day: 7 }), "03/07/05");
    assert_eq!(canonical_date(CivilDate { year: 1999, month: 12, day: 31 }), "12/31/99");
}

#[test]
fn amount_grammar_details() {
    assert_eq!(extract_cash("+€-5").map(money), Ok(Money::EUR(-5.0)));
    assert_eq!(extract_cash("+€.5").map(money), Ok(Money::EUR(0.5)));
    assert_eq!(extract_cash("+7_PLN").map(money), Ok(Money::PLN(7.0)));
    assert_eq!(extract_cash("-$1,234.5").map(money), Ok(Money::USD(-1234.5)));
    assert_eq!(extract_cash("+€1.5e3").map(money), Ok(Money::EUR(1500.0)));
    assert_eq!(extract_cash("+4E-2 PLN").map(money), Ok(Money::PLN(0.04)));
    assert_eq!(extract_cash("$2e+1").map(money), Ok(Money::USD(20.0)));
    assert_eq!(extract_cash("+€5e").err(), Some(ParseError::UnparsableAmount));
    assert_eq!(extract_cash("€5").err(), Some(ParseError::UnparsableAmount));
    assert_eq!(extract_cash("+5PLN").err(), Some(ParseError::UnparsableAmount));
    assert_eq!(extract_cash("").err(), Some(ParseError::UnparsableAmount));
    assert_eq!(extract_cash("$").err(), Some(ParseError::UnparsableAmount));
    let d = match extract_cash("+€6,000.45").unwrap() {
        Currency::EUR(d) => d,
        _ => panic!("expected euro"),
    };
    assert_eq!((d.negative, d.whole.as_str(), d.fraction.as_str()), (false, "6000", "45"));
    assert!(d.exponent.is_empty());
}

#[test]
fn rate_url_uses_the_previous_day() {
    assert_eq!(
        exchange_rate_url("USD", "PLN", "03/01/23"),
        Ok("https://www.exchange-rates.org/Rate/USD/PLN/02-28-2023/?format=json".to_owned())
    );
    assert_eq!(
        exchange_rate_url("EUR", "PLN", "01/01/24"),
        Ok("https://www.exchange-rates.org/Rate/EUR/PLN/12-31-2023/?format=json".to_owned())
    );
    assert_eq!(exchange_rate_url("USD", "PLN", "2023-03-01"), Err(ParseError::MalformedDate));
}

#[test]
fn text_helpers() {
    assert!(same_text("DIVIDEND", "DIVIDEND"));
    assert!(!same_text("DIVIDEND", "DIVIDENDS"));
    assert!(contains_text("Gross interest paid", "Gross interest"));
    assert!(!contains_text("Gross", "Gross interest"));
    assert!(contains_text("abc", ""));
}
