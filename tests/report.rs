use sol_gas::number::{decimal_string, parse_usize};
use sol_gas::parse::{get_empties, parse_gas_table, split_contracts, ParseError};
use sol_gas::snapshot::Snapshot;
use sol_gas::table::{Contract, Function, GasTable};
use sol_gas::text::tokenize;

const COUNTER: &str = "\
Compiling 1 files with 0.8.19
Ran 2 tests for test/Counter.t.sol:CounterTest
| src/Counter.sol:Counter contract |                 |       |        |       |         |
|----------------------------------|-----------------|-------|--------|-------|---------|
| Deployment Cost                  | Deployment Size |       |        |       |         |
| 106715                           | 277             |       |        |       |         |
| Function Name                    | min             | avg   | median | max   | # calls |
| increment                        | 43404           | 43404 | 43404  | 43404 | 1       |
| setNumber                        | 2390            | 23490 | 23390  | 43390 | 3       |

";

fn row(cells: &[&str]) -> Vec<String> {
    cells.iter().map(|c| c.to_string()).collect()
}

fn header(name: &str) -> Vec<String> {
    row(&[name, "", "", "", "", ""])
}

fn section(name: &str, cost: &str, functions: &[[&str; 6]]) -> Vec<Vec<String>> {
    let mut rows = vec![
        header(name),
        row(&["------", "-----", "---", "---", "---", "---"]),
        row(&["Deployment Cost", "Deployment Size", "", "", "", ""]),
        row(&[cost, "100", "", "", "", ""]),
        row(&["Function Name", "min", "avg", "median", "max", "# calls"]),
    ];
    for f in functions {
        rows.push(row(f));
    }
    rows
}

fn table_of(rows: &[Vec<String>]) -> GasTable {
    parse_gas_table(rows).unwrap()
}

#[test]
fn tokenize_keeps_only_table_lines() {
    let rows = tokenize(COUNTER);
    assert_eq!(rows.len(), 7);
    assert_eq!(rows[0], row(&["src/Counter.sol:Counter contract", "", "", "", "", ""]));
    assert_eq!(rows[2], row(&["Deployment Cost", "Deployment Size", "", "", "", ""]));
    assert_eq!(rows[6], row(&["setNumber", "2390", "23490", "23390", "43390", "3"]));
}

#[test]
fn tokenize_trims_bars_and_whitespace() {
    let rows = tokenize("||  a |\tb\u{a0}|| c ||\nno table here\n|x|");
    assert_eq!(rows, vec![row(&["a", "b", "", "c"]), row(&["x"])]);
}

#[test]
fn tokenize_drops_carriage_return_before_newline() {
    let rows = tokenize("| a | b |\r\n|c|\r");
    assert_eq!(rows, vec![row(&["a", "b"]), row(&["c", ""])]);
}

#[test]
fn tokenize_empty_text() {
    assert!(tokenize("").is_empty());
    assert!(tokenize("\n\n").is_empty());
}

#[test]
fn empties_are_counted() {
    assert_eq!(get_empties(&header("a:b contract")), 5);
    assert_eq!(get_empties(&row(&["", "x", ""])), 2);
    assert_eq!(get_empties(&[]), 0);
}

#[test]
fn numbers_parse_like_usize() {
    assert_eq!(parse_usize("106715"), Some(106715));
    assert_eq!(parse_usize("+7"), Some(7));
    assert_eq!(parse_usize("0"), Some(0));
    assert_eq!(parse_usize(""), None);
    assert_eq!(parse_usize("+"), None);
    assert_eq!(parse_usize("-1"), None);
    assert_eq!(parse_usize("12a"), None);
    assert_eq!(parse_usize(" 1"), None);
    assert_eq!(parse_usize("18446744073709551615"), Some(usize::MAX));
    assert_eq!(parse_usize("18446744073709551616"), None);
}

#[test]
fn numbers_print_in_decimal() {
    assert_eq!(decimal_string(0), "0");
    assert_eq!(decimal_string(7), "7");
    assert_eq!(decimal_string(200), "200");
    assert_eq!(decimal_string(usize::MAX), usize::MAX.to_string());
}

#[test]
fn split_empty_and_unbounded_tables() {
    assert!(split_contracts(&[]).is_empty());
    assert!(split_contracts(&[row(&["a", "b"])]).is_empty());
}

#[test]
fn split_single_boundary_is_whole_table() {
    let rows = section("a.sol:A contract", "1", &[]);
    assert_eq!(split_contracts(&rows), vec![(0, 5)]);
}

#[test]
fn split_two_boundaries() {
    let mut rows = section("a.sol:A contract", "1", &[]);
    rows.extend(section("b.sol:B contract", "2", &[]));
    assert_eq!(split_contracts(&rows), vec![(0, 5), (5, 10)]);
}

#[test]
fn split_n_sections_from_n_plus_one_boundaries() {
    let blank = row(&["", "", "", "", ""]);
    let mut rows = section("a.sol:A contract", "1", &[]);
    rows.extend(section("b.sol:B contract", "2", &[]));
    rows.push(blank.clone());
    rows.extend(section("c.sol:C contract", "3", &[]));
    assert_eq!(split_contracts(&rows), vec![(0, 5), (5, 10), (11, 16)]);
    let table = table_of(&rows);
    assert_eq!(table.contracts().len(), 3);
    assert_eq!(table.deployment_cost(), 6);
}

#[test]
fn parse_counter_report() {
    let rows = tokenize(COUNTER);
    let table = table_of(&rows);
    let contracts = table.contracts();
    assert_eq!(contracts.len(), 1);
    let c: &Contract = &contracts[0];
    assert_eq!(c.file, "src/Counter.sol");
    assert_eq!(c.contract, "Counter");
    assert_eq!(c.c_type, "contract");
    assert_eq!(c.deployment_cost, 106715);
    assert_eq!(c.deployment_size, 277);
    assert_eq!(c.functions.len(), 2);
    let f: &Function = &c.functions[1];
    assert_eq!(f.name, "setNumber");
    assert_eq!((f.min, f.avg, f.median, f.max, f.calls), (2390, 23490, 23390, 43390, 3));
    assert_eq!(table.deployment_cost(), 106715);
    assert_eq!(table.min_cost(), 43404 + 2390);
    assert_eq!(table.avg_cost(), 43404 + 23490);
    assert_eq!(table.median_cost(), 43404 + 23390);
    assert_eq!(table.max_cost(), 43404 + 43390);
}

#[test]
fn header_splits_at_first_colon_and_first_space() {
    let rows = section("lib/x:y.sol:Lib library of things", "1", &[]);
    let table = table_of(&rows);
    let c = &table.contracts()[0];
    assert_eq!(c.file, "lib/x");
    assert_eq!(c.contract, "y.sol:Lib");
    assert_eq!(c.c_type, "library of things");
}

#[test]
fn empty_rows_give_empty_table() {
    let table = table_of(&[]);
    assert!(table.contracts().is_empty());
    assert_eq!(table.deployment_cost(), 0);
}

fn parse_err(rows: &[Vec<String>]) -> ParseError {
    match parse_gas_table(rows) {
        Ok(_) => panic!("rows were accepted"),
        Err(e) => e,
    }
}

#[test]
fn rejects_rows_without_boundary() {
    assert_eq!(parse_err(&[row(&["a", "b"])]), ParseError::NoSectionBoundary);
}

#[test]
fn rejects_malformed_header() {
    let mut rows = section("nocolon contract", "1", &[]);
    assert_eq!(parse_err(&rows), ParseError::MalformedHeader);
    rows[0][0] = "a.sol:Nospace".to_string();
    assert_eq!(parse_err(&rows), ParseError::MalformedHeader);
    rows[0][0] = "my file.sol:A contract".to_string();
    assert_eq!(parse_err(&rows), ParseError::MalformedHeader);
}

#[test]
fn rejects_short_sections() {
    let rows = section("a.sol:A contract", "1", &[]);
    assert_eq!(parse_err(&rows[..1]), ParseError::MissingSeparator);
    assert_eq!(parse_err(&rows[..2]), ParseError::MissingColumnTitles);
    assert_eq!(parse_err(&rows[..3]), ParseError::MissingDeploymentMetrics);
    assert_eq!(parse_err(&rows[..4]), ParseError::MissingFunctionTitles);
}

#[test]
fn rejects_bad_separator() {
    let mut rows = section("a.sol:A contract", "1", &[]);
    rows[1][2] = "--=".to_string();
    assert_eq!(parse_err(&rows), ParseError::MalformedSeparator);
}

#[test]
fn rejects_wrong_column_titles() {
    let mut rows = section("a.sol:A contract", "1", &[]);
    rows[2][1] = "Deployment size".to_string();
    assert_eq!(parse_err(&rows), ParseError::WrongColumnTitles);
    rows[2] = row(&["Deployment Cost"]);
    assert_eq!(parse_err(&rows), ParseError::WrongColumnTitles);
}

#[test]
fn rejects_missing_deployment_row() {
    let mut rows = section("a.sol:A contract", "1", &[]);
    rows.truncate(3);
    assert_eq!(parse_err(&rows), ParseError::MissingDeploymentMetrics);
}

#[test]
fn rejects_bad_deployment_row() {
    let rows = section("a.sol:A contract", "12x", &[]);
    assert_eq!(parse_err(&rows), ParseError::MalformedDeploymentMetrics);
    let mut rows = section("a.sol:A contract", "1", &[]);
    rows[3] = row(&["1"]);
    assert_eq!(parse_err(&rows), ParseError::MalformedDeploymentMetrics);
}

#[test]
fn rejects_bad_function_row() {
    let rows = section("a.sol:A contract", "1", &[["f", "1", "2", "3", "x", "5"]]);
    assert_eq!(parse_err(&rows), ParseError::MalformedFunctionRow);
    let mut rows = section("a.sol:A contract", "1", &[]);
    rows.push(row(&["f", "1", "2", "3", "4"]));
    assert_eq!(parse_err(&rows), ParseError::MalformedFunctionRow);
}

#[test]
fn rejects_sums_beyond_usize() {
    let big = usize::MAX.to_string();
    let mut rows = section("a.sol:A contract", "1", &[["f", &big, "1", "1", "1", "1"]]);
    rows.push(row(&["g", "1", "1", "1", "1", "1"]));
    assert_eq!(parse_err(&rows), ParseError::TotalOverflow);
}

#[test]
fn first_run_reports_four_increases() {
    let table = table_of(&tokenize(COUNTER));
    let diff = Snapshot::default().get_diff(&table);
    assert_eq!(
        diff,
        "Deployment gas cost increased by 106715\n\
         Minimum functions call gas cost increased by 45794\n\
         Average functions call gas cost increased by 66894\n\
         Maximum functions call gas cost increased by 86794\n"
    );
}

#[test]
fn snapshot_of_same_table_reports_nothing() {
    let table = table_of(&tokenize(COUNTER));
    let snapshot = Snapshot::from(&table);
    assert_eq!(snapshot.deployment_cost(), 106715);
    assert_eq!(snapshot.min_cost(), 45794);
    assert_eq!(snapshot.avg_cost(), 66894);
    assert_eq!(snapshot.max_cost(), 86794);
    let reloaded = Snapshot::new(106715, 45794, 66894, 86794);
    assert_eq!(reloaded.get_diff(&table), "");
}

#[test]
fn average_reduction_and_increase() {
    let rows = section("a.sol:A contract", "5", &[["f", "10", "800", "800", "900", "1"]]);
    let table = table_of(&rows);
    let before = Snapshot::new(5, 10, 1000, 900);
    assert_eq!(before.get_diff(&table), "Average functions call gas cost reduced by 200\n");
    let rows = section("a.sol:A contract", "5", &[["f", "10", "700", "700", "900", "1"]]);
    let table = table_of(&rows);
    let before = Snapshot::new(5, 10, 500, 900);
    assert_eq!(before.get_diff(&table), "Average functions call gas cost increased by 200\n");
}

#[test]
fn each_metric_line_in_order() {
    let rows = section("a.sol:A contract", "50", &[["f", "10", "20", "25", "30", "1"]]);
    let table = table_of(&rows);
    let before = Snapshot::new(40, 15, 20, 10);
    assert_eq!(
        before.get_diff(&table),
        "Deployment gas cost increased by 10\n\
         Minimum functions call gas cost reduced by 5\n\
         Maximum functions call gas cost increased by 20\n"
    );
}

#[test]
fn appended_function_raises_sums() {
    let base = section("a.sol:A contract", "9", &[["f", "1", "2", "3", "4", "5"]]);
    let mut more = base.clone();
    more.push(row(&["g", "10", "20", "30", "40", "1"]));
    let t1 = table_of(&base);
    let t2 = table_of(&more);
    assert_eq!(t2.min_cost(), t1.min_cost() + 10);
    assert_eq!(t2.avg_cost(), t1.avg_cost() + 20);
    assert_eq!(t2.max_cost(), t1.max_cost() + 40);
    assert_eq!(t2.deployment_cost(), t1.deployment_cost());
}

#[test]
fn gas_table_new_checks_sums() {
    let f = |min: usize| Function {
        name: "f".to_string(),
        min,
        avg: 1,
        median: 1,
        max: 1,
        calls: 1,
    };
    let c = |fs: Vec<Function>| Contract {
        file: "a.sol".to_string(),
        contract: "A".to_string(),
        c_type: "contract".to_string(),
        deployment_cost: 3,
        deployment_size: 4,
        functions: fs,
    };
    let t = GasTable::new(vec![c(vec![f(2)]), c(vec![f(5), f(1)])]).unwrap();
    assert_eq!(t.min_cost(), 8);
    assert_eq!(t.deployment_cost(), 6);
    assert!(GasTable::new(vec![c(vec![f(usize::MAX), f(1)])]).is_none());
}
