use vstd::prelude::*;
use crate::number::{parse_usize, usize_of};
use crate::table::{Contract, ContractView, Function, FunctionView, GasTable, totals_fit};

verus! {

/// Why a report's rows could not be read as a table of contracts.
#[derive(Clone, Copy, PartialEq, Eq, Structural, Debug)]
pub enum ParseError {
    /// The rows are not empty, yet no row is a section boundary.
    NoSectionBoundary,
    /// A section has no rows.
    MissingHeader,
    /// A section's first row does not start with a `file:contract type` cell.
    MalformedHeader,
    /// A section ends after its header.
    MissingSeparator,
    /// A section's second row holds a cell with a character other than `-`.
    MalformedSeparator,
    /// A section ends after its separator.
    MissingColumnTitles,
    /// A section's third row does not start with `Deployment Cost`, `Deployment Size`.
    WrongColumnTitles,
    /// A section ends after its column titles.
    MissingDeploymentMetrics,
    /// A section's deployment row does not start with two unsigned numbers.
    MalformedDeploymentMetrics,
    /// A section ends after its deployment row.
    MissingFunctionTitles,
    /// A function row has fewer than six cells or a cost cell that is not a number.
    MalformedFunctionRow,
    /// A whole-report sum of the parsed contracts exceeds `usize`.
    TotalOverflow,
}

/// The number of empty cells in a row.
pub open spec fn empty_count(row: Seq<Seq<char>>) -> nat
    decreases row.len(),
{
    if row.len() == 0 {
        0
    } else {
        empty_count(row.drop_last()) + if row.last().len() == 0 {
            1nat
        } else {
            0nat
        }
    }
}

/// A row that delimits a contract section: exactly five of its cells are empty.
pub open spec fn is_boundary(row: Seq<Seq<char>>) -> bool {
    empty_count(row) == 5
}

/// The indices of the boundary rows, in increasing order.
pub open spec fn boundaries(rows: Seq<Seq<Seq<char>>>) -> Seq<int>
    decreases rows.len(),
{
    if rows.len() == 0 {
        seq![]
    } else if is_boundary(rows.last()) {
        boundaries(rows.drop_last()).push(rows.len() - 1)
    } else {
        boundaries(rows.drop_last())
    }
}

/// The half-open row ranges of the contract sections. With one boundary the
/// whole table is one section. With `k >= 2` boundaries at `b0 < b1 < ...`, the
/// sections are `[0, b1)`, then `[bi, bi+1)` for `1 <= i <= k - 3`, then
/// `[b(k-1), len)`.
pub open spec fn section_bounds(rows: Seq<Seq<Seq<char>>>) -> Seq<(int, int)> {
    let b = boundaries(rows);
    let k = b.len();
    if rows.len() == 0 || k == 0 {
        seq![]
    } else if k == 1 {
        seq![(0, rows.len() as int)]
    } else {
        seq![(0, b[1])] + Seq::new(
            if k >= 3 {
                (k - 3) as nat
            } else {
                0nat
            },
            |i: int| (b[i + 1], b[i + 2]),
        ) + seq![(b[k - 1], rows.len() as int)]
    }
}

/// The index of the first `c` in `s`.
pub open spec fn first_index(s: Seq<char>, c: char) -> Option<int>
    decreases s.len(),
{
    if s.len() == 0 {
        None
    } else if s[0] == c {
        Some(0)
    } else {
        match first_index(s.drop_first(), c) {
            Some(i) => Some(i + 1),
            None => None,
        }
    }
}

/// A header cell `file:contract type` split into its three parts: the file runs
/// up to the first `:`, the contract from there to the first space, the type
/// is the rest.
pub open spec fn header_parts(cell: Seq<char>) -> Option<(Seq<char>, Seq<char>, Seq<char>)> {
    match (first_index(cell, ':'), first_index(cell, ' ')) {
        (Some(cl), Some(sp)) => if cl < sp {
            Some((cell.take(cl), cell.subrange(cl + 1, sp), cell.skip(sp + 1)))
        } else {
            None
        },
        _ => None,
    }
}

/// A separator row: every character of every cell is `-`.
pub open spec fn is_rule_row(row: Seq<Seq<char>>) -> bool {
    forall|i: int, j: int| 0 <= i < row.len() && 0 <= j < row[i].len() ==> #[trigger] row[i][j] == '-'
}

/// The column titles of the deployment sub-table.
pub open spec fn is_deployment_titles(row: Seq<Seq<char>>) -> bool {
    &&& row.len() >= 2
    &&& row[0] == "Deployment Cost"@
    &&& row[1] == "Deployment Size"@
}

/// A deployment row: its first two cells are unsigned numbers.
pub open spec fn is_deployment_row(row: Seq<Seq<char>>) -> bool {
    &&& row.len() >= 2
    &&& usize_of(row[0]) is Some
    &&& usize_of(row[1]) is Some
}

/// A function row: a name, then min, avg, median, max and calls as numbers.
pub open spec fn function_row(row: Seq<Seq<char>>) -> Option<FunctionView> {
    if row.len() >= 6 && usize_of(row[1]) is Some && usize_of(row[2]) is Some && usize_of(
        row[3],
    ) is Some && usize_of(row[4]) is Some && usize_of(row[5]) is Some {
        Some(
            FunctionView {
                name: row[0],
                min: usize_of(row[1])->0,
                avg: usize_of(row[2])->0,
                median: usize_of(row[3])->0,
                max: usize_of(row[4])->0,
                calls: usize_of(row[5])->0,
            },
        )
    } else {
        None
    }
}

/// One section read as a contract: header, separator, column titles,
/// deployment row, a function title row that is not examined, then the
/// function rows up to the end of the section.
pub open spec fn parse_section(sec: Seq<Seq<Seq<char>>>) -> Result<ContractView, ParseError> {
    if sec.len() < 1 {
        Err(ParseError::MissingHeader)
    } else if sec[0].len() < 1 || header_parts(sec[0][0]) is None {
        Err(ParseError::MalformedHeader)
    } else if sec.len() < 2 {
        Err(ParseError::MissingSeparator)
    } else if !is_rule_row(sec[1]) {
        Err(ParseError::MalformedSeparator)
    } else if sec.len() < 3 {
        Err(ParseError::MissingColumnTitles)
    } else if !is_deployment_titles(sec[2]) {
        Err(ParseError::WrongColumnTitles)
    } else if sec.len() < 4 {
        Err(ParseError::MissingDeploymentMetrics)
    } else if !is_deployment_row(sec[3]) {
        Err(ParseError::MalformedDeploymentMetrics)
    } else if sec.len() < 5 {
        Err(ParseError::MissingFunctionTitles)
    } else if exists|i: int| 5 <= i < sec.len() && #[trigger] function_row(sec[i]) is None {
        Err(ParseError::MalformedFunctionRow)
    } else {
        let h = header_parts(sec[0][0])->0;
        Ok(
            ContractView {
                file: h.0,
                contract: h.1,
                c_type: h.2,
                deployment_cost: usize_of(sec[3][0])->0,
                deployment_size: usize_of(sec[3][1])->0,
                functions: sec.skip(5).map_values(|r: Seq<Seq<char>>| function_row(r)->0),
            },
        )
    }
}

/// The sections given by `bounds`, read in order; the first failure wins.
pub open spec fn parse_sections(rows: Seq<Seq<Seq<char>>>, bounds: Seq<(int, int)>) -> Result<
    Seq<ContractView>,
    ParseError,
>
    decreases bounds.len(),
{
    if bounds.len() == 0 {
        Ok(seq![])
    } else {
        match parse_sections(rows, bounds.drop_last()) {
            Err(e) => Err(e),
            Ok(cs) => match parse_section(rows.subrange(bounds.last().0, bounds.last().1)) {
                Err(e) => Err(e),
                Ok(c) => Ok(cs.push(c)),
            },
        }
    }
}

/// A whole table of rows read as contracts.
pub open spec fn parse_rows(rows: Seq<Seq<Seq<char>>>) -> Result<Seq<ContractView>, ParseError> {
    if rows.len() > 0 && boundaries(rows).len() == 0 {
        Err(ParseError::NoSectionBoundary)
    } else {
        match parse_sections(rows, section_bounds(rows)) {
            Err(e) => Err(e),
            Ok(cs) => if totals_fit(cs) {
                Ok(cs)
            } else {
                Err(ParseError::TotalOverflow)
            },
        }
    }
}

/// The number of empty cells in `slice`.
pub fn get_empties(slice: &[String]) -> (r: usize)
    ensures
        r as nat == empty_count(slice.deep_view()),
{
    let ghost v = slice.deep_view();
    let mut n: usize = 0;
    let mut i: usize = 0;
    while i < slice.len()
        invariant
            i <= slice@.len(),
            n <= i,
            v == slice.deep_view(),
            n as nat == empty_count(v.take(i as int)),
        decreases slice@.len() - i,
    {
        assert(v.take(i + 1).drop_last() =~= v.take(i as int));
        assert(v[i as int] == slice@[i as int]@);
        if slice[i].as_str().is_empty() {
            n = n + 1;
        }
        i = i + 1;
    }
    assert(v.take(i as int) =~= v);
    n
}

} // verus!

verus! {

/// The indices of the boundary rows of `gas_table`.
fn boundary_rows(gas_table: &[Vec<String>]) -> (r: Vec<usize>)
    ensures
        r@.map_values(|x: usize| x as int) == boundaries(gas_table.deep_view()),
        forall|a: int, b: int| 0 <= a < b < r@.len() ==> r@[a] < r@[b],
        forall|a: int| 0 <= a < r@.len() ==> r@[a] < gas_table@.len(),
{
    let ghost rows = gas_table.deep_view();
    let mut idx: Vec<usize> = Vec::new();
    let mut i: usize = 0;
    while i < gas_table.len()
        invariant
            i <= gas_table@.len(),
            rows == gas_table.deep_view(),
            idx@.map_values(|x: usize| x as int) == boundaries(rows.take(i as int)),
            forall|a: int, b: int| 0 <= a < b < idx@.len() ==> idx@[a] < idx@[b],
            forall|a: int| 0 <= a < idx@.len() ==> idx@[a] < i,
        decreases gas_table@.len() - i,
    {
        assert(rows.take(i + 1).drop_last() =~= rows.take(i as int));
        assert(rows[i as int] == gas_table@[i as int].deep_view());
        if get_empties(gas_table[i].as_slice()) == 5 {
            idx.push(i);
            assert(idx@.map_values(|x: usize| x as int) =~= boundaries(rows.take(i as int)).push(
                i as int,
            ));
        }
        i = i + 1;
    }
    assert(rows.take(i as int) =~= rows);
    idx
}

/// The half-open row ranges of the contract sections of `gas_table`.
pub fn split_contracts(gas_table: &[Vec<String>]) -> (r: Vec<(usize, usize)>)
    ensures
        r@.map_values(|p: (usize, usize)| (p.0 as int, p.1 as int)) == section_bounds(
            gas_table.deep_view(),
        ),
        forall|k: int| 0 <= k < r@.len() ==> (#[trigger] r@[k]).0 <= r@[k].1 <= gas_table@.len(),
{
    let ghost rows = gas_table.deep_view();
    let ghost spec_r = section_bounds(rows);
    let mut contracts: Vec<(usize, usize)> = Vec::new();
    if gas_table.len() == 0 {
        assert(contracts@.map_values(|p: (usize, usize)| (p.0 as int, p.1 as int)) =~= spec_r);
        return contracts;
    }
    let n = gas_table.len();
    let indexes = boundary_rows(gas_table);
    let ghost b = boundaries(rows);
    assert(forall|a: int| 0 <= a < indexes@.len() ==> b[a] == indexes@[a] as int);
    let k = indexes.len();
    if k == 0 {
        assert(contracts@.map_values(|p: (usize, usize)| (p.0 as int, p.1 as int)) =~= spec_r);
        return contracts;
    }
    if k == 1 {
        contracts.push((0, n));
        assert(contracts@.map_values(|p: (usize, usize)| (p.0 as int, p.1 as int)) =~= spec_r);
        return contracts;
    }
    contracts.push((0, indexes[1]));
    let ghost mid = Seq::new(
        if k >= 3 {
            (k - 3) as nat
        } else {
            0nat
        },
        |i: int| (b[i + 1], b[i + 2]),
    );
    let mut i: usize = 1;
    while i < k - 2
        invariant
            1 <= i,
            k >= 2,
            i <= k - 2 || (k == 2 && i == 1),
            k == indexes@.len(),
            k == b.len(),
            mid.len() == if k >= 3 {
                (k - 3) as nat
            } else {
                0nat
            },
            forall|q: int| 0 <= q < mid.len() ==> #[trigger] mid[q] == (b[q + 1], b[q + 2]),
            n == gas_table@.len(),
            forall|a: int| 0 <= a < k ==> b[a] == indexes@[a] as int,
            forall|a: int, c: int| 0 <= a < c < k ==> indexes@[a] < indexes@[c],
            forall|a: int| 0 <= a < k ==> indexes@[a] < n,
            contracts@.map_values(|p: (usize, usize)| (p.0 as int, p.1 as int)) =~= seq![
                (0, b[1]),
            ] + mid.take(i - 1),
            forall|q: int|
                0 <= q < contracts@.len() ==> (#[trigger] contracts@[q]).0 <= contracts@[q].1 <= n,
        decreases k - i,
    {
        let ghost before = contracts@.map_values(|p: (usize, usize)| (p.0 as int, p.1 as int));
        contracts.push((indexes[i], indexes[i + 1]));
        assert(mid[i - 1] == (b[i as int], b[i + 1]));
        assert(mid.take(i as int) =~= mid.take(i - 1).push(mid[i - 1]));
        assert(contracts@.map_values(|p: (usize, usize)| (p.0 as int, p.1 as int)) =~= before.push(
            (b[i as int], b[i + 1]),
        ));
        assert(contracts@.map_values(|p: (usize, usize)| (p.0 as int, p.1 as int)) =~= seq![
            (0, b[1]),
        ] + mid.take(i as int));
        i = i + 1;
    }
    assert(mid.take(i - 1) =~= mid);
    contracts.push((indexes[k - 1], n));
    assert(contracts@.map_values(|p: (usize, usize)| (p.0 as int, p.1 as int)) =~= spec_r);
    contracts
}

} // verus!

verus! {

proof fn lemma_first_index_at(s: Seq<char>, c: char, i: int)
    requires
        0 <= i < s.len(),
        s[i] == c,
        forall|j: int| 0 <= j < i ==> s[j] != c,
    ensures
        first_index(s, c) == Some(i),
    decreases i,
{
    if i > 0 {
        assert forall|j: int| 0 <= j < i - 1 implies s.drop_first()[j] != c by {
            assert(s.drop_first()[j] == s[j + 1]);
        }
        lemma_first_index_at(s.drop_first(), c, i - 1);
    }
}

proof fn lemma_first_index_none(s: Seq<char>, c: char)
    requires
        forall|j: int| 0 <= j < s.len() ==> s[j] != c,
    ensures
        first_index(s, c) is None,
    decreases s.len(),
{
    if s.len() > 0 {
        assert forall|j: int| 0 <= j < s.len() - 1 implies s.drop_first()[j] != c by {
            assert(s.drop_first()[j] == s[j + 1]);
        }
        lemma_first_index_none(s.drop_first(), c);
    }
}

/// The position, counted in characters, of the first `c` in `s`.
fn find_char(s: &str, c: char) -> (r: Option<usize>)
    ensures
        r matches Some(i) ==> first_index(s@, c) == Some(i as int) && i < s@.len(),
        r is None ==> first_index(s@, c) is None,
{
    let n = s.unicode_len();
    let mut i: usize = 0;
    while i < n
        invariant
            i <= n,
            n == s@.len(),
            forall|j: int| 0 <= j < i ==> s@[j] != c,
        decreases n - i,
    {
        if s.get_char(i) == c {
            proof {
                lemma_first_index_at(s@, c, i as int);
            }
            return Some(i);
        }
        i = i + 1;
    }
    proof {
        lemma_first_index_none(s@, c);
    }
    None
}

/// True when every character of every cell of `row` is `-`.
fn is_rule(row: &Vec<String>) -> (r: bool)
    ensures
        r == is_rule_row(row.deep_view()),
{
    let ghost v = row.deep_view();
    let mut i: usize = 0;
    while i < row.len()
        invariant
            i <= row@.len(),
            v == row.deep_view(),
            v.len() == row@.len(),
            forall|a: int, j: int| 0 <= a < i && 0 <= j < v[a].len() ==> #[trigger] v[a][j] == '-',
        decreases row@.len() - i,
    {
        let cell = row[i].as_str();
        assert(v[i as int] == cell@);
        let n = cell.unicode_len();
        let mut j: usize = 0;
        while j < n
            invariant
                i < row@.len(),
                v == row.deep_view(),
                v.len() == row@.len(),
                j <= n,
                n == cell@.len(),
                v[i as int] == cell@,
                forall|q: int| 0 <= q < j ==> #[trigger] cell@[q] == '-',
            decreases n - j,
        {
            if cell.get_char(j) != '-' {
                assert(v[i as int][j as int] != '-');
                return false;
            }
            j = j + 1;
        }
        i = i + 1;
    }
    true
}

/// A function row read as a [`Function`].
fn parse_function_row(row: &Vec<String>) -> (r: Option<Function>)
    ensures
        r matches Some(f) ==> function_row(row.deep_view()) == Some(f@),
        r is None ==> function_row(row.deep_view()) is None,
{
    let ghost v = row.deep_view();
    if row.len() < 6 {
        return None;
    }
    assert(forall|k: int| 0 <= k < 6 ==> v[k] == row@[k]@);
    let min = parse_usize(row[1].as_str());
    let avg = parse_usize(row[2].as_str());
    let median = parse_usize(row[3].as_str());
    let max = parse_usize(row[4].as_str());
    let calls = parse_usize(row[5].as_str());
    match (min, avg, median, max, calls) {
        (Some(min), Some(avg), Some(median), Some(max), Some(calls)) => Some(
            Function { name: row[0].clone(), min, avg, median, max, calls },
        ),
        _ => None,
    }
}

/// The rows `start..end` of `gas_table` read as one contract.
fn parse_contract(gas_table: &[Vec<String>], start: usize, end: usize) -> (r: Result<
    Contract,
    ParseError,
>)
    requires
        start <= end <= gas_table@.len(),
    ensures
        r matches Ok(c) ==> parse_section(gas_table.deep_view().subrange(start as int, end as int))
            == Ok::<ContractView, ParseError>(c@),
        r matches Err(e) ==> parse_section(
            gas_table.deep_view().subrange(start as int, end as int),
        ) == Err::<ContractView, ParseError>(e),
{
    let ghost sec = gas_table.deep_view().subrange(start as int, end as int);
    assert(forall|k: int| 0 <= k < sec.len() ==> #[trigger] sec[k] == gas_table@[start + k].deep_view());
    if start >= end {
        return Err(ParseError::MissingHeader);
    }
    let first = &gas_table[start];
    if first.len() < 1 {
        return Err(ParseError::MalformedHeader);
    }
    let cell = first[0].as_str();
    assert(sec[0][0] == cell@);
    let (cl, sp) = match (find_char(cell, ':'), find_char(cell, ' ')) {
        (Some(cl), Some(sp)) => (cl, sp),
        _ => {
            return Err(ParseError::MalformedHeader);
        },
    };
    if cl >= sp {
        return Err(ParseError::MalformedHeader);
    }
    let len = cell.unicode_len();
    let file = cell.substring_char(0, cl).to_owned();
    let contract = cell.substring_char(cl + 1, sp).to_owned();
    let c_type = cell.substring_char(sp + 1, len).to_owned();
    if end - start < 2 {
        return Err(ParseError::MissingSeparator);
    }
    if !is_rule(&gas_table[start + 1]) {
        return Err(ParseError::MalformedSeparator);
    }
    if end - start < 3 {
        return Err(ParseError::MissingColumnTitles);
    }
    let titles = &gas_table[start + 2];
    let dc = "Deployment Cost".to_owned();
    let ds = "Deployment Size".to_owned();
    if titles.len() < 2 {
        return Err(ParseError::WrongColumnTitles);
    }
    assert(sec[2][0] == titles@[0]@ && sec[2][1] == titles@[1]@);
    if !(titles[0] == dc) || !(titles[1] == ds) {
        return Err(ParseError::WrongColumnTitles);
    }
    if end - start < 4 {
        return Err(ParseError::MissingDeploymentMetrics);
    }
    let costs = &gas_table[start + 3];
    if costs.len() < 2 {
        return Err(ParseError::MalformedDeploymentMetrics);
    }
    assert(sec[3][0] == costs@[0]@ && sec[3][1] == costs@[1]@);
    let (deployment_cost, deployment_size) = match (
        parse_usize(costs[0].as_str()),
        parse_usize(costs[1].as_str()),
    ) {
        (Some(c), Some(s)) => (c, s),
        _ => {
            return Err(ParseError::MalformedDeploymentMetrics);
        },
    };
    if end - start < 5 {
        return Err(ParseError::MissingFunctionTitles);
    }
    let mut functions: Vec<Function> = Vec::new();
    let mut i: usize = start + 5;
    while i < end
        invariant
            start + 5 <= i <= end,
            end <= gas_table@.len(),
            sec.len() >= 5,
            sec[0].len() >= 1,
            header_parts(sec[0][0]) == Some((file@, contract@, c_type@)),
            is_rule_row(sec[1]),
            is_deployment_titles(sec[2]),
            is_deployment_row(sec[3]),
            usize_of(sec[3][0]) == Some(deployment_cost as nat),
            usize_of(sec[3][1]) == Some(deployment_size as nat),
            sec == gas_table.deep_view().subrange(start as int, end as int),
            forall|k: int| 0 <= k < sec.len() ==> #[trigger] sec[k] == gas_table@[start + k].deep_view(),
            forall|k: int| 5 <= k < i - start ==> #[trigger] function_row(sec[k]) is Some,
            functions@.map_values(|f: Function| f@) == sec.subrange(5, i - start).map_values(
                |r: Seq<Seq<char>>| function_row(r)->0,
            ),
        decreases end - i,
    {
        assert(sec[i - start] == gas_table@[i as int].deep_view());
        match parse_function_row(&gas_table[i]) {
            Some(f) => {
                let ghost before = functions@.map_values(|f: Function| f@);
                functions.push(f);
                assert(functions@.map_values(|f: Function| f@) =~= before.push(f@));
                assert(sec.subrange(5, i + 1 - start) =~= sec.subrange(5, i - start).push(
                    sec[i - start],
                ));
                assert(sec.subrange(5, i + 1 - start).map_values(
                    |r: Seq<Seq<char>>| function_row(r)->0,
                ) =~= sec.subrange(5, i - start).map_values(
                    |r: Seq<Seq<char>>| function_row(r)->0,
                ).push(function_row(sec[i - start])->0));
            },
            None => {
                assert(5 <= i - start < sec.len() && function_row(sec[i - start]) is None);
                return Err(ParseError::MalformedFunctionRow);
            },
        }
        i = i + 1;
    }
    assert(sec.subrange(5, end - start) =~= sec.skip(5));
    let c = Contract { file, contract, c_type, deployment_cost, deployment_size, functions };
    proof {
        let spec_c = parse_section(sec);
        assert(spec_c == Ok::<ContractView, ParseError>(c@));
    }
    Ok(c)
}

} // verus!

verus! {

/// Reads the rows of a report as a table of contracts, one per section.
pub fn parse_gas_table(gas_table: &[Vec<String>]) -> (r: Result<GasTable, ParseError>)
    ensures
        r matches Ok(t) ==> parse_rows(gas_table.deep_view()) == Ok::<
            Seq<ContractView>,
            ParseError,
        >(t@),
        r matches Err(e) ==> parse_rows(gas_table.deep_view()) == Err::<
            Seq<ContractView>,
            ParseError,
        >(e),
{
    let ghost rows = gas_table.deep_view();
    let bounds = split_contracts(gas_table);
    let ghost sb = section_bounds(rows);
    if gas_table.len() > 0 && bounds.len() == 0 {
        assert(sb.len() == 0);
        return Err(ParseError::NoSectionBoundary);
    }
    assert(rows.len() > 0 ==> boundaries(rows).len() > 0);
    let mut contracts: Vec<Contract> = Vec::new();
    let mut k: usize = 0;
    assert(sb.take(0) =~= Seq::<(int, int)>::empty());
    assert(contracts@.map_values(|c: Contract| c@) =~= Seq::<ContractView>::empty());
    while k < bounds.len()
        invariant
            k <= bounds@.len(),
            rows == gas_table.deep_view(),
            bounds@.map_values(|p: (usize, usize)| (p.0 as int, p.1 as int)) == sb,
            sb == section_bounds(rows),
            forall|q: int| 0 <= q < bounds@.len() ==> (#[trigger] bounds@[q]).0 <= bounds@[q].1 <= gas_table@.len(),
            parse_sections(rows, sb.take(k as int)) == Ok::<Seq<ContractView>, ParseError>(
                contracts@.map_values(|c: Contract| c@),
            ),
        decreases bounds@.len() - k,
    {
        let (start, end) = bounds[k];
        assert(sb[k as int] == (start as int, end as int));
        assert(sb.take(k + 1).drop_last() =~= sb.take(k as int));
        assert(sb.take(k + 1).last() == sb[k as int]);
        match parse_contract(gas_table, start, end) {
            Ok(c) => {
                let ghost before = contracts@.map_values(|c: Contract| c@);
                contracts.push(c);
                assert(contracts@.map_values(|c: Contract| c@) =~= before.push(c@));
            },
            Err(e) => {
                assert(parse_sections(rows, sb.take(k + 1)) == Err::<Seq<ContractView>, ParseError>(e));
                proof {
                    lemma_parse_sections_err(rows, sb, k + 1, e);
                }
                return Err(e);
            },
        }
        k = k + 1;
    }
    assert(sb.take(k as int) =~= sb);
    match GasTable::new(contracts) {
        Some(t) => Ok(t),
        None => Err(ParseError::TotalOverflow),
    }
}

/// Once a prefix of the sections fails, the whole sequence fails the same way.
proof fn lemma_parse_sections_err(
    rows: Seq<Seq<Seq<char>>>,
    bounds: Seq<(int, int)>,
    k: int,
    e: ParseError,
)
    requires
        0 <= k <= bounds.len(),
        parse_sections(rows, bounds.take(k)) == Err::<Seq<ContractView>, ParseError>(e),
    ensures
        parse_sections(rows, bounds) == Err::<Seq<ContractView>, ParseError>(e),
    decreases bounds.len() - k,
{
    if k < bounds.len() {
        assert(bounds.take(k + 1).drop_last() =~= bounds.take(k));
        lemma_parse_sections_err(rows, bounds, k + 1, e);
    } else {
        assert(bounds.take(k) =~= bounds);
    }
}

} // verus!

verus! {

proof fn lemma_boundaries_len(rows: Seq<Seq<Seq<char>>>)
    ensures
        boundaries(rows).len() <= rows.len(),
    decreases rows.len(),
{
    if rows.len() > 0 {
        lemma_boundaries_len(rows.drop_last());
    }
}

proof fn lemma_parse_sections_len(rows: Seq<Seq<Seq<char>>>, bounds: Seq<(int, int)>)
    ensures
        parse_sections(rows, bounds) matches Ok(cs) ==> cs.len() == bounds.len(),
    decreases bounds.len(),
{
    if bounds.len() > 0 {
        lemma_parse_sections_len(rows, bounds.drop_last());
    }
}

/// A table with `n + 1` boundary rows, for `n >= 2`, or with a single boundary
/// row, for `n == 1`, has `n` sections, and when it parses it gives `n`
/// contracts.
pub proof fn lemma_section_count(rows: Seq<Seq<Seq<char>>>, n: nat)
    requires
        (n >= 2 && boundaries(rows).len() == n + 1) || (n == 1 && boundaries(rows).len() == 1),
    ensures
        section_bounds(rows).len() == n,
        parse_rows(rows) matches Ok(cs) ==> cs.len() == n,
{
    lemma_boundaries_len(rows);
    lemma_parse_sections_len(rows, section_bounds(rows));
}

/// A section that lacks its deployment row, or whose column titles are not
/// `Deployment Cost`, `Deployment Size`, makes the whole table fail to parse.
pub proof fn lemma_malformed_section_rejected(rows: Seq<Seq<Seq<char>>>, k: int)
    requires
        0 <= k < section_bounds(rows).len(),
        ({
            let sec = rows.subrange(section_bounds(rows)[k].0, section_bounds(rows)[k].1);
            sec.len() < 4 || !is_deployment_titles(sec[2])
        }),
    ensures
        parse_rows(rows) is Err,
{
    let sb = section_bounds(rows);
    let sec = rows.subrange(sb[k].0, sb[k].1);
    assert(parse_section(sec) is Err);
    assert(sb.take(k + 1).drop_last() =~= sb.take(k));
    assert(sb.take(k + 1).last() == sb[k]);
    let pre = parse_sections(rows, sb.take(k + 1));
    assert(pre is Err);
    lemma_parse_sections_err(rows, sb, k + 1, pre->Err_0);
}

} // verus!
