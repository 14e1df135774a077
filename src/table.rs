use vstd::prelude::*;

verus! {

/// One function row of a contract's report: its name and its call costs.
#[derive(Debug)]
pub struct Function {
    pub name: String,
    pub min: usize,
    pub avg: usize,
    pub median: usize,
    pub max: usize,
    pub calls: usize,
}

/// The mathematical value of a [`Function`].
pub struct FunctionView {
    pub name: Seq<char>,
    pub min: nat,
    pub avg: nat,
    pub median: nat,
    pub max: nat,
    pub calls: nat,
}

impl View for Function {
    type V = FunctionView;

    open spec fn view(&self) -> FunctionView {
        FunctionView {
            name: self.name@,
            min: self.min as nat,
            avg: self.avg as nat,
            median: self.median as nat,
            max: self.max as nat,
            calls: self.calls as nat,
        }
    }
}

/// One contract section of a report.
#[derive(Debug)]
pub struct Contract {
    pub file: String,
    pub contract: String,
    pub c_type: String,
    pub deployment_cost: usize,
    pub deployment_size: usize,
    pub functions: Vec<Function>,
}

/// The mathematical value of a [`Contract`].
pub struct ContractView {
    pub file: Seq<char>,
    pub contract: Seq<char>,
    pub c_type: Seq<char>,
    pub deployment_cost: nat,
    pub deployment_size: nat,
    pub functions: Seq<FunctionView>,
}

impl View for Contract {
    type V = ContractView;

    open spec fn view(&self) -> ContractView {
        ContractView {
            file: self.file@,
            contract: self.contract@,
            c_type: self.c_type@,
            deployment_cost: self.deployment_cost as nat,
            deployment_size: self.deployment_size as nat,
            functions: self.functions@.map_values(|f: Function| f@),
        }
    }
}

/// The per-call cost columns that are summed over a whole report.
#[derive(Clone, Copy, PartialEq, Eq, Structural, Debug)]
pub enum Metric {
    Min,
    Avg,
    Median,
    Max,
}

/// The value of one metric in a function row.
pub open spec fn metric_of(f: FunctionView, m: Metric) -> nat {
    match m {
        Metric::Min => f.min,
        Metric::Avg => f.avg,
        Metric::Median => f.median,
        Metric::Max => f.max,
    }
}

/// The sum of one metric over a sequence of functions.
pub open spec fn sum_functions(fs: Seq<FunctionView>, m: Metric) -> nat
    decreases fs.len(),
{
    if fs.len() == 0 {
        0
    } else {
        sum_functions(fs.drop_last(), m) + metric_of(fs.last(), m)
    }
}

/// The sum of one metric over every function of every contract.
pub open spec fn sum_metric(cs: Seq<ContractView>, m: Metric) -> nat
    decreases cs.len(),
{
    if cs.len() == 0 {
        0
    } else {
        sum_metric(cs.drop_last(), m) + sum_functions(cs.last().functions, m)
    }
}

/// The sum of the contracts' deployment costs.
pub open spec fn sum_deployment(cs: Seq<ContractView>) -> nat
    decreases cs.len(),
{
    if cs.len() == 0 {
        0
    } else {
        sum_deployment(cs.drop_last()) + cs.last().deployment_cost
    }
}

/// True when every whole-report sum fits in a `usize`.
pub open spec fn totals_fit(cs: Seq<ContractView>) -> bool {
    &&& sum_deployment(cs) <= usize::MAX
    &&& sum_metric(cs, Metric::Min) <= usize::MAX
    &&& sum_metric(cs, Metric::Avg) <= usize::MAX
    &&& sum_metric(cs, Metric::Median) <= usize::MAX
    &&& sum_metric(cs, Metric::Max) <= usize::MAX
}

proof fn lemma_sum_functions_prefix(fs: Seq<FunctionView>, m: Metric, i: int)
    requires
        0 <= i <= fs.len(),
    ensures
        sum_functions(fs.take(i), m) <= sum_functions(fs, m),
    decreases fs.len(),
{
    if i < fs.len() {
        assert(fs.drop_last().take(i) =~= fs.take(i));
        lemma_sum_functions_prefix(fs.drop_last(), m, i);
    } else {
        assert(fs.take(i) =~= fs);
    }
}

proof fn lemma_sum_metric_prefix(cs: Seq<ContractView>, m: Metric, i: int)
    requires
        0 <= i <= cs.len(),
    ensures
        sum_metric(cs.take(i), m) <= sum_metric(cs, m),
    decreases cs.len(),
{
    if i < cs.len() {
        assert(cs.drop_last().take(i) =~= cs.take(i));
        lemma_sum_metric_prefix(cs.drop_last(), m, i);
    } else {
        assert(cs.take(i) =~= cs);
    }
}

proof fn lemma_sum_deployment_prefix(cs: Seq<ContractView>, i: int)
    requires
        0 <= i <= cs.len(),
    ensures
        sum_deployment(cs.take(i)) <= sum_deployment(cs),
    decreases cs.len(),
{
    if i < cs.len() {
        assert(cs.drop_last().take(i) =~= cs.take(i));
        lemma_sum_deployment_prefix(cs.drop_last(), i);
    } else {
        assert(cs.take(i) =~= cs);
    }
}

fn metric(f: &Function, m: Metric) -> (r: usize)
    ensures
        r as nat == metric_of(f@, m),
{
    match m {
        Metric::Min => f.min,
        Metric::Avg => f.avg,
        Metric::Median => f.median,
        Metric::Max => f.max,
    }
}

/// The sum of one metric over all contracts, or `None` where it exceeds `usize`.
fn checked_metric_total(contracts: &Vec<Contract>, m: Metric) -> (r: Option<usize>)
    ensures
        r matches Some(v) ==> v as nat == sum_metric(contracts@.map_values(|c: Contract| c@), m),
        r is None ==> sum_metric(contracts@.map_values(|c: Contract| c@), m) > usize::MAX,
{
    let ghost cs = contracts@.map_values(|c: Contract| c@);
    let mut acc: usize = 0;
    let mut i: usize = 0;
    while i < contracts.len()
        invariant
            i <= contracts@.len(),
            cs == contracts@.map_values(|c: Contract| c@),
            acc as nat == sum_metric(cs.take(i as int), m),
        decreases contracts@.len() - i,
    {
        let fs = &contracts[i].functions;
        let ghost fv = cs[i as int].functions;
        assert(fv == fs@.map_values(|f: Function| f@));
        let ghost base = acc as nat;
        let mut j: usize = 0;
        while j < fs.len()
            invariant
                i < contracts@.len(),
                j <= fs@.len(),
                cs == contracts@.map_values(|c: Contract| c@),
                fv == fs@.map_values(|f: Function| f@),
                fv == cs[i as int].functions,
                base == sum_metric(cs.take(i as int), m),
                acc as nat == base + sum_functions(fv.take(j as int), m),
            decreases fs@.len() - j,
        {
            let x = metric(&fs[j], m);
            assert(fv.take(j + 1).drop_last() =~= fv.take(j as int));
            if acc > usize::MAX - x {
                proof {
                    lemma_sum_functions_prefix(fv, m, j + 1);
                    assert(cs.take(i + 1).drop_last() =~= cs.take(i as int));
                    lemma_sum_metric_prefix(cs, m, i + 1);
                }
                return None;
            }
            acc = acc + x;
            j = j + 1;
        }
        assert(fv.take(j as int) =~= fv);
        assert(cs.take(i + 1).drop_last() =~= cs.take(i as int));
        i = i + 1;
    }
    assert(cs.take(i as int) =~= cs);
    Some(acc)
}

/// The sum of the deployment costs, or `None` where it exceeds `usize`.
fn checked_deployment_total(contracts: &Vec<Contract>) -> (r: Option<usize>)
    ensures
        r matches Some(v) ==> v as nat == sum_deployment(contracts@.map_values(|c: Contract| c@)),
        r is None ==> sum_deployment(contracts@.map_values(|c: Contract| c@)) > usize::MAX,
{
    let ghost cs = contracts@.map_values(|c: Contract| c@);
    let mut acc: usize = 0;
    let mut i: usize = 0;
    while i < contracts.len()
        invariant
            i <= contracts@.len(),
            cs == contracts@.map_values(|c: Contract| c@),
            acc as nat == sum_deployment(cs.take(i as int)),
        decreases contracts@.len() - i,
    {
        let x = contracts[i].deployment_cost;
        assert(cs.take(i + 1).drop_last() =~= cs.take(i as int));
        if acc > usize::MAX - x {
            proof {
                lemma_sum_deployment_prefix(cs, i + 1);
            }
            return None;
        }
        acc = acc + x;
        i = i + 1;
    }
    assert(cs.take(i as int) =~= cs);
    Some(acc)
}

/// A parsed report: its contracts, in report order. Every whole-report sum of
/// a `GasTable` fits in a `usize`.
#[derive(Debug)]
pub struct GasTable {
    contracts: Vec<Contract>,
}

impl View for GasTable {
    type V = Seq<ContractView>;

    closed spec fn view(&self) -> Seq<ContractView> {
        self.contracts@.map_values(|c: Contract| c@)
    }
}

impl GasTable {
    #[verifier::type_invariant]
    spec fn sums_in_range(self) -> bool {
        totals_fit(self@)
    }

    /// A table of the given contracts, or `None` where one of its sums exceeds `usize`.
    pub fn new(contracts: Vec<Contract>) -> (r: Option<GasTable>)
        ensures
            r matches Some(t) ==> t@ == contracts@.map_values(|c: Contract| c@),
            r is None <==> !totals_fit(contracts@.map_values(|c: Contract| c@)),
    {
        let d = checked_deployment_total(&contracts);
        let a = checked_metric_total(&contracts, Metric::Min);
        let b = checked_metric_total(&contracts, Metric::Avg);
        let c = checked_metric_total(&contracts, Metric::Median);
        let e = checked_metric_total(&contracts, Metric::Max);
        if d.is_none() || a.is_none() || b.is_none() || c.is_none() || e.is_none() {
            return None;
        }
        Some(GasTable { contracts })
    }

    /// The contracts, in report order.
    pub fn contracts(&self) -> (r: &Vec<Contract>)
        ensures
            r@.map_values(|c: Contract| c@) == self@,
            totals_fit(self@),
    {
        proof {
            use_type_invariant(self);
        }
        &self.contracts
    }

    /// The sum of every contract's deployment cost.
    pub fn deployment_cost(&self) -> (r: usize)
        ensures
            r as nat == sum_deployment(self@),
    {
        proof {
            use_type_invariant(self);
        }
        checked_deployment_total(&self.contracts).unwrap()
    }

    /// The sum of every function's minimum call cost.
    pub fn min_cost(&self) -> (r: usize)
        ensures
            r as nat == sum_metric(self@, Metric::Min),
    {
        proof {
            use_type_invariant(self);
        }
        checked_metric_total(&self.contracts, Metric::Min).unwrap()
    }

    /// The sum of every function's average call cost.
    pub fn avg_cost(&self) -> (r: usize)
        ensures
            r as nat == sum_metric(self@, Metric::Avg),
    {
        proof {
            use_type_invariant(self);
        }
        checked_metric_total(&self.contracts, Metric::Avg).unwrap()
    }

    /// The sum of every function's median call cost.
    pub fn median_cost(&self) -> (r: usize)
        ensures
            r as nat == sum_metric(self@, Metric::Median),
    {
        proof {
            use_type_invariant(self);
        }
        checked_metric_total(&self.contracts, Metric::Median).unwrap()
    }

    /// The sum of every function's maximum call cost.
    pub fn max_cost(&self) -> (r: usize)
        ensures
            r as nat == sum_metric(self@, Metric::Max),
    {
        proof {
            use_type_invariant(self);
        }
        checked_metric_total(&self.contracts, Metric::Max).unwrap()
    }
}

} // verus!

verus! {

/// `c` with one more function row at its end.
pub open spec fn with_function(c: ContractView, f: FunctionView) -> ContractView {
    ContractView { functions: c.functions.push(f), ..c }
}

proof fn lemma_append_metric(cs: Seq<ContractView>, i: int, f: FunctionView, m: Metric)
    requires
        0 <= i < cs.len(),
    ensures
        sum_metric(cs.update(i, with_function(cs[i], f)), m) == sum_metric(cs, m) + metric_of(f, m),
    decreases cs.len(),
{
    let cs2 = cs.update(i, with_function(cs[i], f));
    if i == cs.len() - 1 {
        assert(cs2.drop_last() =~= cs.drop_last());
        assert(cs[i].functions.push(f).drop_last() =~= cs[i].functions);
    } else {
        assert(cs2.drop_last() =~= cs.drop_last().update(i, with_function(cs.drop_last()[i], f)));
        lemma_append_metric(cs.drop_last(), i, f, m);
    }
}

proof fn lemma_append_deployment(cs: Seq<ContractView>, i: int, f: FunctionView)
    requires
        0 <= i < cs.len(),
    ensures
        sum_deployment(cs.update(i, with_function(cs[i], f))) == sum_deployment(cs),
    decreases cs.len(),
{
    let cs2 = cs.update(i, with_function(cs[i], f));
    if i == cs.len() - 1 {
        assert(cs2.drop_last() =~= cs.drop_last());
    } else {
        assert(cs2.drop_last() =~= cs.drop_last().update(i, with_function(cs.drop_last()[i], f)));
        lemma_append_deployment(cs.drop_last(), i, f);
    }
}

/// Appending a function row with positive costs to a contract raises the
/// minimum, average and maximum sums by exactly that row's costs, and leaves
/// the deployment sum as it was.
pub proof fn lemma_append_function(cs: Seq<ContractView>, i: int, f: FunctionView)
    requires
        0 <= i < cs.len(),
        f.min > 0,
        f.avg > 0,
        f.max > 0,
    ensures
        ({
            let cs2 = cs.update(i, with_function(cs[i], f));
            &&& sum_metric(cs2, Metric::Min) == sum_metric(cs, Metric::Min) + f.min
            &&& sum_metric(cs2, Metric::Avg) == sum_metric(cs, Metric::Avg) + f.avg
            &&& sum_metric(cs2, Metric::Max) == sum_metric(cs, Metric::Max) + f.max
            &&& sum_metric(cs2, Metric::Min) > sum_metric(cs, Metric::Min)
            &&& sum_metric(cs2, Metric::Avg) > sum_metric(cs, Metric::Avg)
            &&& sum_metric(cs2, Metric::Max) > sum_metric(cs, Metric::Max)
            &&& sum_deployment(cs2) == sum_deployment(cs)
        }),
{
    lemma_append_metric(cs, i, f, Metric::Min);
    lemma_append_metric(cs, i, f, Metric::Avg);
    lemma_append_metric(cs, i, f, Metric::Max);
    lemma_append_deployment(cs, i, f);
}

} // verus!
