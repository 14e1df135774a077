use vstd::prelude::*;
use crate::number::{decimal, decimal_string};
use crate::table::{ContractView, GasTable, Metric, sum_deployment, sum_metric, totals_fit};

verus! {

/// The costs of an earlier run: the four whole-report sums that are compared.
#[derive(Debug)]
pub struct Snapshot {
    deployment_cost: usize,
    min_cost: usize,
    avg_cost: usize,
    max_cost: usize,
}

/// The mathematical value of a [`Snapshot`].
pub struct SnapshotView {
    pub deployment_cost: nat,
    pub min_cost: nat,
    pub avg_cost: nat,
    pub max_cost: nat,
}

impl View for Snapshot {
    type V = SnapshotView;

    closed spec fn view(&self) -> SnapshotView {
        SnapshotView {
            deployment_cost: self.deployment_cost as nat,
            min_cost: self.min_cost as nat,
            avg_cost: self.avg_cost as nat,
            max_cost: self.max_cost as nat,
        }
    }
}

/// The snapshot that records the sums of a table of contracts.
pub open spec fn snapshot_of(cs: Seq<ContractView>) -> SnapshotView {
    SnapshotView {
        deployment_cost: sum_deployment(cs),
        min_cost: sum_metric(cs, Metric::Min),
        avg_cost: sum_metric(cs, Metric::Avg),
        max_cost: sum_metric(cs, Metric::Max),
    }
}

/// The snapshot of a first run: every cost is zero.
pub open spec fn zero_snapshot() -> SnapshotView {
    SnapshotView { deployment_cost: 0, min_cost: 0, avg_cost: 0, max_cost: 0 }
}

/// The report line for one metric: nothing when the costs are equal, else the
/// amount by which the cost went down or up.
pub open spec fn change_line(label: Seq<char>, prev: nat, cur: nat) -> Seq<char> {
    if prev == cur {
        seq![]
    } else if prev > cur {
        label + " reduced by "@ + decimal((prev - cur) as nat) + "\n"@
    } else {
        label + " increased by "@ + decimal((cur - prev) as nat) + "\n"@
    }
}

/// The labels of the four report lines.
pub open spec fn deployment_label() -> Seq<char> {
    "Deployment gas cost"@
}

pub open spec fn min_label() -> Seq<char> {
    "Minimum functions call gas cost"@
}

pub open spec fn avg_label() -> Seq<char> {
    "Average functions call gas cost"@
}

pub open spec fn max_label() -> Seq<char> {
    "Maximum functions call gas cost"@
}

/// The report comparing an earlier snapshot with a table: one line for each
/// changed sum, in the order deployment, minimum, average, maximum.
pub open spec fn diff_text(prev: SnapshotView, cs: Seq<ContractView>) -> Seq<char> {
    change_line(deployment_label(), prev.deployment_cost, sum_deployment(cs)) + change_line(
        min_label(),
        prev.min_cost,
        sum_metric(cs, Metric::Min),
    ) + change_line(avg_label(), prev.avg_cost, sum_metric(cs, Metric::Avg)) + change_line(
        max_label(),
        prev.max_cost,
        sum_metric(cs, Metric::Max),
    )
}

/// Appends the report line for one metric to `out`.
fn push_change(out: &mut String, label: &str, prev: usize, cur: usize)
    ensures
        final(out)@ == old(out)@ + change_line(label@, prev as nat, cur as nat),
{
    if prev != cur {
        out.append(label);
        if prev > cur {
            out.append(" reduced by ");
            out.append(decimal_string(prev - cur).as_str());
        } else {
            out.append(" increased by ");
            out.append(decimal_string(cur - prev).as_str());
        }
        out.append("\n");
    } else {
        assert(old(out)@ + change_line(label@, prev as nat, cur as nat) =~= old(out)@);
    }
}

impl Snapshot {
    /// A snapshot of the four given sums.
    pub fn new(deployment_cost: usize, min_cost: usize, avg_cost: usize, max_cost: usize) -> (r:
        Snapshot)
        ensures
            r@ == (SnapshotView {
                deployment_cost: deployment_cost as nat,
                min_cost: min_cost as nat,
                avg_cost: avg_cost as nat,
                max_cost: max_cost as nat,
            }),
    {
        Snapshot { deployment_cost, min_cost, avg_cost, max_cost }
    }

    /// The recorded sum of deployment costs.
    pub fn deployment_cost(&self) -> (r: usize)
        ensures
            r as nat == self@.deployment_cost,
    {
        self.deployment_cost
    }

    /// The recorded sum of minimum call costs.
    pub fn min_cost(&self) -> (r: usize)
        ensures
            r as nat == self@.min_cost,
    {
        self.min_cost
    }

    /// The recorded sum of average call costs.
    pub fn avg_cost(&self) -> (r: usize)
        ensures
            r as nat == self@.avg_cost,
    {
        self.avg_cost
    }

    /// The recorded sum of maximum call costs.
    pub fn max_cost(&self) -> (r: usize)
        ensures
            r as nat == self@.max_cost,
    {
        self.max_cost
    }

    /// The report of what changed from this snapshot to `gas_table`.
    pub fn get_diff(&self, gas_table: &GasTable) -> (r: String)
        ensures
            r@ == diff_text(self@, gas_table@),
    {
        let mut result = String::new();
        push_change(&mut result, "Deployment gas cost", self.deployment_cost, gas_table.deployment_cost());
        push_change(&mut result, "Minimum functions call gas cost", self.min_cost, gas_table.min_cost());
        push_change(&mut result, "Average functions call gas cost", self.avg_cost, gas_table.avg_cost());
        push_change(&mut result, "Maximum functions call gas cost", self.max_cost, gas_table.max_cost());
        assert(result@ =~= diff_text(self@, gas_table@));
        result
    }
}

impl Default for Snapshot {
    /// The snapshot used when no earlier run was recorded.
    fn default() -> (r: Snapshot)
        ensures
            r@ == zero_snapshot(),
    {
        Snapshot { deployment_cost: 0, min_cost: 0, avg_cost: 0, max_cost: 0 }
    }
}

impl From<&GasTable> for Snapshot {
    /// The snapshot that records the sums of `value`.
    fn from(value: &GasTable) -> (r: Snapshot)
        ensures
            r@ == snapshot_of(value@),
    {
        Snapshot {
            deployment_cost: value.deployment_cost(),
            min_cost: value.min_cost(),
            avg_cost: value.avg_cost(),
            max_cost: value.max_cost(),
        }
    }
}

impl vstd::std_specs::convert::FromSpecImpl<&GasTable> for Snapshot {
    open spec fn obeys_from_spec() -> bool {
        true
    }

    closed spec fn from_spec(v: &GasTable) -> Snapshot {
        Snapshot {
            deployment_cost: sum_deployment(v@) as usize,
            min_cost: sum_metric(v@, Metric::Min) as usize,
            avg_cost: sum_metric(v@, Metric::Avg) as usize,
            max_cost: sum_metric(v@, Metric::Max) as usize,
        }
    }
}

} // verus!

verus! {

/// When every sum of a table equals the snapshot's field, the report is empty.
pub proof fn lemma_silence_on_equality(prev: SnapshotView, cs: Seq<ContractView>)
    requires
        prev.deployment_cost == sum_deployment(cs),
        prev.min_cost == sum_metric(cs, Metric::Min),
        prev.avg_cost == sum_metric(cs, Metric::Avg),
        prev.max_cost == sum_metric(cs, Metric::Max),
    ensures
        diff_text(prev, cs) == Seq::<char>::empty(),
{
    assert(diff_text(prev, cs) =~= Seq::<char>::empty());
}

/// Comparing a table with the snapshot taken of that same table reports nothing.
pub proof fn lemma_round_trip(cs: Seq<ContractView>)
    ensures
        diff_text(snapshot_of(cs), cs) == Seq::<char>::empty(),
{
    lemma_silence_on_equality(snapshot_of(cs), cs);
}

/// Against the all-zero snapshot of a first run, a table whose four compared
/// sums are positive is reported as four increases, each by the full sum.
pub proof fn lemma_first_run(cs: Seq<ContractView>)
    requires
        cs.len() > 0,
        sum_deployment(cs) > 0,
        sum_metric(cs, Metric::Min) > 0,
        sum_metric(cs, Metric::Avg) > 0,
        sum_metric(cs, Metric::Max) > 0,
    ensures
        diff_text(zero_snapshot(), cs) == deployment_label() + " increased by "@ + decimal(
            sum_deployment(cs),
        ) + "\n"@ + min_label() + " increased by "@ + decimal(sum_metric(cs, Metric::Min))
            + "\n"@ + avg_label() + " increased by "@ + decimal(sum_metric(cs, Metric::Avg))
            + "\n"@ + max_label() + " increased by "@ + decimal(sum_metric(cs, Metric::Max))
            + "\n"@,
{
    assert(diff_text(zero_snapshot(), cs) =~= deployment_label() + " increased by "@ + decimal(
        sum_deployment(cs),
    ) + "\n"@ + min_label() + " increased by "@ + decimal(sum_metric(cs, Metric::Min))
        + "\n"@ + avg_label() + " increased by "@ + decimal(sum_metric(cs, Metric::Avg))
        + "\n"@ + max_label() + " increased by "@ + decimal(sum_metric(cs, Metric::Max))
        + "\n"@);
}

} // verus!
