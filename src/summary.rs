//! What is reported for each member once its dependencies were rewritten.
use vstd::prelude::*;
use vstd::string::StringExecFns;

verus! {

/// The decimal digits of `n`, most significant first.
pub open spec fn decimal(n: nat) -> Seq<char>
    decreases n,
{
    let d = seq!['0', '1', '2', '3', '4', '5', '6', '7', '8', '9'];
    if n < 10 {
        seq![d[n as int]]
    } else {
        decimal(n / 10).push(d[(n % 10) as int])
    }
}

/// Relies on `ToString` for `u64`: the decimal digits, without sign or padding.
#[verifier::external_body]
fn decimal_text(n: u64) -> (r: String)
    ensures
        r@ == decimal(n as nat),
{
    n.to_string()
}

/// How many dependency entries of one member were rewritten.
#[derive(Debug, Clone, Copy, PartialEq, Eq, Structural)]
pub enum UpdateSummary {
    NoUpdates,
    OneUpdate,
    Updated(u64),
}

impl UpdateSummary {
    /// The summary of `count` rewritten entries.
    pub fn from_count(count: u64) -> (r: UpdateSummary)
        ensures
            count == 0 ==> r == UpdateSummary::NoUpdates,
            count == 1 ==> r == UpdateSummary::OneUpdate,
            count > 1 ==> r == UpdateSummary::Updated(count),
    {
        if count == 0 {
            UpdateSummary::NoUpdates
        } else if count == 1 {
            UpdateSummary::OneUpdate
        } else {
            UpdateSummary::Updated(count)
        }
    }

    /// The line reported for the member.
    pub fn message(&self) -> (r: String)
        ensures
            *self == UpdateSummary::NoUpdates ==> r@ == "No dependency updates"@,
            *self == UpdateSummary::OneUpdate ==> r@ == "One dependency updated"@,
            forall|n: u64| *self == UpdateSummary::Updated(n) ==> r@ == decimal(n as nat) + " dependencies updated"@,
    {
        match self {
            UpdateSummary::NoUpdates => String::from_str("No dependency updates"),
            UpdateSummary::OneUpdate => String::from_str("One dependency updated"),
            UpdateSummary::Updated(n) => decimal_text(*n).concat(" dependencies updated"),
        }
    }
}

} // verus!
