//! A model of the relational plan that the TopK fusion rewrites.

use vstd::prelude::*;
use crate::scalar::{Scalar, ScalarExpr};

verus! {

/// A column of an ordering key, with its direction and where nulls go.
#[derive(Debug, Clone, Copy, PartialEq, Eq)]
pub struct ColumnOrder {
    pub column: usize,
    pub desc: bool,
    pub nulls_last: bool,
}

/// A relational operator tree.
#[derive(Debug, PartialEq, Eq)]
pub enum Relation {
    /// A constant relation without rows.
    Empty { arity: usize },
    /// An operator that the fusion does not inspect, with its own output arity and its inputs.
    Other { kind: u64, arity: usize, inputs: Vec<Relation> },
    /// Within each group of rows that agree on `group_key`, ordered by `order_key`,
    /// keep the rows at positions `offset .. offset + limit` (all after `offset` without a limit).
    TopK {
        input: Box<Relation>,
        group_key: Vec<usize>,
        order_key: Vec<ColumnOrder>,
        limit: Option<ScalarExpr>,
        offset: usize,
        monotonic: bool,
        expected_group_size: Option<u64>,
    },
}

/// The mathematical value of a relational operator tree.
pub enum Plan {
    Empty { arity: nat },
    Other { kind: u64, arity: nat, inputs: Seq<Plan> },
    TopK {
        input: Box<Plan>,
        group_key: Seq<usize>,
        order_key: Seq<ColumnOrder>,
        limit: Option<Scalar>,
        offset: nat,
        monotonic: bool,
        expected_group_size: Option<u64>,
    },
}

/// The value of an optional limit expression.
pub open spec fn limit_view(limit: Option<ScalarExpr>) -> Option<Scalar> {
    match limit {
        Some(e) => Some(e@),
        None => None,
    }
}

/// The value of an operator tree.
pub open spec fn plan_of(r: Relation) -> Plan
    decreases r,
{
    match r {
        Relation::Empty { arity } => Plan::Empty { arity: arity as nat },
        Relation::Other { kind, arity, inputs } => Plan::Other {
            kind,
            arity: arity as nat,
            inputs: Seq::new(
                inputs@.len(),
                |i: int|
                    if 0 <= i < inputs@.len() {
                        plan_of(inputs@[i])
                    } else {
                        Plan::Empty { arity: 0 }
                    },
            ),
        },
        Relation::TopK {
            input,
            group_key,
            order_key,
            limit,
            offset,
            monotonic,
            expected_group_size,
        } => Plan::TopK {
            input: Box::new(plan_of(*input)),
            group_key: group_key@,
            order_key: order_key@,
            limit: limit_view(limit),
            offset: offset as nat,
            monotonic,
            expected_group_size,
        },
    }
}

impl View for Relation {
    type V = Plan;

    open spec fn view(&self) -> Plan {
        plan_of(*self)
    }
}

/// The number of output columns.
pub open spec fn arity(p: Plan) -> nat
    decreases p,
{
    match p {
        Plan::Empty { arity } => arity,
        Plan::Other { arity, .. } => arity,
        Plan::TopK { input, .. } => arity(*input),
    }
}

/// The number of nodes on the longest path from the root to a leaf.
pub open spec fn height(p: Plan) -> nat
    decreases p,
{
    match p {
        Plan::Empty { .. } => 1,
        Plan::Other { inputs, .. } => 1 + max_height(inputs),
        Plan::TopK { input, .. } => 1 + height(*input),
    }
}

/// The greatest height among a sequence of plans, 0 for none.
pub open spec fn max_height(s: Seq<Plan>) -> nat
    decreases s,
{
    if s.len() == 0 {
        0
    } else {
        let h = height(s.last());
        let rest = max_height(s.drop_last());
        if h > rest {
            h
        } else {
            rest
        }
    }
}

impl Relation {
    /// The number of output columns.
    pub fn arity(&self) -> (a: usize)
        ensures
            a as nat == arity(self@),
        decreases self,
    {
        match self {
            Relation::Empty { arity } => *arity,
            Relation::Other { arity, .. } => *arity,
            Relation::TopK { input, .. } => input.arity(),
        }
    }
}

} // verus!
