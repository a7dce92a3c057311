//! Fuses a sequence of `TopK` operators into one `TopK` operator.

use vstd::prelude::*;
use crate::relation::{arity, height, limit_view, max_height, ColumnOrder, Plan, Relation};
use crate::scalar::{literal_usize, Scalar, ScalarExpr};

verus! {

/// Fuses a sequence of `TopK` operators into one `TopK` operator if
/// they happen to share the same grouping and ordering key.
#[derive(Debug)]
pub struct TopK;

/// The value of a limit that is a `usize` literal; `None` when there is no limit or it is
/// some other expression.
pub open spec fn limit_literal(limit: Option<Scalar>) -> Option<nat> {
    match limit {
        Some(e) => literal_usize(e),
        None => None,
    }
}

/// A limit that is present but is not a `usize` literal, which stops the fusion.
pub open spec fn limit_blocks(limit: Option<Scalar>) -> bool {
    limit is Some && limit_literal(limit) is None
}

pub open spec fn saturating_sub(a: nat, b: nat) -> nat {
    if a >= b {
        (a - b) as nat
    } else {
        0
    }
}

pub open spec fn min_nat(a: nat, b: nat) -> nat {
    if a <= b {
        a
    } else {
        b
    }
}

/// The limit of an outer `TopK` (with `outer_offset`) fused with that of the inner `TopK`
/// it reads from: the inner limit minus the outer offset, capped by the outer limit.
pub open spec fn fused_limit(outer: Option<Scalar>, inner: Option<Scalar>, outer_offset: nat) -> Option<
    Scalar,
> {
    match limit_literal(inner) {
        Some(n) => {
            let rest = saturating_sub(n, outer_offset);
            let v = match limit_literal(outer) {
                Some(o) => min_nat(o, rest),
                None => rest,
            };
            Some(Scalar::Literal(v as u64))
        },
        None => outer,
    }
}

/// The expected group size of a fused `TopK`: the larger hint where both have one.
pub open spec fn fused_hint(a: Option<u64>, b: Option<u64>) -> Option<u64> {
    match (a, b) {
        (Some(x), Some(y)) => Some(if x >= y { x } else { y }),
        _ => None,
    }
}

/// Whether an outer `TopK` with these keys and limit can be fused with `input`.
pub open spec fn fusable(
    group_key: Seq<usize>,
    order_key: Seq<ColumnOrder>,
    limit: Option<Scalar>,
    input: Plan,
) -> bool {
    match input {
        Plan::TopK { group_key: inner_group_key, order_key: inner_order_key, limit: inner_limit, .. } => {
            &&& group_key == inner_group_key
            &&& order_key == inner_order_key
            &&& !limit_blocks(limit)
            &&& !limit_blocks(inner_limit)
        },
        _ => false,
    }
}

/// The `TopK` node over `input` with the given fields.
pub open spec fn top_k_plan(
    group_key: Seq<usize>,
    order_key: Seq<ColumnOrder>,
    limit: Option<Scalar>,
    offset: nat,
    monotonic: bool,
    hint: Option<u64>,
    input: Plan,
) -> Plan {
    Plan::TopK {
        input: Box::new(input),
        group_key,
        order_key,
        limit,
        offset,
        monotonic,
        expected_group_size: hint,
    }
}

/// The result of fusing an outer `TopK` with the given fields into the chain of `TopK`s
/// that starts at `input`, as far as the chain is fusable.
pub open spec fn fuse_chain(
    group_key: Seq<usize>,
    order_key: Seq<ColumnOrder>,
    limit: Option<Scalar>,
    offset: nat,
    monotonic: bool,
    hint: Option<u64>,
    input: Plan,
) -> Plan
    decreases input,
{
    match input {
        Plan::TopK {
            input: inner,
            limit: inner_limit,
            offset: inner_offset,
            monotonic: inner_monotonic,
            expected_group_size: inner_hint,
            ..
        } => if fusable(group_key, order_key, limit, input) {
            let new_limit = fused_limit(limit, inner_limit, offset);
            if limit_literal(new_limit) == Some(0nat) {
                Plan::Empty { arity: arity(input) }
            } else {
                fuse_chain(
                    group_key,
                    order_key,
                    new_limit,
                    offset + inner_offset,
                    inner_monotonic,
                    fused_hint(hint, inner_hint),
                    *inner,
                )
            }
        } else {
            top_k_plan(group_key, order_key, limit, offset, monotonic, hint, input)
        },
        _ => top_k_plan(group_key, order_key, limit, offset, monotonic, hint, input),
    }
}

/// The largest offset that the fusion of the chain adds up on its way.
pub open spec fn chain_peak(
    group_key: Seq<usize>,
    order_key: Seq<ColumnOrder>,
    limit: Option<Scalar>,
    offset: nat,
    input: Plan,
) -> nat
    decreases input,
{
    match input {
        Plan::TopK { input: inner, limit: inner_limit, offset: inner_offset, .. } => if fusable(
            group_key,
            order_key,
            limit,
            input,
        ) {
            let new_limit = fused_limit(limit, inner_limit, offset);
            if limit_literal(new_limit) == Some(0nat) {
                offset
            } else {
                chain_peak(group_key, order_key, new_limit, offset + inner_offset, *inner)
            }
        } else {
            offset
        },
        _ => offset,
    }
}

/// What one application of the fusion makes of a node.
pub open spec fn action_plan(p: Plan) -> Plan {
    match p {
        Plan::TopK { input, group_key, order_key, limit, offset, monotonic, expected_group_size } =>
            fuse_chain(group_key, order_key, limit, offset, monotonic, expected_group_size, *input),
        _ => p,
    }
}

/// The fusion of a node adds up offsets that all fit in a `usize`.
pub open spec fn action_fits(p: Plan) -> bool {
    match p {
        Plan::TopK { input, group_key, order_key, limit, offset, .. } => chain_peak(
            group_key,
            order_key,
            limit,
            offset,
            *input,
        ) <= usize::MAX,
        _ => true,
    }
}

/// The offsets that the fusion adds up never fall below the offset it starts from.
pub proof fn lemma_chain_peak_at_least_offset(
    group_key: Seq<usize>,
    order_key: Seq<ColumnOrder>,
    limit: Option<Scalar>,
    offset: nat,
    input: Plan,
)
    ensures
        chain_peak(group_key, order_key, limit, offset, input) >= offset,
    decreases input,
{
    if let Plan::TopK { input: inner, limit: inner_limit, offset: inner_offset, .. } = input {
        if fusable(group_key, order_key, limit, input) {
            let new_limit = fused_limit(limit, inner_limit, offset);
            if limit_literal(new_limit) != Some(0nat) {
                lemma_chain_peak_at_least_offset(
                    group_key,
                    order_key,
                    new_limit,
                    offset + inner_offset,
                    *inner,
                );
            }
        }
    }
}

/// The next move of the fusion loop.
enum Step {
    /// The input cannot be fused.
    Stop,
    /// The fused limit is zero: the result has no rows.
    Empty,
    /// Fuse, keeping the outer limit.
    KeepLimit,
    /// Fuse, with this new limit.
    NewLimit(usize),
}

fn usize_keys_equal(a: &Vec<usize>, b: &Vec<usize>) -> (r: bool)
    ensures
        r == (a@ == b@),
{
    if a.len() != b.len() {
        return false;
    }
    let mut i: usize = 0;
    while i < a.len()
        invariant
            a@.len() == b@.len(),
            i <= a@.len(),
            forall|j: int| 0 <= j < i ==> a@[j] == b@[j],
        decreases a@.len() - i,
    {
        if a[i] != b[i] {
            return false;
        }
        i = i + 1;
    }
    assert(a@ =~= b@);
    true
}

fn order_keys_equal(a: &Vec<ColumnOrder>, b: &Vec<ColumnOrder>) -> (r: bool)
    ensures
        r == (a@ == b@),
{
    if a.len() != b.len() {
        return false;
    }
    let mut i: usize = 0;
    while i < a.len()
        invariant
            a@.len() == b@.len(),
            i <= a@.len(),
            forall|j: int| 0 <= j < i ==> a@[j] == b@[j],
        decreases a@.len() - i,
    {
        let x = &a[i];
        let y = &b[i];
        if x.column != y.column || x.desc != y.desc || x.nulls_last != y.nulls_last {
            return false;
        }
        i = i + 1;
    }
    assert(a@ =~= b@);
    true
}

/// The limit read as an optional `usize` literal: `None` without a limit, `Some(None)` for
/// an expression that is not a `usize` literal.
fn limit_as_usize(limit: &Option<ScalarExpr>) -> (r: Option<Option<usize>>)
    ensures
        match r {
            None => limit is None,
            Some(None) => limit_blocks(limit_view(*limit)),
            Some(Some(n)) => limit_literal(limit_view(*limit)) == Some(n as nat),
        },
{
    match limit {
        Some(e) => Some(e.as_literal_usize()),
        None => None,
    }
}

fn next_step(
    group_key: &Vec<usize>,
    order_key: &Vec<ColumnOrder>,
    limit: &Option<ScalarExpr>,
    offset: usize,
    input: &Relation,
) -> (s: Step)
    ensures
        match s {
            Step::Stop => !fusable(group_key@, order_key@, limit_view(*limit), input@),
            Step::Empty => fusable(group_key@, order_key@, limit_view(*limit), input@) && limit_literal(
                fused_limit(limit_view(*limit), input@->limit, offset as nat),
            ) == Some(0nat),
            Step::KeepLimit => fusable(group_key@, order_key@, limit_view(*limit), input@)
                && fused_limit(limit_view(*limit), input@->limit, offset as nat) == limit_view(*limit)
                && limit_literal(limit_view(*limit)) != Some(0nat),
            Step::NewLimit(n) => fusable(group_key@, order_key@, limit_view(*limit), input@)
                && fused_limit(limit_view(*limit), input@->limit, offset as nat) == Some(
                Scalar::Literal(n as u64),
            ) && n != 0,
        },
{
    match input {
        Relation::TopK { group_key: inner_group_key, order_key: inner_order_key, limit: inner_limit, .. } => {
            if !(usize_keys_equal(group_key, inner_group_key) && order_keys_equal(order_key, inner_order_key)) {
                return Step::Stop;
            }
            let inner_limit_usize = limit_as_usize(inner_limit);
            let outer_limit_usize = limit_as_usize(limit);
            // If either limit is an expression rather than a literal, bail out.
            if let Some(None) = inner_limit_usize {
                return Step::Stop;
            }
            if let Some(None) = outer_limit_usize {
                return Step::Stop;
            }
            let outer_literal = match outer_limit_usize {
                Some(Some(n)) => Some(n),
                _ => None,
            };
            match inner_limit_usize {
                Some(Some(inner)) => {
                    let rest = inner.saturating_sub(offset);
                    let new_limit = match outer_literal {
                        Some(outer) => if outer <= rest { outer } else { rest },
                        None => rest,
                    };
                    if new_limit == 0 {
                        Step::Empty
                    } else {
                        Step::NewLimit(new_limit)
                    }
                },
                _ => {
                    if let Some(0) = outer_literal {
                        Step::Empty
                    } else {
                        Step::KeepLimit
                    }
                },
            }
        },
        _ => Step::Stop,
    }
}

fn fused_hint_exec(a: Option<u64>, b: Option<u64>) -> (r: Option<u64>)
    ensures
        r == fused_hint(a, b),
{
    match (a, b) {
        (Some(x), Some(y)) => Some(if x >= y { x } else { y }),
        _ => None,
    }
}

fn fuse(r: Relation) -> (res: Relation)
    requires
        action_fits(r@),
    ensures
        res@ == action_plan(r@),
{
    let ghost rv = r@;
    match r {
        Relation::TopK { input, group_key, order_key, limit, offset, monotonic, expected_group_size } => {
            let mut input = input;
            let mut limit = limit;
            let mut offset = offset;
            let mut monotonic = monotonic;
            let mut hint = expected_group_size;
            #[verifier::loop_isolation(false)]
            loop
                invariant
                    fuse_chain(
                        group_key@,
                        order_key@,
                        limit_view(limit),
                        offset as nat,
                        monotonic,
                        hint,
                        input@,
                    ) == action_plan(rv),
                    chain_peak(group_key@, order_key@, limit_view(limit), offset as nat, input@)
                        <= usize::MAX,
                decreases height(input@),
            {
                let step = next_step(&group_key, &order_key, &limit, offset, &input);
                match step {
                    Step::Stop => {
                        return Relation::TopK {
                            input,
                            group_key,
                            order_key,
                            limit,
                            offset,
                            monotonic,
                            expected_group_size: hint,
                        };
                    },
                    Step::Empty => {
                        let arity = input.arity();
                        return Relation::Empty { arity };
                    },
                    _ => {
                        match *input {
                            Relation::TopK {
                                input: inner_input,
                                offset: inner_offset,
                                monotonic: inner_monotonic,
                                expected_group_size: inner_hint,
                                ..
                            } => {
                                proof {
                                    lemma_chain_peak_at_least_offset(
                                        group_key@,
                                        order_key@,
                                        fused_limit(limit_view(limit), input@->limit, offset as nat),
                                        (offset + inner_offset) as nat,
                                        inner_input@,
                                    );
                                }
                                if let Step::NewLimit(n) = step {
                                    limit = Some(ScalarExpr::Literal(n as u64));
                                }
                                offset = offset + inner_offset;
                                monotonic = inner_monotonic;
                                hint = fused_hint_exec(hint, inner_hint);
                                input = inner_input;
                            },
                            _ => {
                                proof {
                                    assert(false);
                                }
                                return Relation::Empty { arity: 0 };
                            },
                        }
                    },
                }
            }
        },
        other => other,
    }
}

impl TopK {
    /// Fuses a sequence of `TopK` operators in to one `TopK` operator.
    pub fn action(relation: &mut Relation)
        requires
            action_fits(old(relation)@),
        ensures
            final(relation)@ == action_plan(old(relation)@),
    {
        let mut r = Relation::Empty { arity: 0 };
        std::mem::swap(&mut r, relation);
        *relation = fuse(r);
    }
}


/// The fusion of a chain ends in a node without rows, or in a `TopK` with the outer keys
/// over an input that it cannot be fused with; an outer limit that blocks the fusion is kept.
pub proof fn lemma_fuse_chain_result(
    group_key: Seq<usize>,
    order_key: Seq<ColumnOrder>,
    limit: Option<Scalar>,
    offset: nat,
    monotonic: bool,
    hint: Option<u64>,
    input: Plan,
)
    ensures
        ({
            let res = fuse_chain(group_key, order_key, limit, offset, monotonic, hint, input);
            &&& res is Empty || res is TopK
            &&& res is TopK ==> res->group_key == group_key && res->order_key == order_key
                && !fusable(group_key, order_key, res->limit, *res->input)
            &&& limit_blocks(limit) ==> res == top_k_plan(
                group_key,
                order_key,
                limit,
                offset,
                monotonic,
                hint,
                input,
            )
        }),
    decreases input,
{
    if let Plan::TopK {
        input: inner,
        limit: inner_limit,
        offset: inner_offset,
        monotonic: inner_monotonic,
        expected_group_size: inner_hint,
        ..
    } = input {
        if fusable(group_key, order_key, limit, input) {
            let new_limit = fused_limit(limit, inner_limit, offset);
            if limit_literal(new_limit) != Some(0nat) {
                lemma_fuse_chain_result(
                    group_key,
                    order_key,
                    new_limit,
                    offset + inner_offset,
                    inner_monotonic,
                    fused_hint(hint, inner_hint),
                    *inner,
                );
            }
        }
    }
}

/// The depth of the plan tree at which the traversal of the fusion gives up.
pub const RECURSION_LIMIT: usize = 2048;

/// Why a transformation failed.
#[derive(Debug, PartialEq, Eq)]
pub enum TransformError {
    /// The plan is deeper than the traversal allows.
    RecursionLimitExceeded { limit: usize },
}

/// Fusing a chain gives a tree no deeper than a `TopK` over the chain.
pub proof fn lemma_fuse_chain_height(
    group_key: Seq<usize>,
    order_key: Seq<ColumnOrder>,
    limit: Option<Scalar>,
    offset: nat,
    monotonic: bool,
    hint: Option<u64>,
    input: Plan,
)
    ensures
        height(fuse_chain(group_key, order_key, limit, offset, monotonic, hint, input)) <= 1
            + height(input),
    decreases input,
{
    if let Plan::TopK {
        input: inner,
        limit: inner_limit,
        offset: inner_offset,
        monotonic: inner_monotonic,
        expected_group_size: inner_hint,
        ..
    } = input {
        if fusable(group_key, order_key, limit, input) {
            let new_limit = fused_limit(limit, inner_limit, offset);
            if limit_literal(new_limit) != Some(0nat) {
                lemma_fuse_chain_height(
                    group_key,
                    order_key,
                    new_limit,
                    offset + inner_offset,
                    inner_monotonic,
                    fused_hint(hint, inner_hint),
                    *inner,
                );
            }
        }
    }
}

/// The fusion of a node does not make the tree deeper.
pub proof fn lemma_action_height(p: Plan)
    ensures
        height(action_plan(p)) <= height(p),
{
    if let Plan::TopK { input, group_key, order_key, limit, offset, monotonic, expected_group_size } = p {
        lemma_fuse_chain_height(group_key, order_key, limit, offset, monotonic, expected_group_size, *input);
    }
}

/// The greatest height is at most `k` exactly when every height is.
pub proof fn lemma_max_height(s: Seq<Plan>, k: nat)
    ensures
        max_height(s) <= k <==> forall|i: int| 0 <= i < s.len() ==> height(#[trigger] s[i]) <= k,
    decreases s.len(),
{
    if s.len() > 0 {
        lemma_max_height(s.drop_last(), k);
        assert forall|i: int| 0 <= i < s.len() - 1 implies s.drop_last()[i] == s[i] by {}
        if max_height(s) <= k {
            assert forall|i: int| 0 <= i < s.len() implies height(#[trigger] s[i]) <= k by {
                if i < s.len() - 1 {
                    assert(s.drop_last()[i] == s[i]);
                }
            }
        }
        if forall|i: int| 0 <= i < s.len() ==> height(#[trigger] s[i]) <= k {
            assert(height(s[s.len() - 1]) <= k);
            assert forall|i: int| 0 <= i < s.drop_last().len() implies height(
                #[trigger] s.drop_last()[i],
            ) <= k by {
                assert(s.drop_last()[i] == s[i]);
            }
        }
    }
}

/// No plan of a sequence is higher than the greatest height of the sequence.
pub proof fn lemma_child_height(s: Seq<Plan>, i: int)
    requires
        0 <= i < s.len(),
    ensures
        height(s[i]) <= max_height(s),
{
    lemma_max_height(s, max_height(s));
}

/// The tree after the fusion has been applied to every node, from the root down.
pub open spec fn fuse_all(p: Plan) -> Plan
    decreases height(p),
{
    match p {
        Plan::TopK { .. } => {
            let a = action_plan(p);
            match a {
                Plan::TopK { input, group_key, order_key, limit, offset, monotonic, expected_group_size } => {
                    proof {
                        lemma_action_height(p);
                    }
                    Plan::TopK {
                        input: Box::new(fuse_all(*input)),
                        group_key,
                        order_key,
                        limit,
                        offset,
                        monotonic,
                        expected_group_size,
                    }
                },
                _ => a,
            }
        },
        Plan::Other { kind, arity, inputs } => {
            proof {
                assert forall|i: int| 0 <= i < inputs.len() implies height(#[trigger] inputs[i])
                    < height(p) by {
                    lemma_child_height(inputs, i);
                }
            }
            Plan::Other {
                kind,
                arity,
                inputs: Seq::new(
                    inputs.len(),
                    |i: int|
                        if 0 <= i < inputs.len() {
                            fuse_all(inputs[i])
                        } else {
                            Plan::Empty { arity: 0 }
                        },
                ),
            }
        },
        Plan::Empty { .. } => p,
    }
}

/// Every fusion that the traversal of `p`, with `depth` levels of it above, performs adds
/// up offsets that fit in a `usize`: nodes at the recursion limit, and inputs after the
/// first one whose traversal reaches it, are not fused and need nothing.
pub open spec fn visit_fits(p: Plan, depth: nat) -> bool
    decreases height(p),
{
    if depth >= RECURSION_LIMIT {
        true
    } else {
        match p {
            Plan::TopK { .. } => {
                proof {
                    lemma_action_height(p);
                }
                &&& action_fits(p)
                &&& match action_plan(p) {
                    Plan::TopK { input, .. } => visit_fits(*input, depth + 1),
                    _ => true,
                }
            },
            Plan::Other { inputs, .. } => {
                proof {
                    assert forall|i: int| 0 <= i < inputs.len() implies height(
                        #[trigger] inputs[i],
                    ) < height(p) by {
                        lemma_child_height(inputs, i);
                    }
                }
                forall|i: int|
                    #![trigger inputs[i]]
                    0 <= i < inputs.len() && (forall|j: int|
                        0 <= j < i ==> within_limit(#[trigger] inputs[j], depth + 1))
                        ==> visit_fits(inputs[i], depth + 1)
            },
            Plan::Empty { .. } => true,
        }
    }
}

proof fn lemma_height_positive(p: Plan)
    ensures
        height(p) >= 1,
{
}

/// The traversal of `p`, with `depth` levels of it above, stays within the recursion limit.
pub open spec fn within_limit(p: Plan, depth: nat) -> bool {
    height(fuse_all(p)) + depth <= RECURSION_LIMIT
}

/// What the traversal makes of `p` with `depth` levels of it above: the fusion is applied
/// to each node and then to its inputs in order, up to the first input whose traversal
/// reaches the recursion limit; nodes at the limit, and the inputs after that one, are left
/// as they are.
pub open spec fn visit_plan(p: Plan, depth: nat) -> Plan
    decreases height(p),
{
    if depth >= RECURSION_LIMIT {
        p
    } else {
        match p {
            Plan::TopK { .. } => {
                let a = action_plan(p);
                match a {
                    Plan::TopK {
                        input,
                        group_key,
                        order_key,
                        limit,
                        offset,
                        monotonic,
                        expected_group_size,
                    } => {
                        proof {
                            lemma_action_height(p);
                        }
                        Plan::TopK {
                            input: Box::new(visit_plan(*input, depth + 1)),
                            group_key,
                            order_key,
                            limit,
                            offset,
                            monotonic,
                            expected_group_size,
                        }
                    },
                    _ => a,
                }
            },
            Plan::Other { kind, arity, inputs } => {
                proof {
                    assert forall|i: int| 0 <= i < inputs.len() implies height(
                        #[trigger] inputs[i],
                    ) < height(p) by {
                        lemma_child_height(inputs, i);
                    }
                }
                Plan::Other {
                    kind,
                    arity,
                    inputs: Seq::new(
                        inputs.len(),
                        |i: int|
                            if 0 <= i < inputs.len() {
                                if forall|j: int|
                                    0 <= j < i ==> within_limit(#[trigger] inputs[j], depth + 1) {
                                    visit_plan(inputs[i], depth + 1)
                                } else {
                                    inputs[i]
                                }
                            } else {
                                Plan::Empty { arity: 0 }
                            },
                    ),
                }
            },
            Plan::Empty { .. } => p,
        }
    }
}

/// Where the traversal stays within the recursion limit, it fuses the whole tree.
pub proof fn lemma_visit_within_limit(p: Plan, depth: nat)
    requires
        within_limit(p, depth),
    ensures
        visit_plan(p, depth) == fuse_all(p),
    decreases height(p),
{
    lemma_height_positive(fuse_all(p));
    match p {
        Plan::TopK { input, group_key, order_key, limit, offset, monotonic, expected_group_size } => {
            lemma_action_height(p);
            let a = action_plan(p);
            if let Plan::TopK { input: t, .. } = a {
                lemma_visit_within_limit(*t, depth + 1);
            }
        },
        Plan::Other { inputs, .. } => {
            let fused = fuse_all(p)->inputs;
            lemma_max_height(fused, (RECURSION_LIMIT - depth - 1) as nat);
            assert forall|j: int| 0 <= j < inputs.len() implies within_limit(
                #[trigger] inputs[j],
                depth + 1,
            ) by {
                assert(fused[j] == fuse_all(inputs[j]));
            }
            let v = visit_plan(p, depth)->inputs;
            assert forall|i: int| 0 <= i < inputs.len() implies #[trigger] v[i] == fused[i] by {
                lemma_child_height(inputs, i);
                lemma_visit_within_limit(inputs[i], depth + 1);
            }
            assert(v =~= fused);
        },
        Plan::Empty { .. } => {},
    }
}

/// Applies the fusion to `r` and then to its inputs, with `depth` levels of the traversal
/// above it; reports whether the traversal stayed within the recursion limit.
fn visit(r: Relation, depth: usize) -> (res: (Relation, bool))
    requires
        visit_fits(r@, depth as nat),
        depth <= RECURSION_LIMIT,
    ensures
        res.0@ == visit_plan(r@, depth as nat),
        res.1 <==> within_limit(r@, depth as nat),
    decreases height(r@),
{
    proof {
        lemma_height_positive(fuse_all(r@));
    }
    if depth >= RECURSION_LIMIT {
        return (r, false);
    }
    let ghost rv = r@;
    let is_top_k = match &r {
        Relation::TopK { .. } => true,
        _ => false,
    };
    if is_top_k {
        proof {
            lemma_action_height(rv);
            lemma_fuse_chain_result(
                rv->group_key,
                rv->order_key,
                rv->limit,
                rv->offset,
                rv->monotonic,
                rv->expected_group_size,
                *rv->input,
            );
        }
        let a = fuse(r);
        match a {
            Relation::TopK { input, group_key, order_key, limit, offset, monotonic, expected_group_size } => {
                let (new_input, ok) = visit(*input, depth + 1);
                let res = Relation::TopK {
                    input: Box::new(new_input),
                    group_key,
                    order_key,
                    limit,
                    offset,
                    monotonic,
                    expected_group_size,
                };
                (res, ok)
            },
            other => (other, true),
        }
    } else {
        match r {
            Relation::Other { kind, arity, inputs } => {
                let ghost children = rv->inputs;
                let ghost d = (depth + 1) as nat;
                proof {
                    assert forall|i: int| 0 <= i < children.len() implies height(
                        #[trigger] children[i],
                    ) < height(rv) by {
                        lemma_child_height(children, i);
                    }
                }
                let ghost fused = fuse_all(rv)->inputs;
                let ghost visited = visit_plan(rv, depth as nat)->inputs;
                let n = inputs.len();
                let mut rest = inputs;
                let mut done: Vec<Relation> = Vec::new();
                let mut ok = true;
                #[verifier::loop_isolation(false)]
                while ok && rest.len() > 0
                    invariant
                        n == children.len(),
                        done@.len() + rest@.len() == n,
                        forall|i: int| 0 <= i < rest@.len() ==> #[trigger] rest@[i]@ == children[done@.len() + i],
                        forall|i: int| 0 <= i < n ==> height(#[trigger] children[i]) < height(rv),
                        forall|i: int|
                            #![trigger children[i]]
                            0 <= i < n && (forall|j: int| 0 <= j < i ==> within_limit(#[trigger] children[j], d))
                                ==> visit_fits(children[i], d),
                        depth < RECURSION_LIMIT,
                        forall|i: int| 0 <= i < done@.len() ==> #[trigger] done@[i]@ == visited[i],
                        ok <==> forall|j: int| 0 <= j < done@.len() ==> within_limit(#[trigger] children[j], d),
                        !ok ==> done@.len() > 0 && !within_limit(children[done@.len() - 1], d),
                    decreases rest@.len(),
                {
                    let ghost k = done@.len() as int;
                    let ghost prev = rest@;
                    let child = rest.remove(0);
                    assert(child@ == children[k]);
                    let (new_child, child_ok) = visit(child, depth + 1);
                    assert(visited[k] == visit_plan(children[k], d));
                    done.push(new_child);
                    ok = child_ok;
                    assert forall|i: int| 0 <= i < rest@.len() implies #[trigger] rest@[i]@ == children[done@.len() + i] by {
                        assert(rest@[i] == prev[i + 1]);
                    }
                }
                let ghost done_len = done@.len();
                done.append(&mut rest);
                let res = Relation::Other { kind, arity, inputs: done };
                proof {
                    assert forall|i: int| 0 <= i < n implies #[trigger] res@->inputs[i] == visited[i] by {
                        assert(res@->inputs[i] == done@[i]@);
                        if i >= done_len {
                            assert(!within_limit(children[done_len - 1], d));
                        }
                    }
                    assert(res@->inputs =~= visited);
                    lemma_max_height(fused, (RECURSION_LIMIT - depth - 1) as nat);
                    assert forall|j: int| 0 <= j < n implies #[trigger] fused[j] == fuse_all(children[j]) by {}
                    if ok {
                        assert(within_limit(rv, depth as nat));
                    } else {
                        assert(!within_limit(children[done_len - 1], d));
                        assert(height(fused[done_len - 1]) > (RECURSION_LIMIT - depth - 1) as nat);
                        assert(height(fuse_all(rv)) == 1 + max_height(fused));
                        assert(!within_limit(rv, depth as nat));
                    }
                }
                (res, ok)
            },
            other => (other, true),
        }
    }
}

impl TopK {
    /// Fuses every chain of `TopK` operators in the plan, from the root down.
    pub fn transform(&self, relation: &mut Relation) -> (res: Result<(), TransformError>)
        requires
            visit_fits(old(relation)@, 0),
        ensures
            final(relation)@ == visit_plan(old(relation)@, 0),
            res is Ok <==> height(fuse_all(old(relation)@)) <= RECURSION_LIMIT,
            res is Ok ==> final(relation)@ == fuse_all(old(relation)@),
            res is Err ==> res == Err::<(), TransformError>(
                TransformError::RecursionLimitExceeded { limit: RECURSION_LIMIT },
            ),
    {
        let mut r = Relation::Empty { arity: 0 };
        std::mem::swap(&mut r, relation);
        let ghost rv = r@;
        let (fused, ok) = visit(r, 0);
        *relation = fused;
        proof {
            if ok {
                lemma_visit_within_limit(rv, 0);
            }
        }
        if ok {
            Ok(())
        } else {
            Err(TransformError::RecursionLimitExceeded { limit: RECURSION_LIMIT })
        }
    }
}

/// Fusing a node twice gives what fusing it once gives.
pub proof fn lemma_action_idempotent(p: Plan)
    ensures
        action_plan(action_plan(p)) == action_plan(p),
{
    if let Plan::TopK { input, group_key, order_key, limit, offset, monotonic, expected_group_size } = p {
        lemma_fuse_chain_result(group_key, order_key, limit, offset, monotonic, expected_group_size, *input);
    }
}

/// Fusing a chain keeps the number of output columns of its input.
pub proof fn lemma_fuse_chain_arity(
    group_key: Seq<usize>,
    order_key: Seq<ColumnOrder>,
    limit: Option<Scalar>,
    offset: nat,
    monotonic: bool,
    hint: Option<u64>,
    input: Plan,
)
    ensures
        arity(fuse_chain(group_key, order_key, limit, offset, monotonic, hint, input)) == arity(input),
    decreases input,
{
    if let Plan::TopK {
        input: inner,
        limit: inner_limit,
        offset: inner_offset,
        monotonic: inner_monotonic,
        expected_group_size: inner_hint,
        ..
    } = input {
        if fusable(group_key, order_key, limit, input) {
            let new_limit = fused_limit(limit, inner_limit, offset);
            if limit_literal(new_limit) != Some(0nat) {
                lemma_fuse_chain_arity(
                    group_key,
                    order_key,
                    new_limit,
                    offset + inner_offset,
                    inner_monotonic,
                    fused_hint(hint, inner_hint),
                    *inner,
                );
            }
        }
    }
}

/// The fusion of a node keeps the number of output columns.
pub proof fn lemma_action_arity(p: Plan)
    ensures
        arity(action_plan(p)) == arity(p),
{
    if let Plan::TopK { input, group_key, order_key, limit, offset, monotonic, expected_group_size } = p {
        lemma_fuse_chain_arity(group_key, order_key, limit, offset, monotonic, expected_group_size, *input);
    }
}

/// No `TopK` in the tree reads from a `TopK` that it could be fused with.
pub open spec fn fully_fused(p: Plan) -> bool
    decreases p,
{
    match p {
        Plan::TopK { input, group_key, order_key, limit, .. } => {
            &&& !fusable(group_key, order_key, limit, *input)
            &&& fully_fused(*input)
        },
        Plan::Other { inputs, .. } => forall|i: int|
            0 <= i < inputs.len() ==> fully_fused(#[trigger] inputs[i]),
        Plan::Empty { .. } => true,
    }
}

/// The fused tree has the node kind of the original at its root, and a `TopK` at the root
/// keeps its keys, and a limit that blocks the fusion.
proof fn lemma_fuse_all_head(p: Plan)
    ensures
        !(p is TopK) ==> !(fuse_all(p) is TopK),
        p is TopK && fuse_all(p) is TopK ==> fuse_all(p)->group_key == p->group_key
            && fuse_all(p)->order_key == p->order_key
            && (limit_blocks(p->limit) ==> fuse_all(p)->limit == p->limit),
{
    if let Plan::TopK { input, group_key, order_key, limit, offset, monotonic, expected_group_size } = p {
        lemma_fuse_chain_result(group_key, order_key, limit, offset, monotonic, expected_group_size, *input);
    }
}

/// After the traversal, no `TopK` reads from a `TopK` that it could be fused with.
pub proof fn lemma_fuse_all_fully_fused(p: Plan)
    ensures
        fully_fused(fuse_all(p)),
    decreases height(p),
{
    match p {
        Plan::TopK { input, group_key, order_key, limit, offset, monotonic, expected_group_size } => {
            lemma_action_height(p);
            lemma_fuse_chain_result(group_key, order_key, limit, offset, monotonic, expected_group_size, *input);
            let a = action_plan(p);
            if let Plan::TopK { input: t, .. } = a {
                lemma_fuse_all_fully_fused(*t);
                lemma_fuse_all_head(*t);
            }
        },
        Plan::Other { inputs, .. } => {
            let q = fuse_all(p);
            assert forall|i: int| 0 <= i < q->inputs.len() implies fully_fused(#[trigger] q->inputs[i]) by {
                lemma_child_height(inputs, i);
                lemma_fuse_all_fully_fused(inputs[i]);
            }
        },
        Plan::Empty { .. } => {},
    }
}

/// A tree in which nothing can be fused is left as it is.
pub proof fn lemma_fully_fused_unchanged(p: Plan)
    requires
        fully_fused(p),
    ensures
        fuse_all(p) == p,
    decreases p,
{
    match p {
        Plan::TopK { input, group_key, order_key, limit, offset, monotonic, expected_group_size } => {
            lemma_fully_fused_unchanged(*input);
        },
        Plan::Other { inputs, .. } => {
            let q = fuse_all(p);
            assert forall|i: int| 0 <= i < inputs.len() implies #[trigger] q->inputs[i] == inputs[i] by {
                lemma_fully_fused_unchanged(inputs[i]);
            }
            assert(q->inputs =~= inputs);
        },
        Plan::Empty { .. } => {},
    }
}

/// Running the fusion over the whole tree a second time changes nothing.
pub proof fn lemma_fuse_all_idempotent(p: Plan)
    ensures
        fuse_all(fuse_all(p)) == fuse_all(p),
{
    lemma_fuse_all_fully_fused(p);
    lemma_fully_fused_unchanged(fuse_all(p));
}

/// The rows that a `TopK` keeps of the rows of one group, taken in the group's order:
/// those after the first `offset`, and at most `limit` of them.
pub open spec fn window<A>(rows: Seq<A>, offset: nat, limit: Option<nat>) -> Seq<A> {
    let rest = if offset <= rows.len() {
        rows.skip(offset as int)
    } else {
        Seq::<A>::empty()
    };
    match limit {
        Some(l) => if l <= rest.len() {
            rest.take(l as int)
        } else {
            rest
        },
        None => rest,
    }
}

/// The limit of two fused `TopK`s as a number: the inner limit minus the outer offset,
/// capped by the outer limit.
pub open spec fn fused_limit_value(inner: Option<nat>, outer: Option<nat>, outer_offset: nat) -> Option<
    nat,
> {
    match inner {
        Some(n) => Some(
            match outer {
                Some(o) => min_nat(o, saturating_sub(n, outer_offset)),
                None => saturating_sub(n, outer_offset),
            },
        ),
        None => outer,
    }
}

/// Keeping rows `inner_offset ..` (at most `inner_limit`) and then rows `outer_offset ..`
/// (at most `outer_limit`) of those keeps the rows that one window with the summed offset
/// and the fused limit keeps.
pub proof fn lemma_window_fusion<A>(
    rows: Seq<A>,
    inner_offset: nat,
    inner_limit: Option<nat>,
    outer_offset: nat,
    outer_limit: Option<nat>,
)
    ensures
        window(window(rows, inner_offset, inner_limit), outer_offset, outer_limit) == window(
            rows,
            inner_offset + outer_offset,
            fused_limit_value(inner_limit, outer_limit, outer_offset),
        ),
{
    let first = window(rows, inner_offset, inner_limit);
    let lhs = window(first, outer_offset, outer_limit);
    let rhs = window(
        rows,
        inner_offset + outer_offset,
        fused_limit_value(inner_limit, outer_limit, outer_offset),
    );
    assert forall|j: int| 0 <= j < first.len() implies #[trigger] first[j] == rows[inner_offset + j] by {}
    assert forall|j: int| 0 <= j < lhs.len() implies #[trigger] lhs[j] == first[outer_offset + j] by {}
    assert forall|j: int| 0 <= j < rhs.len() implies #[trigger] rhs[j] == rows[inner_offset + outer_offset + j] by {}
    assert(lhs.len() == rhs.len());
    assert(lhs =~= rhs);
}

/// The limit of two fused `TopK`s read back as a number is the fused limit value.
pub proof fn lemma_fused_limit_literal(outer: Option<Scalar>, inner: Option<Scalar>, outer_offset: nat)
    requires
        !limit_blocks(outer),
        !limit_blocks(inner),
    ensures
        limit_literal(fused_limit(outer, inner, outer_offset)) == fused_limit_value(
            limit_literal(inner),
            limit_literal(outer),
            outer_offset,
        ),
{
}

proof fn lemma_window_zero<A>(rows: Seq<A>, offset: nat)
    ensures
        window(rows, offset, Some(0nat)) == Seq::<A>::empty(),
{
    assert(window(rows, offset, Some(0nat)) =~= Seq::<A>::empty());
}

/// The value of a plan, given what every `Other` operator computes from its kind, its arity
/// and the values of its inputs, what a `TopK` with given keys, offset and limit computes
/// from the value of its input, and the value of a relation without rows.
pub open spec fn eval<V>(
    p: Plan,
    other: spec_fn(u64, nat, Seq<V>) -> V,
    top_k: spec_fn(Seq<usize>, Seq<ColumnOrder>, nat, Option<Scalar>, V) -> V,
    empty: V,
) -> V
    decreases p,
{
    match p {
        Plan::Empty { .. } => empty,
        Plan::Other { kind, arity, inputs } => other(
            kind,
            arity,
            eval_inputs(inputs, other, top_k, empty),
        ),
        Plan::TopK { input, group_key, order_key, limit, offset, .. } => top_k(
            group_key,
            order_key,
            offset,
            limit,
            eval(*input, other, top_k, empty),
        ),
    }
}

/// The values of the inputs of an operator.
pub open spec fn eval_inputs<V>(
    inputs: Seq<Plan>,
    other: spec_fn(u64, nat, Seq<V>) -> V,
    top_k: spec_fn(Seq<usize>, Seq<ColumnOrder>, nat, Option<Scalar>, V) -> V,
    empty: V,
) -> Seq<V>
    decreases inputs,
{
    Seq::new(
        inputs.len(),
        |i: int|
            if 0 <= i < inputs.len() {
                eval(inputs[i], other, top_k, empty)
            } else {
                empty
            },
    )
}

/// What a `TopK` computes behaves as the fusion assumes: a `TopK` over a `TopK` with the
/// same keys, both with literal limits or none, computes what one `TopK` with the summed
/// offsets and the fused limit computes, and a `TopK` with limit zero computes no rows.
pub open spec fn top_k_composes<V>(
    top_k: spec_fn(Seq<usize>, Seq<ColumnOrder>, nat, Option<Scalar>, V) -> V,
    empty: V,
) -> bool {
    &&& forall|
        group_key: Seq<usize>,
        order_key: Seq<ColumnOrder>,
        inner_offset: nat,
        inner_limit: Option<Scalar>,
        outer_offset: nat,
        outer_limit: Option<Scalar>,
        v: V,
    |
        !limit_blocks(inner_limit) && !limit_blocks(outer_limit) ==> #[trigger] top_k(
            group_key,
            order_key,
            outer_offset,
            outer_limit,
            top_k(group_key, order_key, inner_offset, inner_limit, v),
        ) == top_k(
            group_key,
            order_key,
            inner_offset + outer_offset,
            fused_limit(outer_limit, inner_limit, outer_offset),
            v,
        )
    &&& forall|
        group_key: Seq<usize>,
        order_key: Seq<ColumnOrder>,
        offset: nat,
        limit: Option<Scalar>,
        v: V,
    |
        limit_literal(limit) == Some(0nat) ==> #[trigger] top_k(
            group_key,
            order_key,
            offset,
            limit,
            v,
        ) == empty
}

/// The `TopK` on the rows of one group, taken in the group's order: the window of its
/// offset and limit.
pub open spec fn group_top_k<A>() -> spec_fn(Seq<usize>, Seq<ColumnOrder>, nat, Option<Scalar>, Seq<A>) -> Seq<A> {
    |group_key: Seq<usize>, order_key: Seq<ColumnOrder>, offset: nat, limit: Option<Scalar>, rows: Seq<A>|
        window(rows, offset, limit_literal(limit))
}

/// On the rows of one group, a `TopK` computes what the fusion assumes.
pub proof fn lemma_group_top_k_composes<A>()
    ensures
        top_k_composes(group_top_k::<A>(), Seq::<A>::empty()),
{
    let f = group_top_k::<A>();
    assert forall|
        group_key: Seq<usize>,
        order_key: Seq<ColumnOrder>,
        inner_offset: nat,
        inner_limit: Option<Scalar>,
        outer_offset: nat,
        outer_limit: Option<Scalar>,
        v: Seq<A>,
    |
        !limit_blocks(inner_limit) && !limit_blocks(outer_limit) implies #[trigger] f(
            group_key,
            order_key,
            outer_offset,
            outer_limit,
            f(group_key, order_key, inner_offset, inner_limit, v),
        ) == f(
            group_key,
            order_key,
            inner_offset + outer_offset,
            fused_limit(outer_limit, inner_limit, outer_offset),
            v,
        ) by {
        lemma_fused_limit_literal(outer_limit, inner_limit, outer_offset);
        lemma_window_fusion(
            v,
            inner_offset,
            limit_literal(inner_limit),
            outer_offset,
            limit_literal(outer_limit),
        );
    }
    assert forall|
        group_key: Seq<usize>,
        order_key: Seq<ColumnOrder>,
        offset: nat,
        limit: Option<Scalar>,
        v: Seq<A>,
    | limit_literal(limit) == Some(0nat) implies #[trigger] f(
        group_key,
        order_key,
        offset,
        limit,
        v,
    ) == Seq::<A>::empty() by {
        lemma_window_zero(v, offset);
    }
}

/// Fusing an outer `TopK` into the chain below it computes what the outer `TopK` computes
/// over the chain, whatever lies below the last `TopK` that can be fused.
pub proof fn lemma_fuse_chain_eval<V>(
    group_key: Seq<usize>,
    order_key: Seq<ColumnOrder>,
    limit: Option<Scalar>,
    offset: nat,
    monotonic: bool,
    hint: Option<u64>,
    input: Plan,
    other: spec_fn(u64, nat, Seq<V>) -> V,
    top_k: spec_fn(Seq<usize>, Seq<ColumnOrder>, nat, Option<Scalar>, V) -> V,
    empty: V,
)
    requires
        top_k_composes(top_k, empty),
    ensures
        eval(fuse_chain(group_key, order_key, limit, offset, monotonic, hint, input), other, top_k, empty)
            == top_k(group_key, order_key, offset, limit, eval(input, other, top_k, empty)),
    decreases input,
{
    if let Plan::TopK {
        input: inner,
        limit: inner_limit,
        offset: inner_offset,
        monotonic: inner_monotonic,
        expected_group_size: inner_hint,
        ..
    } = input {
        if fusable(group_key, order_key, limit, input) {
            let new_limit = fused_limit(limit, inner_limit, offset);
            let below = eval(*inner, other, top_k, empty);
            assert(top_k(
                group_key,
                order_key,
                offset,
                limit,
                top_k(group_key, order_key, inner_offset, inner_limit, below),
            ) == top_k(group_key, order_key, inner_offset + offset, new_limit, below));
            if limit_literal(new_limit) == Some(0nat) {
                assert(top_k(group_key, order_key, inner_offset + offset, new_limit, below) == empty);
            } else {
                lemma_fuse_chain_eval(
                    group_key,
                    order_key,
                    new_limit,
                    offset + inner_offset,
                    inner_monotonic,
                    fused_hint(hint, inner_hint),
                    *inner,
                    other,
                    top_k,
                    empty,
                );
                assert(offset + inner_offset == inner_offset + offset);
            }
        }
    }
}

/// The fusion of a node keeps the value of the plan.
pub proof fn lemma_action_keeps_eval<V>(
    p: Plan,
    other: spec_fn(u64, nat, Seq<V>) -> V,
    top_k: spec_fn(Seq<usize>, Seq<ColumnOrder>, nat, Option<Scalar>, V) -> V,
    empty: V,
)
    requires
        top_k_composes(top_k, empty),
    ensures
        eval(action_plan(p), other, top_k, empty) == eval(p, other, top_k, empty),
{
    if let Plan::TopK { input, group_key, order_key, limit, offset, monotonic, expected_group_size } = p {
        lemma_fuse_chain_eval(
            group_key,
            order_key,
            limit,
            offset,
            monotonic,
            expected_group_size,
            *input,
            other,
            top_k,
            empty,
        );
    }
}

/// Fusing the whole tree keeps its value.
pub proof fn lemma_fuse_all_keeps_eval<V>(
    p: Plan,
    other: spec_fn(u64, nat, Seq<V>) -> V,
    top_k: spec_fn(Seq<usize>, Seq<ColumnOrder>, nat, Option<Scalar>, V) -> V,
    empty: V,
)
    requires
        top_k_composes(top_k, empty),
    ensures
        eval(fuse_all(p), other, top_k, empty) == eval(p, other, top_k, empty),
    decreases height(p),
{
    match p {
        Plan::TopK { .. } => {
            lemma_action_height(p);
            lemma_action_keeps_eval(p, other, top_k, empty);
            let a = action_plan(p);
            if let Plan::TopK { input: t, group_key, order_key, limit, offset, monotonic, expected_group_size } = a {
                lemma_fuse_all_keeps_eval(*t, other, top_k, empty);
                assert(fuse_all(p) == Plan::TopK {
                    input: Box::new(fuse_all(*t)),
                    group_key,
                    order_key,
                    limit,
                    offset,
                    monotonic,
                    expected_group_size,
                });
            } else {
                assert(fuse_all(p) == a);
            }
        },
        Plan::Other { kind, arity, inputs } => {
            let q = fuse_all(p)->inputs;
            let a = eval_inputs(q, other, top_k, empty);
            let b = eval_inputs(inputs, other, top_k, empty);
            assert forall|i: int| 0 <= i < inputs.len() implies #[trigger] a[i] == b[i] by {
                lemma_child_height(inputs, i);
                lemma_fuse_all_keeps_eval(inputs[i], other, top_k, empty);
            }
            assert(a =~= b);
        },
        Plan::Empty { .. } => {},
    }
}

/// The traversal keeps the value of the plan, also where it stops at the recursion limit.
pub proof fn lemma_visit_keeps_eval<V>(
    p: Plan,
    depth: nat,
    other: spec_fn(u64, nat, Seq<V>) -> V,
    top_k: spec_fn(Seq<usize>, Seq<ColumnOrder>, nat, Option<Scalar>, V) -> V,
    empty: V,
)
    requires
        top_k_composes(top_k, empty),
    ensures
        eval(visit_plan(p, depth), other, top_k, empty) == eval(p, other, top_k, empty),
    decreases height(p),
{
    if depth < RECURSION_LIMIT {
        match p {
            Plan::TopK { .. } => {
                lemma_action_height(p);
                lemma_action_keeps_eval(p, other, top_k, empty);
                let a = action_plan(p);
                if let Plan::TopK { input: t, group_key, order_key, limit, offset, monotonic, expected_group_size } = a {
                    lemma_visit_keeps_eval(*t, depth + 1, other, top_k, empty);
                    assert(visit_plan(p, depth) == Plan::TopK {
                        input: Box::new(visit_plan(*t, depth + 1)),
                        group_key,
                        order_key,
                        limit,
                        offset,
                        monotonic,
                        expected_group_size,
                    });
                } else {
                    assert(visit_plan(p, depth) == a);
                }
            },
            Plan::Other { kind, arity, inputs } => {
                let q = visit_plan(p, depth)->inputs;
                let a = eval_inputs(q, other, top_k, empty);
                let b = eval_inputs(inputs, other, top_k, empty);
                assert forall|i: int| 0 <= i < inputs.len() implies #[trigger] a[i] == b[i] by {
                    lemma_child_height(inputs, i);
                    lemma_visit_keeps_eval(inputs[i], depth + 1, other, top_k, empty);
                }
                assert(a =~= b);
            },
            Plan::Empty { .. } => {},
        }
    }
}

/// Fusing the whole tree keeps its number of output columns.
pub proof fn lemma_fuse_all_arity(p: Plan)
    ensures
        arity(fuse_all(p)) == arity(p),
    decreases height(p),
{
    if let Plan::TopK { .. } = p {
        lemma_action_height(p);
        lemma_action_arity(p);
        if let Plan::TopK { input: t, .. } = action_plan(p) {
            lemma_fuse_all_arity(*t);
        }
    }
}

/// The traversal keeps the number of output columns, also where it stops at the recursion
/// limit.
pub proof fn lemma_visit_arity(p: Plan, depth: nat)
    ensures
        arity(visit_plan(p, depth)) == arity(p),
    decreases height(p),
{
    if depth < RECURSION_LIMIT {
        if let Plan::TopK { .. } = p {
            lemma_action_height(p);
            lemma_action_arity(p);
            if let Plan::TopK { input: t, .. } = action_plan(p) {
                lemma_visit_arity(*t, depth + 1);
            }
        }
    }
}

/// The expected group size of a fused `TopK`, where it has one, is no smaller than either
/// hint that it comes from: a hint is never made smaller by the fusion.
pub proof fn lemma_fused_hint_not_smaller(a: Option<u64>, b: Option<u64>)
    ensures
        fused_hint(a, b) matches Some(h) ==> a matches Some(x) && b matches Some(y) && h >= x && h
            >= y,
{
}

} // verus!
