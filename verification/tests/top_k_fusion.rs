use topk_explain::relation::{ColumnOrder, Relation};
use topk_explain::scalar::ScalarExpr;
use topk_explain::top_k::{TopK, TransformError, RECURSION_LIMIT};

fn source() -> Relation {
    Relation::Other { kind: 7, arity: 3, inputs: vec![] }
}

fn order() -> Vec<ColumnOrder> {
    vec![ColumnOrder { column: 1, desc: true, nulls_last: false }]
}

fn top_k(input: Relation, limit: Option<ScalarExpr>, offset: usize) -> Relation {
    Relation::TopK {
        input: Box::new(input),
        group_key: vec![0],
        order_key: order(),
        limit,
        offset,
        monotonic: false,
        expected_group_size: None,
    }
}

fn lit(n: u64) -> Option<ScalarExpr> {
    Some(ScalarExpr::Literal(n))
}

#[test]
fn fuses_limits_and_offsets() {
    // inner keeps rows 2..7 of each group, outer keeps rows 1..4 of those: rows 3..6
    let mut r = top_k(top_k(source(), lit(5), 2), lit(3), 1);
    TopK::action(&mut r);
    assert_eq!(r, top_k(source(), lit(3), 3));
}

#[test]
fn inner_limit_minus_outer_offset_caps_the_limit() {
    let mut r = top_k(top_k(source(), lit(5), 0), lit(10), 2);
    TopK::action(&mut r);
    assert_eq!(r, top_k(source(), lit(3), 2));
}

#[test]
fn outer_limit_kept_without_inner_limit() {
    let mut r = top_k(top_k(source(), None, 4), lit(2), 1);
    TopK::action(&mut r);
    assert_eq!(r, top_k(source(), lit(2), 5));
}

#[test]
fn inner_limit_used_without_outer_limit() {
    let mut r = top_k(top_k(source(), lit(6), 0), None, 2);
    TopK::action(&mut r);
    assert_eq!(r, top_k(source(), lit(4), 2));
}

#[test]
fn no_limits_adds_offsets() {
    let mut r = top_k(top_k(source(), None, 3), None, 4);
    TopK::action(&mut r);
    assert_eq!(r, top_k(source(), None, 7));
}

#[test]
fn offset_past_inner_limit_gives_empty_relation() {
    let mut r = top_k(top_k(source(), lit(2), 0), lit(5), 2);
    TopK::action(&mut r);
    assert_eq!(r, Relation::Empty { arity: 3 });
}

#[test]
fn zero_outer_limit_gives_empty_relation() {
    let mut r = top_k(top_k(source(), None, 0), lit(0), 0);
    TopK::action(&mut r);
    assert_eq!(r, Relation::Empty { arity: 3 });
}

#[test]
fn lone_zero_limit_is_left_alone() {
    let mut r = top_k(source(), lit(0), 0);
    TopK::action(&mut r);
    assert_eq!(r, top_k(source(), lit(0), 0));
}

#[test]
fn expression_limit_stops_fusion() {
    let expr = Some(ScalarExpr::Opaque("#2 + 1".to_string()));
    let mut r = top_k(top_k(source(), expr.clone(), 1), lit(3), 1);
    TopK::action(&mut r);
    assert_eq!(r, top_k(top_k(source(), expr.clone(), 1), lit(3), 1));
    let mut r = top_k(top_k(source(), lit(3), 1), expr.clone(), 1);
    TopK::action(&mut r);
    assert_eq!(r, top_k(top_k(source(), lit(3), 1), expr, 1));
}

#[test]
fn different_keys_stop_fusion() {
    let inner = Relation::TopK {
        input: Box::new(source()),
        group_key: vec![2],
        order_key: order(),
        limit: lit(3),
        offset: 0,
        monotonic: false,
        expected_group_size: None,
    };
    let mut r = top_k(inner, lit(3), 0);
    let expected_inner = Relation::TopK {
        input: Box::new(source()),
        group_key: vec![2],
        order_key: order(),
        limit: lit(3),
        offset: 0,
        monotonic: false,
        expected_group_size: None,
    };
    TopK::action(&mut r);
    assert_eq!(r, top_k(expected_inner, lit(3), 0));
}

#[test]
fn different_order_stops_fusion() {
    let inner = Relation::TopK {
        input: Box::new(source()),
        group_key: vec![0],
        order_key: vec![ColumnOrder { column: 1, desc: false, nulls_last: false }],
        limit: lit(3),
        offset: 0,
        monotonic: false,
        expected_group_size: None,
    };
    let mut r = top_k(inner, lit(3), 0);
    TopK::action(&mut r);
    match r {
        Relation::TopK { input, .. } => assert!(matches!(*input, Relation::TopK { .. })),
        _ => panic!("expected a TopK"),
    }
}

#[test]
fn literal_beyond_usize_is_not_a_literal_limit() {
    assert_eq!(ScalarExpr::Literal(5).as_literal_usize(), Some(5));
    assert_eq!(ScalarExpr::Column(5).as_literal_usize(), None);
    assert_eq!(ScalarExpr::Opaque("x".to_string()).as_literal_usize(), None);
}

#[test]
fn monotonic_and_group_size_hint_after_fusion() {
    let inner = Relation::TopK {
        input: Box::new(source()),
        group_key: vec![0],
        order_key: order(),
        limit: None,
        offset: 1,
        monotonic: true,
        expected_group_size: Some(100),
    };
    let mut r = Relation::TopK {
        input: Box::new(inner),
        group_key: vec![0],
        order_key: order(),
        limit: None,
        offset: 1,
        monotonic: false,
        expected_group_size: Some(40),
    };
    TopK::action(&mut r);
    assert_eq!(
        r,
        Relation::TopK {
            input: Box::new(source()),
            group_key: vec![0],
            order_key: order(),
            limit: None,
            offset: 2,
            monotonic: true,
            expected_group_size: Some(100),
        }
    );
    let inner = Relation::TopK {
        input: Box::new(source()),
        group_key: vec![0],
        order_key: order(),
        limit: None,
        offset: 1,
        monotonic: true,
        expected_group_size: None,
    };
    let mut r = Relation::TopK {
        input: Box::new(inner),
        group_key: vec![0],
        order_key: order(),
        limit: None,
        offset: 1,
        monotonic: false,
        expected_group_size: Some(40),
    };
    TopK::action(&mut r);
    match r {
        Relation::TopK { expected_group_size, .. } => assert_eq!(expected_group_size, None),
        _ => panic!("expected a TopK"),
    }
}

#[test]
fn long_chain_fuses_into_one() {
    let mut r = source();
    for _ in 0..5 {
        r = top_k(r, lit(10), 1);
    }
    TopK::action(&mut r);
    // offsets 1 each; the limit shrinks by the outer offset at every step
    assert_eq!(r, top_k(source(), lit(6), 5));
}

#[test]
fn action_twice_changes_nothing() {
    let mut r = top_k(top_k(top_k(source(), lit(9), 1), lit(6), 1), lit(4), 1);
    TopK::action(&mut r);
    let mut again = top_k(top_k(top_k(source(), lit(9), 1), lit(6), 1), lit(4), 1);
    TopK::action(&mut again);
    TopK::action(&mut again);
    assert_eq!(r, again);
}

#[test]
fn transform_fuses_below_other_operators() {
    let mut r = Relation::Other {
        kind: 1,
        arity: 3,
        inputs: vec![
            top_k(top_k(source(), lit(5), 0), lit(2), 0),
            source(),
            top_k(top_k(source(), lit(1), 0), lit(1), 1),
        ],
    };
    let res = TopK.transform(&mut r);
    assert_eq!(res, Ok(()));
    assert_eq!(
        r,
        Relation::Other {
            kind: 1,
            arity: 3,
            inputs: vec![top_k(source(), lit(2), 0), source(), Relation::Empty { arity: 3 }],
        }
    );
}

#[test]
fn transform_fuses_nested_chains() {
    let inner_chain = Relation::TopK {
        input: Box::new(Relation::TopK {
            input: Box::new(source()),
            group_key: vec![1],
            order_key: vec![],
            limit: lit(8),
            offset: 0,
            monotonic: false,
            expected_group_size: None,
        }),
        group_key: vec![1],
        order_key: vec![],
        limit: lit(4),
        offset: 2,
        monotonic: false,
        expected_group_size: None,
    };
    let mut r = top_k(inner_chain, lit(3), 0);
    assert_eq!(TopK.transform(&mut r), Ok(()));
    let fused_inner = Relation::TopK {
        input: Box::new(source()),
        group_key: vec![1],
        order_key: vec![],
        limit: lit(4),
        offset: 2,
        monotonic: false,
        expected_group_size: None,
    };
    assert_eq!(r, top_k(fused_inner, lit(3), 0));
}

fn deep(n: usize) -> Relation {
    let mut r = Relation::Empty { arity: 1 };
    for _ in 0..n {
        r = Relation::Other { kind: 0, arity: 1, inputs: vec![r] };
    }
    r
}

#[test]
fn transform_at_the_recursion_limit() {
    let mut r = deep(RECURSION_LIMIT - 1);
    assert_eq!(TopK.transform(&mut r), Ok(()));
    let mut r = deep(RECURSION_LIMIT);
    assert_eq!(
        TopK.transform(&mut r),
        Err(TransformError::RecursionLimitExceeded { limit: RECURSION_LIMIT })
    );
}

#[test]
fn arity_reads_through_top_k() {
    let r = top_k(source(), lit(1), 0);
    assert_eq!(r.arity(), 3);
}

/// The rows of one group that a `TopK` with these parameters keeps.
fn window(rows: &[u32], offset: usize, limit: Option<usize>) -> Vec<u32> {
    let rest: Vec<u32> = rows.iter().skip(offset).cloned().collect();
    match limit {
        Some(l) => rest.into_iter().take(l).collect(),
        None => rest,
    }
}

fn limit_value(limit: &Option<ScalarExpr>) -> Option<usize> {
    limit.as_ref().map(|l| l.as_literal_usize().unwrap())
}

#[test]
fn fused_top_k_keeps_the_same_rows() {
    let rows: Vec<u32> = (0..12).collect();
    let limits = [None, Some(0u64), Some(1), Some(3), Some(7), Some(20)];
    for inner_offset in 0..6usize {
        for outer_offset in 0..6usize {
            for inner_limit in limits {
                for outer_limit in limits {
                    let inner_limit_expr = inner_limit.map(ScalarExpr::Literal);
                    let outer_limit_expr = outer_limit.map(ScalarExpr::Literal);
                    let expected = window(
                        &window(&rows, inner_offset, inner_limit.map(|l| l as usize)),
                        outer_offset,
                        outer_limit.map(|l| l as usize),
                    );
                    let mut r = top_k(
                        top_k(source(), inner_limit_expr, inner_offset),
                        outer_limit_expr,
                        outer_offset,
                    );
                    TopK::action(&mut r);
                    let got = match &r {
                        Relation::TopK { input, limit, offset, .. } => {
                            assert!(matches!(**input, Relation::Other { .. }));
                            window(&rows, *offset, limit_value(limit))
                        }
                        Relation::Empty { .. } => vec![],
                        Relation::Other { .. } => panic!("unexpected operator"),
                    };
                    assert_eq!(got, expected);
                }
            }
        }
    }
}

#[test]
fn transform_twice_changes_nothing() {
    let build = || Relation::Other {
        kind: 2,
        arity: 3,
        inputs: vec![top_k(top_k(top_k(source(), lit(9), 1), lit(6), 2), None, 1), source()],
    };
    let mut once = build();
    assert_eq!(TopK.transform(&mut once), Ok(()));
    let mut twice = build();
    assert_eq!(TopK.transform(&mut twice), Ok(()));
    assert_eq!(TopK.transform(&mut twice), Ok(()));
    assert_eq!(once, twice);
}

#[test]
fn transform_past_the_limit_leaves_later_inputs_alone() {
    let chain = || top_k(top_k(source(), lit(5), 0), lit(2), 0);
    let mut r = top_k(
        top_k(
            Relation::Other { kind: 1, arity: 3, inputs: vec![deep(RECURSION_LIMIT), chain()] },
            lit(4),
            0,
        ),
        lit(3),
        0,
    );
    assert_eq!(
        TopK.transform(&mut r),
        Err(TransformError::RecursionLimitExceeded { limit: RECURSION_LIMIT })
    );
    match r {
        Relation::TopK { input, limit, .. } => {
            assert_eq!(limit, lit(3));
            match *input {
                Relation::Other { inputs, .. } => {
                    assert_eq!(inputs.len(), 2);
                    assert_eq!(inputs[1], chain());
                }
                _ => panic!("expected the fused TopK over the operator"),
            }
        }
        _ => panic!("expected a TopK"),
    }
}

type Row = Vec<u32>;

/// The rows of the base relation that an `Other` operator of this kind stands for.
fn base_rows(kind: u64) -> Vec<Row> {
    (0..20u32).map(|i| vec![(i * 7 + kind as u32) % 3, (i * 11 + kind as u32) % 5, i]).collect()
}

/// A `TopK` on a table: per group, in the order of the key (stable), the window.
fn run_top_k(rows: Vec<Row>, group_key: &[usize], order_key: &[ColumnOrder], limit: Option<usize>, offset: usize) -> Vec<Row> {
    let mut groups: Vec<(Vec<u32>, Vec<Row>)> = Vec::new();
    for r in rows {
        let g: Vec<u32> = group_key.iter().map(|c| r[*c]).collect();
        match groups.iter_mut().find(|(k, _)| *k == g) {
            Some((_, rs)) => rs.push(r),
            None => groups.push((g, vec![r])),
        }
    }
    let mut out = Vec::new();
    for (_, mut rs) in groups {
        rs.sort_by(|a, b| {
            for o in order_key {
                let c = a[o.column].cmp(&b[o.column]);
                let c = if o.desc { c.reverse() } else { c };
                if c != std::cmp::Ordering::Equal {
                    return c;
                }
            }
            std::cmp::Ordering::Equal
        });
        out.extend(rs.into_iter().skip(offset).take(limit.unwrap_or(usize::MAX)));
    }
    out
}

/// The rows of a plan, as a sorted list.
fn rows_of(r: &Relation) -> Vec<Row> {
    let mut rows = match r {
        Relation::Empty { .. } => vec![],
        Relation::Other { kind, inputs, .. } => {
            let mut rows = base_rows(*kind);
            for i in inputs {
                rows.extend(rows_of(i));
            }
            rows
        }
        Relation::TopK { input, group_key, order_key, limit, offset, .. } => {
            run_top_k(rows_of(input), group_key, order_key, limit_value(limit), *offset)
        }
    };
    rows.sort();
    rows
}

fn keyed(input: Relation, group_key: Vec<usize>, desc: bool, limit: Option<ScalarExpr>, offset: usize) -> Relation {
    Relation::TopK {
        input: Box::new(input),
        group_key,
        order_key: vec![ColumnOrder { column: 1, desc, nulls_last: false }, ColumnOrder { column: 2, desc: false, nulls_last: false }],
        limit,
        offset,
        monotonic: false,
        expected_group_size: None,
    }
}

#[test]
fn fusion_above_a_top_k_with_other_keys_keeps_the_rows() {
    let build = || {
        keyed(
            keyed(keyed(Relation::Other { kind: 1, arity: 3, inputs: vec![] }, vec![1], false, lit(4), 0), vec![0], true, lit(5), 1),
            vec![0],
            true,
            lit(2),
            1,
        )
    };
    let before = rows_of(&build());
    let mut r = build();
    TopK::action(&mut r);
    // the two TopKs grouped by column 0 are fused; the one grouped by column 1 stays
    match &r {
        Relation::TopK { input, limit, offset, .. } => {
            assert_eq!((limit.clone(), *offset), (lit(2), 2));
            assert!(matches!(**input, Relation::TopK { .. }));
        }
        _ => panic!("expected a TopK"),
    }
    assert_eq!(rows_of(&r), before);
}

#[test]
fn transform_keeps_the_rows_of_a_plan() {
    let build = || Relation::Other {
        kind: 2,
        arity: 3,
        inputs: vec![
            keyed(keyed(keyed(Relation::Other { kind: 3, arity: 3, inputs: vec![] }, vec![1], false, lit(4), 0), vec![0], true, lit(5), 1), vec![0], true, None, 2),
            keyed(keyed(Relation::Other { kind: 4, arity: 3, inputs: vec![] }, vec![0], false, lit(3), 2), vec![0], false, lit(1), 2),
            keyed(keyed(Relation::Other { kind: 5, arity: 3, inputs: vec![] }, vec![2], false, None, 0), vec![2], false, lit(9), 0),
        ],
    };
    let before = rows_of(&build());
    let mut r = build();
    assert_eq!(TopK.transform(&mut r), Ok(()));
    assert_eq!(rows_of(&r), before);
    assert_eq!(r.arity(), 3);
}
