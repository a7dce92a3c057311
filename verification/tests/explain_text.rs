use topk_explain::explain::{
    CompactScalarSeq, Displayable, ExplainMultiPlan, ExplainSinglePlan, Explainable,
    MapFilterProject, PlanRenderingContext,
};
use topk_explain::scalar::{write_decimal, DisplayText, ScalarExpr, ScalarOps};
use topk_explain::text::{write_block, write_indent, Indent, Line};

fn col(c: usize) -> ScalarExpr {
    ScalarExpr::Column(c)
}

fn compact(exprs: &[ScalarExpr]) -> String {
    let mut out = String::new();
    CompactScalarSeq(exprs).fmt(&mut out);
    out
}

fn line(depth: usize, text: &str) -> Line {
    Line { depth, text: text.to_string() }
}

#[test]
fn decimal_rendering() {
    let mut out = String::new();
    write_decimal(&mut out, 0);
    out.push(' ');
    write_decimal(&mut out, 7);
    out.push(' ');
    write_decimal(&mut out, 1234567890);
    out.push(' ');
    write_decimal(&mut out, u64::MAX);
    assert_eq!(out, format!("0 7 1234567890 {}", u64::MAX));
}

#[test]
fn scalar_text() {
    let mut out = String::new();
    col(12).fmt_text(&mut out);
    ScalarExpr::Literal(5).fmt_text(&mut out);
    ScalarExpr::Opaque("(#1 + #2)".to_string()).fmt_text(&mut out);
    assert_eq!(out, "#125(#1 + #2)");
}

#[test]
fn scalar_ops_of_expressions() {
    assert_eq!(col(3).match_col_ref(), Some(3));
    assert_eq!(ScalarExpr::Literal(3).match_col_ref(), None);
    assert!(col(3).references(3));
    assert!(!col(3).references(4));
    assert!(!ScalarExpr::Literal(3).references(3));
}

#[test]
fn compact_empty_and_single() {
    assert_eq!(compact(&[]), "");
    assert_eq!(compact(&[col(4)]), "#4");
}

#[test]
fn compact_runs_of_three_or_more() {
    assert_eq!(compact(&[col(0), col(1), col(2)]), "#0..=#2");
    assert_eq!(compact(&[col(0), col(1), col(2), col(3), col(4)]), "#0..=#4");
    assert_eq!(compact(&[col(3), col(4), col(5), col(9)]), "#3..=#5, #9");
}

#[test]
fn compact_runs_of_two_are_listed() {
    assert_eq!(compact(&[col(0), col(1)]), "#0, #1");
    assert_eq!(compact(&[col(0), col(1), col(3), col(4)]), "#0, #1, #3, #4");
}

#[test]
fn compact_mixed_expressions() {
    let exprs = vec![
        ScalarExpr::Literal(1),
        col(5),
        col(6),
        col(7),
        ScalarExpr::Opaque("f(#0)".to_string()),
        col(2),
        col(1),
        col(0),
    ];
    assert_eq!(compact(&exprs), "1, #5..=#7, f(#0), #2, #1, #0");
}

#[test]
fn compact_run_stops_at_a_gap() {
    assert_eq!(
        compact(&[col(1), col(2), col(3), col(5), col(6), col(7), col(8)]),
        "#1..=#3, #5..=#8"
    );
}

#[test]
fn compact_run_at_the_largest_column() {
    let m = usize::MAX;
    assert_eq!(
        compact(&[col(m - 2), col(m - 1), col(m), col(0)]),
        format!("#{}..=#{}, #0", m - 2, m)
    );
}

#[test]
fn indentation_and_blocks() {
    let mut out = String::new();
    write_indent(&mut out, 3);
    assert_eq!(out, "      ");
    let mut out = String::new();
    Indent::default().fmt(&mut out);
    assert_eq!(out, "");
    assert_eq!(Indent::default().deeper().level, 1);
    let mut out = String::new();
    write_block(&mut out, &vec![line(0, "Project (#0)"), line(1, "Get t")], &Indent { level: 1 });
    assert_eq!(out, "  Project (#0)\n    Get t\n");
}

fn mfp(expressions: Vec<ScalarExpr>, predicates: Vec<ScalarExpr>, projection: Vec<usize>, input_arity: usize) -> MapFilterProject {
    MapFilterProject {
        expressions,
        predicates: predicates.into_iter().map(|p| (0, p)).collect(),
        projection,
        input_arity,
    }
}

fn mfp_text(m: &MapFilterProject, level: usize) -> String {
    let mut out = String::new();
    Displayable(m).fmt_text(&mut out, &Indent { level });
    out
}

#[test]
fn identity_operator_renders_nothing() {
    let m = mfp(vec![], vec![], vec![0, 1, 2], 3);
    assert!(m.is_identity());
    assert_eq!(mfp_text(&m, 1), "");
}

#[test]
fn operator_fields() {
    let m = mfp(
        vec![ScalarExpr::Opaque("(#0 + #1)".to_string()), col(3)],
        vec![ScalarExpr::Opaque("(#0 > 5)".to_string()), ScalarExpr::Opaque("(#1) IS NOT NULL".to_string())],
        vec![0, 1, 2, 4],
        3,
    );
    assert!(!m.is_identity());
    assert_eq!(
        mfp_text(&m, 1),
        "  project=(#0..=#2, #4)\n  filter=((#0 > 5) AND (#1) IS NOT NULL)\n  map=((#0 + #1), #3)\n"
    );
}

#[test]
fn project_shown_for_reordering_or_narrowing() {
    assert_eq!(mfp_text(&mfp(vec![], vec![], vec![1, 0], 2), 0), "project=(#1, #0)\n");
    assert_eq!(mfp_text(&mfp(vec![], vec![], vec![0, 1], 3), 0), "project=(#0, #1)\n");
    let m = mfp(vec![], vec![ScalarExpr::Opaque("true".to_string())], vec![0], 1);
    assert!(!m.is_identity());
    assert_eq!(mfp_text(&m, 0), "filter=(true)\n");
}

#[test]
fn displayable_from_reference() {
    let m = mfp(vec![col(0)], vec![], vec![0], 1);
    let d: Displayable<MapFilterProject> = Displayable::from(&m);
    let mut out = String::new();
    d.fmt_text(&mut out, &Indent { level: 0 });
    assert_eq!(out, "map=(#0)\n");
}

#[test]
fn explainable_wraps_the_value() {
    let mut v = 5u32;
    let e = Explainable::new(&mut v);
    *e.0 += 1;
    assert_eq!(v, 6);
}

#[test]
fn rendering_context_holds_the_indent() {
    let ctx = PlanRenderingContext::new(Indent { level: 2 });
    assert_eq!(ctx.indent, Indent { level: 2 });
}

#[test]
fn single_plan_without_finishing() {
    let e = ExplainSinglePlan {
        finishing: None,
        plan: vec![line(0, "Filter (#0 > 1)"), line(1, "Get t")],
        used_indexes: vec![],
    };
    let mut out = String::new();
    e.fmt_text(&mut out);
    assert_eq!(out, "Filter (#0 > 1)\n  Get t\n");
}

#[test]
fn single_plan_with_finishing_and_indexes() {
    let e = ExplainSinglePlan {
        finishing: Some(vec![line(0, "Finish order_by=[#0 asc] output=[#0]")]),
        plan: vec![line(0, "Get t")],
        used_indexes: vec![line(0, "Used Indexes:"), line(1, "- t_idx")],
    };
    let mut out = String::new();
    e.fmt_text(&mut out);
    assert_eq!(
        out,
        "Finish order_by=[#0 asc] output=[#0]\n  Get t\n\nUsed Indexes:\n  - t_idx\n"
    );
}

#[test]
fn multi_plan_finishing_applies_to_first_plan() {
    let e = ExplainMultiPlan {
        finishing: Some(vec![line(0, "Finish limit=1")]),
        sources: vec![],
        plans: vec![
            ("materialize.public.v".to_string(), vec![line(0, "Get t")]),
            ("materialize.public.w".to_string(), vec![line(0, "Get u")]),
        ],
        used_indexes: vec![],
    };
    let mut out = String::new();
    e.fmt_text(&mut out);
    assert_eq!(
        out,
        "materialize.public.v:\n  Finish limit=1\n    Get t\nmaterialize.public.w:\n  Get u\n"
    );
}

#[test]
fn multi_plan_sources_and_indexes() {
    let e = ExplainMultiPlan {
        finishing: None,
        sources: vec![
            ("t".to_string(), mfp(vec![], vec![], vec![0, 1], 2)),
            ("u".to_string(), mfp(vec![], vec![ScalarExpr::Opaque("(#0 = 1)".to_string())], vec![0], 1)),
        ],
        plans: vec![("v".to_string(), vec![line(0, "Join"), line(1, "Get t"), line(1, "Get u")])],
        used_indexes: vec![line(0, "Used Indexes:")],
    };
    let mut out = String::new();
    e.fmt_text(&mut out);
    assert_eq!(
        out,
        "v:\n  Join\n    Get t\n    Get u\n\nSource u\n  filter=((#0 = 1))\n\nUsed Indexes:\n"
    );
}

#[test]
fn multi_plan_identity_sources_are_omitted() {
    let e = ExplainMultiPlan {
        finishing: None,
        sources: vec![("t".to_string(), mfp(vec![], vec![], vec![0], 1))],
        plans: vec![("v".to_string(), vec![line(0, "Get t")])],
        used_indexes: vec![],
    };
    let mut out = String::new();
    e.fmt_text(&mut out);
    assert_eq!(out, "v:\n  Get t\n");
}

#[test]
fn rendering_context_indent_can_be_changed() {
    let mut ctx = PlanRenderingContext::new(Indent::default());
    *ctx.as_mut() = Indent { level: 3 };
    assert_eq!(ctx.indent.level, 3);
}
