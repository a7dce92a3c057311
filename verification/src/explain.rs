//! `EXPLAIN` support: the text layout of plans, of the operators on their sources, and of
//! lists of scalar expressions.

use vstd::prelude::*;
use crate::scalar::{DisplayText, ScalarExpr, ScalarOps};
use crate::text::{block_text, indent_text, write_block, Indent, Line};

verus! {

/// Newtype struct for wrapping types that should be explained.
pub struct Explainable<'a, T>(pub &'a mut T);

impl<'a, T> Explainable<'a, T> {
    /// Wraps `t`.
    pub fn new(t: &'a mut T) -> (r: Explainable<'a, T>)
        ensures
            *r.0 == *old(t),
            *final(t) == *final(r.0),
    {
        Explainable(t)
    }
}

/// Newtype struct for wrapping types that should be rendered as text.
pub struct Displayable<'a, T>(pub &'a T);

impl<'a, T> From<&'a T> for Displayable<'a, T> {
    fn from(t: &'a T) -> (r: Self) {
        Displayable(t)
    }
}

impl<'a, T> vstd::std_specs::convert::FromSpecImpl<&'a T> for Displayable<'a, T> {
    open spec fn obeys_from_spec() -> bool {
        true
    }

    open spec fn from_spec(v: &'a T) -> Self {
        Displayable(v)
    }
}

/// Whether the expression at position `j` of `s` is a reference to column `col`.
pub open spec fn refs_at<T: ScalarOps>(s: Seq<T>, j: int, col: int) -> bool {
    &&& 0 <= j < s.len()
    &&& 0 <= col <= usize::MAX
    &&& s[j].refers_to(col as usize)
}

/// The end of the run of references to columns `lead + k, lead + k + 1, ...` at positions
/// `start + k, start + k + 1, ...` of `s`.
pub open spec fn run_end<T: ScalarOps>(s: Seq<T>, start: int, lead: int, k: int) -> int
    decreases s.len() - (start + k),
{
    if start + k < s.len() && refs_at(s, start + k, lead + k) {
        run_end(s, start, lead, k + 1)
    } else {
        start + k
    }
}

/// The end of the piece of the compact rendering that starts at position `start`: a run of
/// three or more references to consecutive columns, or else the single expression.
pub open spec fn piece_end<T: ScalarOps>(s: Seq<T>, start: int) -> int {
    match s[start].column_ref() {
        Some(lead) => if refs_at(s, start + 1, lead + 1) && refs_at(s, start + 2, lead + 2) {
            run_end(s, start, lead as int, 3)
        } else {
            start + 1
        },
        None => start + 1,
    }
}

/// The expression at position `j` continues the run that starts at position `start` with a
/// reference to column `lead`.
pub open spec fn continues_run<T: ScalarOps>(s: Seq<T>, start: int, lead: int, j: int) -> bool {
    refs_at(s, j, lead + (j - start))
}

/// A run ends within the sequence, every position before its end continues it, and the
/// position at its end does not.
pub proof fn lemma_run_end<T: ScalarOps>(s: Seq<T>, start: int, lead: int, k: int)
    requires
        0 <= start,
        0 <= k,
        start + k <= s.len(),
    ensures
        start + k <= run_end(s, start, lead, k) <= s.len(),
        forall|j: int|
            start + k <= j < run_end(s, start, lead, k) ==> #[trigger] continues_run(
                s,
                start,
                lead,
                j,
            ),
        run_end(s, start, lead, k) < s.len() ==> !continues_run(
            s,
            start,
            lead,
            run_end(s, start, lead, k),
        ),
    decreases s.len() - (start + k),
{
    if start + k < s.len() && refs_at(s, start + k, lead + k) {
        lemma_run_end(s, start, lead, k + 1);
    }
}

/// A piece covers at least one expression, and never exactly two.
pub proof fn lemma_piece_end<T: ScalarOps>(s: Seq<T>, start: int)
    requires
        0 <= start < s.len(),
    ensures
        start < piece_end(s, start) <= s.len(),
        piece_end(s, start) != start + 2,
{
    if let Some(lead) = s[start].column_ref() {
        if refs_at(s, start + 1, lead + 1) && refs_at(s, start + 2, lead + 2) {
            lemma_run_end(s, start, lead as int, 3);
        }
    }
}

/// The text of the piece from `start` to `end`: the first and the last expression of a run
/// joined by `..=`, or the single expression.
pub open spec fn piece_text<T: ScalarOps + DisplayText>(s: Seq<T>, start: int, end: int) -> Seq<
    char,
> {
    if end > start + 1 {
        s[start].text() + "..="@ + s[end - 1].text()
    } else {
        s[start].text()
    }
}

/// The compact rendering of the expressions of `s` from position `start` on: the pieces,
/// separated by `, `.
pub open spec fn compact_text<T: ScalarOps + DisplayText>(s: Seq<T>, start: int) -> Seq<char>
    decreases s.len() - start,
{
    if 0 <= start < s.len() {
        let end = piece_end(s, start);
        proof {
            lemma_piece_end(s, start);
        }
        piece_text(s, start, end) + if end < s.len() {
            ", "@ + compact_text(s, end)
        } else {
            Seq::empty()
        }
    } else {
        Seq::empty()
    }
}

/// A piece that the compact rendering shows as an interval is a run of three or more
/// references to consecutive columns that the next expression does not continue; a piece
/// shown as a single expression does not start such a run.
pub proof fn lemma_piece_is_maximal_run<T: ScalarOps>(s: Seq<T>, start: int)
    requires
        0 <= start < s.len(),
    ensures
        ({
            let end = piece_end(s, start);
            &&& start < end <= s.len()
            &&& end > start + 1 ==> {
                &&& end >= start + 3
                &&& s[start].column_ref() is Some
                &&& forall|j: int|
                    start < j < end ==> #[trigger] continues_run(
                        s,
                        start,
                        s[start].column_ref()->0 as int,
                        j,
                    )
                &&& end < s.len() ==> !continues_run(
                    s,
                    start,
                    s[start].column_ref()->0 as int,
                    end,
                )
            }
            &&& end == start + 1 ==> !(s[start].column_ref() is Some && continues_run(
                s,
                start,
                s[start].column_ref()->0 as int,
                start + 1,
            ) && continues_run(s, start, s[start].column_ref()->0 as int, start + 2))
        }),
{
    lemma_piece_end(s, start);
    if let Some(lead) = s[start].column_ref() {
        if refs_at(s, start + 1, lead + 1) && refs_at(s, start + 2, lead + 2) {
            lemma_run_end(s, start, lead as int, 3);
            assert(continues_run(s, start, lead as int, start + 1));
            assert(continues_run(s, start, lead as int, start + 2));
        }
    }
}

/// What remains to be written of the compact rendering once the pieces before position
/// `i` are written.
pub open spec fn compact_rest<T: ScalarOps + DisplayText>(s: Seq<T>, i: int) -> Seq<char> {
    if i == 0 {
        compact_text(s, 0)
    } else if i < s.len() {
        ", "@ + compact_text(s, i)
    } else {
        Seq::empty()
    }
}

/// Pretty-prints a list of scalar expressions that may have runs of column indices as a
/// comma-separated list interleaved with interval expressions.
///
/// Interval expressions are used only for runs of three or more elements.
#[derive(Debug)]
pub struct CompactScalarSeq<'a, T: ScalarOps>(pub &'a [T]);

/// The end of the piece that starts at position `i`.
fn find_piece_end<T: ScalarOps>(s: &[T], i: usize) -> (end: usize)
    requires
        i < s@.len(),
    ensures
        end as int == piece_end(s@, i as int),
{
    let n = s.len();
    match s[i].match_col_ref() {
        Some(lead) => {
            if n - i > 2 && lead < usize::MAX && s[i + 1].references(lead + 1) && lead <= usize::MAX
                - 2 && s[i + 2].references(lead + 2) {
                let mut last: usize = 3;
                while i + last < n && lead <= usize::MAX - last && s[i + last].references(
                    lead + last,
                )
                    invariant
                        n == s@.len(),
                        i < n,
                        3 <= last,
                        i + last <= n,
                        run_end(s@, i as int, lead as int, last as int) == run_end(
                            s@,
                            i as int,
                            lead as int,
                            3,
                        ),
                    decreases n - i - last,
                {
                    last = last + 1;
                }
                i + last
            } else {
                i + 1
            }
        },
        None => i + 1,
    }
}

/// Appends the text of the piece from `i` to `end`.
fn write_piece<T: ScalarOps + DisplayText>(s: &[T], i: usize, end: usize, out: &mut String)
    requires
        i < end <= s@.len(),
    ensures
        final(out)@ == old(out)@ + piece_text(s@, i as int, end as int),
{
    if end > i + 1 {
        s[i].fmt_text(out);
        out.append("..=");
        s[end - 1].fmt_text(out);
        assert(out@ =~= old(out)@ + piece_text(s@, i as int, end as int));
    } else {
        s[i].fmt_text(out);
    }
}

impl<'a, T: ScalarOps + DisplayText> CompactScalarSeq<'a, T> {
    /// Appends the compact rendering of the expressions to `out`.
    pub fn fmt(&self, out: &mut String)
        ensures
            final(out)@ == old(out)@ + compact_text(self.0@, 0),
    {
        let s = self.0;
        let n = s.len();
        let mut i: usize = 0;
        while i < n
            invariant
                n == s@.len(),
                i <= n,
                out@ + compact_rest(s@, i as int) == old(out)@ + compact_text(s@, 0),
            decreases n - i,
        {
            let ghost before = out@;
            proof {
                lemma_piece_end(s@, i as int);
            }
            if i > 0 {
                out.append(", ");
            }
            let ghost mid = out@;
            let end = find_piece_end(s, i);
            write_piece(s, i, end, out);
            proof {
                let sep = if i > 0 { ", "@ } else { Seq::<char>::empty() };
                assert(mid == before + sep);
                assert(out@ == before + sep + piece_text(s@, i as int, end as int));
                assert(compact_rest(s@, i as int) =~= sep + piece_text(s@, i as int, end as int)
                    + compact_rest(s@, end as int));
            }
            i = end;
        }
        assert(compact_rest(s@, n as int) =~= Seq::<char>::empty());
    }
}

/// A map, a filter and a projection of the columns of an input: the expressions append
/// columns, the predicates filter rows, and the projection picks the output columns.
#[derive(Debug, Clone, PartialEq, Eq)]
pub struct MapFilterProject {
    pub expressions: Vec<ScalarExpr>,
    pub predicates: Vec<(usize, ScalarExpr)>,
    pub projection: Vec<usize>,
    pub input_arity: usize,
}

/// The projection keeps the input columns as they are.
pub open spec fn identity_projection(projection: Seq<usize>, input_arity: nat) -> bool {
    &&& projection.len() == input_arity
    &&& forall|i: int| 0 <= i < projection.len() ==> projection[i] == i
}

/// The operator leaves its input as it is.
pub open spec fn mfp_is_identity(m: MapFilterProject) -> bool {
    &&& m.expressions@.len() == 0
    &&& m.predicates@.len() == 0
    &&& identity_projection(m.projection@, m.input_arity as nat)
}

/// The column references that a projection renders as.
pub open spec fn column_exprs(projection: Seq<usize>) -> Seq<ScalarExpr> {
    projection.map_values(|c: usize| ScalarExpr::Column(c))
}

/// The predicates' texts, separated by ` AND `.
pub open spec fn predicates_text(preds: Seq<(usize, ScalarExpr)>) -> Seq<char>
    decreases preds.len(),
{
    if preds.len() == 0 {
        Seq::empty()
    } else if preds.len() == 1 {
        preds[0].1.text()
    } else {
        predicates_text(preds.drop_last()) + " AND "@ + preds.last().1.text()
    }
}

/// The `project` line of an operator, unless its projection is the identity.
pub open spec fn project_text(m: MapFilterProject, level: nat) -> Seq<char> {
    if !identity_projection(m.projection@, m.input_arity as nat) {
        indent_text(level) + "project=("@ + compact_text(column_exprs(m.projection@), 0) + ")\n"@
    } else {
        Seq::empty()
    }
}

/// The `filter` line of an operator, if it has predicates.
pub open spec fn filter_text(m: MapFilterProject, level: nat) -> Seq<char> {
    if m.predicates@.len() > 0 {
        indent_text(level) + "filter=("@ + predicates_text(m.predicates@) + ")\n"@
    } else {
        Seq::empty()
    }
}

/// The `map` line of an operator, if it has expressions.
pub open spec fn map_text(m: MapFilterProject, level: nat) -> Seq<char> {
    if m.expressions@.len() > 0 {
        indent_text(level) + "map=("@ + compact_text(m.expressions@, 0) + ")\n"@
    } else {
        Seq::empty()
    }
}

/// The text of an operator on a source at indentation level `level`: a `project` line
/// unless the projection is the identity, a `filter` line if there are predicates, and a
/// `map` line if there are expressions.
pub open spec fn mfp_text(m: MapFilterProject, level: nat) -> Seq<char> {
    project_text(m, level) + filter_text(m, level) + map_text(m, level)
}

/// An operator on a source has no text exactly when it leaves the source as it is.
pub proof fn lemma_mfp_text_empty_iff_identity(m: MapFilterProject, level: nat)
    ensures
        mfp_text(m, level).len() == 0 <==> mfp_is_identity(m),
{
    reveal_strlit(")\n");
    let p = project_text(m, level);
    let f = filter_text(m, level);
    let mp = map_text(m, level);
    assert(mfp_text(m, level).len() == p.len() + f.len() + mp.len());
}

fn is_identity_projection(projection: &Vec<usize>, input_arity: usize) -> (r: bool)
    ensures
        r == identity_projection(projection@, input_arity as nat),
{
    if projection.len() != input_arity {
        return false;
    }
    let mut i: usize = 0;
    while i < projection.len()
        invariant
            i <= projection@.len(),
            forall|j: int| 0 <= j < i ==> projection@[j] == j,
        decreases projection@.len() - i,
    {
        if projection[i] != i {
            return false;
        }
        i = i + 1;
    }
    true
}

impl MapFilterProject {
    /// Whether the operator leaves its input as it is.
    pub fn is_identity(&self) -> (r: bool)
        ensures
            r == mfp_is_identity(*self),
    {
        self.expressions.len() == 0 && self.predicates.len() == 0 && is_identity_projection(
            &self.projection,
            self.input_arity,
        )
    }
}

fn write_predicates(preds: &Vec<(usize, ScalarExpr)>, out: &mut String)
    ensures
        final(out)@ == old(out)@ + predicates_text(preds@),
{
    let mut i: usize = 0;
    while i < preds.len()
        invariant
            i <= preds@.len(),
            out@ == old(out)@ + predicates_text(preds@.take(i as int)),
        decreases preds@.len() - i,
    {
        let ghost before = out@;
        if i > 0 {
            out.append(" AND ");
        }
        preds[i].1.fmt_text(out);
        proof {
            let next = preds@.take(i + 1);
            assert(next.drop_last() =~= preds@.take(i as int));
            assert(out@ =~= old(out)@ + predicates_text(next));
        }
        i = i + 1;
    }
    assert(preds@.take(preds@.len() as int) =~= preds@);
}

fn columns_of(projection: &Vec<usize>) -> (r: Vec<ScalarExpr>)
    ensures
        r@ == column_exprs(projection@),
{
    let mut r: Vec<ScalarExpr> = Vec::new();
    let mut i: usize = 0;
    while i < projection.len()
        invariant
            i <= projection@.len(),
            r@ == column_exprs(projection@.take(i as int)),
        decreases projection@.len() - i,
    {
        r.push(ScalarExpr::Column(projection[i]));
        i = i + 1;
        assert(r@ =~= column_exprs(projection@.take(i as int)));
    }
    assert(projection@.take(projection@.len() as int) =~= projection@);
    r
}

fn write_project(m: &MapFilterProject, out: &mut String, indent: &Indent)
    ensures
        final(out)@ == old(out)@ + project_text(*m, indent.level as nat),
{
    if !is_identity_projection(&m.projection, m.input_arity) {
        let outputs = columns_of(&m.projection);
        indent.fmt(out);
        out.append("project=(");
        CompactScalarSeq(outputs.as_slice()).fmt(out);
        out.append(")\n");
    }
    assert(out@ =~= old(out)@ + project_text(*m, indent.level as nat));
}

fn write_filter(m: &MapFilterProject, out: &mut String, indent: &Indent)
    ensures
        final(out)@ == old(out)@ + filter_text(*m, indent.level as nat),
{
    if m.predicates.len() > 0 {
        indent.fmt(out);
        out.append("filter=(");
        write_predicates(&m.predicates, out);
        out.append(")\n");
    }
    assert(out@ =~= old(out)@ + filter_text(*m, indent.level as nat));
}

fn write_map(m: &MapFilterProject, out: &mut String, indent: &Indent)
    ensures
        final(out)@ == old(out)@ + map_text(*m, indent.level as nat),
{
    if m.expressions.len() > 0 {
        indent.fmt(out);
        out.append("map=(");
        CompactScalarSeq(m.expressions.as_slice()).fmt(out);
        out.append(")\n");
    }
    assert(out@ =~= old(out)@ + map_text(*m, indent.level as nat));
}

impl<'a> Displayable<'a, MapFilterProject> {
    /// Appends the text of the operator at indentation `indent` to `out`.
    pub fn fmt_text(&self, out: &mut String, indent: &Indent)
        ensures
            final(out)@ == old(out)@ + mfp_text(*self.0, indent.level as nat),
    {
        let mfp = self.0;
        // render `project` field iff not the identity projection
        write_project(mfp, out, indent);
        // render `filter` field iff predicates are present
        write_filter(mfp, out, indent);
        // render `map` field iff scalars are present
        write_map(mfp, out, indent);
        assert(out@ =~= old(out)@ + mfp_text(*self.0, indent.level as nat));
    }
}

/// The rendering state that the layout of a plan reads: its indentation.
#[derive(Debug)]
pub struct PlanRenderingContext {
    pub indent: Indent,
}

impl PlanRenderingContext {
    /// A context that renders at `indent`.
    pub fn new(indent: Indent) -> (r: PlanRenderingContext)
        ensures
            r.indent == indent,
    {
        PlanRenderingContext { indent }
    }
}

impl AsMut<Indent> for PlanRenderingContext {
    fn as_mut(&mut self) -> (r: &mut Indent)
        ensures
            *r == old(self).indent,
            final(self).indent == *final(r),
    {
        &mut self.indent
    }
}

/// The list of used indexes after a blank line, where there are any.
pub open spec fn used_indexes_text(used_indexes: Seq<Line>) -> Seq<char> {
    if used_indexes.len() > 0 {
        "\n"@ + block_text(used_indexes, 0)
    } else {
        Seq::empty()
    }
}

/// The explanation of a single plan: the rendered plan, the finishing that applies to its
/// result if there is one, and the indexes that it uses.
#[derive(Debug)]
pub struct ExplainSinglePlan {
    pub finishing: Option<Vec<Line>>,
    pub plan: Vec<Line>,
    pub used_indexes: Vec<Line>,
}

/// The text of a single plan: the finishing, with the plan one level deeper, or else the
/// plan alone; then the used indexes.
pub open spec fn single_plan_text(e: ExplainSinglePlan) -> Seq<char> {
    let body = match e.finishing {
        Some(f) => block_text(f@, 0) + block_text(e.plan@, 1),
        None => block_text(e.plan@, 0),
    };
    body + used_indexes_text(e.used_indexes@)
}

fn write_used_indexes(used_indexes: &Vec<Line>, indent: &Indent, out: &mut String)
    requires
        indent.level == 0,
    ensures
        final(out)@ == old(out)@ + used_indexes_text(used_indexes@),
{
    if used_indexes.len() > 0 {
        out.append("\n");
        write_block(out, used_indexes, indent);
    }
    assert(out@ =~= old(out)@ + used_indexes_text(used_indexes@));
}

impl ExplainSinglePlan {
    /// Appends the text of the explanation to `out`.
    pub fn fmt_text(&self, out: &mut String)
        ensures
            final(out)@ == old(out)@ + single_plan_text(*self),
    {
        let ctx = PlanRenderingContext::new(Indent::default());
        match &self.finishing {
            Some(finishing) => {
                write_block(out, finishing, &ctx.indent);
                let inner = ctx.indent.deeper();
                write_block(out, &self.plan, &inner);
            },
            None => {
                write_block(out, &self.plan, &ctx.indent);
            },
        }
        write_used_indexes(&self.used_indexes, &ctx.indent, out);
        assert(out@ =~= old(out)@ + single_plan_text(*self));
    }
}

/// The explanation of a dataflow: its plans in topological order, each with its name, the
/// operators on its sources, the finishing that applies to the result of the first plan if
/// there is one, and the indexes that it uses.
#[derive(Debug)]
pub struct ExplainMultiPlan {
    pub finishing: Option<Vec<Line>>,
    pub sources: Vec<(String, MapFilterProject)>,
    pub plans: Vec<(String, Vec<Line>)>,
    pub used_indexes: Vec<Line>,
}

/// The text of one named plan: `name:`, then the plan one level deeper; the first plan has
/// the finishing one level deeper and the plan two levels deeper.
pub open spec fn plan_entry_text(entry: (String, Vec<Line>), finishing: Option<Vec<Line>>, first: bool) -> Seq<char> {
    entry.0@ + ":\n"@ + match finishing {
        Some(f) => if first {
            block_text(f@, 1) + block_text(entry.1@, 2)
        } else {
            block_text(entry.1@, 1)
        },
        None => block_text(entry.1@, 1),
    }
}

/// The text of the first `k` named plans.
pub open spec fn plans_text(plans: Seq<(String, Vec<Line>)>, finishing: Option<Vec<Line>>, k: nat) -> Seq<char>
    decreases k,
{
    if k == 0 {
        Seq::empty()
    } else {
        plans_text(plans, finishing, (k - 1) as nat) + plan_entry_text(plans[k - 1], finishing, k == 1)
    }
}

/// The text of the operator on a named source: `Source name` and the operator one level
/// deeper, or nothing where the operator leaves the source as it is.
pub open spec fn source_entry_text(source: (String, MapFilterProject)) -> Seq<char> {
    if mfp_is_identity(source.1) {
        Seq::empty()
    } else {
        "Source "@ + source.0@ + "\n"@ + mfp_text(source.1, 1)
    }
}

/// The text of the operators on the first `k` sources.
pub open spec fn sources_text(sources: Seq<(String, MapFilterProject)>, k: nat) -> Seq<char>
    decreases k,
{
    if k == 0 {
        Seq::empty()
    } else {
        sources_text(sources, (k - 1) as nat) + source_entry_text(sources[k - 1])
    }
}

/// Some source has an operator that changes it.
pub open spec fn some_source_shown(sources: Seq<(String, MapFilterProject)>) -> bool {
    exists|i: int| 0 <= i < sources.len() && !mfp_is_identity(#[trigger] sources[i].1)
}

/// The text of a dataflow: the named plans; then, after a blank line, the operators on the
/// sources where some source has one that changes it; then the used indexes.
pub open spec fn multi_plan_text(e: ExplainMultiPlan) -> Seq<char> {
    let sources = if some_source_shown(e.sources@) {
        "\n"@ + sources_text(e.sources@, e.sources@.len())
    } else {
        Seq::empty()
    };
    plans_text(e.plans@, e.finishing, e.plans@.len()) + sources + used_indexes_text(e.used_indexes@)
}

fn write_plans(plans: &Vec<(String, Vec<Line>)>, finishing: &Option<Vec<Line>>, out: &mut String)
    ensures
        final(out)@ == old(out)@ + plans_text(plans@, *finishing, plans@.len()),
{
    let ctx = Indent::default();
    let mut no: usize = 0;
    while no < plans.len()
        invariant
            ctx.level == 0,
            no <= plans@.len(),
            out@ == old(out)@ + plans_text(plans@, *finishing, no as nat),
        decreases plans@.len() - no,
    {
        let ghost before = out@;
        let (id, plan) = &plans[no];
        let pctx = PlanRenderingContext::new(ctx);
        pctx.indent.fmt(out);
        out.append(id.as_str());
        out.append(":\n");
        let inner = pctx.indent.deeper();
        match finishing {
            Some(f) => {
                if no == 0 {
                    // a finishing always applies to the first rendered plan
                    write_block(out, f, &inner);
                    let innermost = inner.deeper();
                    write_block(out, plan, &innermost);
                } else {
                    write_block(out, plan, &inner);
                }
            },
            None => {
                write_block(out, plan, &inner);
            },
        }
        proof {
            assert(indent_text(0) =~= Seq::<char>::empty());
            assert(out@ =~= before + plan_entry_text(plans@[no as int], *finishing, no == 0));
        }
        no = no + 1;
    }
}

fn has_shown_source(sources: &Vec<(String, MapFilterProject)>) -> (r: bool)
    ensures
        r == some_source_shown(sources@),
{
    let mut i: usize = 0;
    while i < sources.len()
        invariant
            i <= sources@.len(),
            forall|j: int| 0 <= j < i ==> mfp_is_identity(#[trigger] sources@[j].1),
        decreases sources@.len() - i,
    {
        if !sources[i].1.is_identity() {
            return true;
        }
        i = i + 1;
    }
    false
}

fn write_sources(sources: &Vec<(String, MapFilterProject)>, out: &mut String)
    ensures
        final(out)@ == old(out)@ + sources_text(sources@, sources@.len()),
{
    let ctx = Indent::default();
    let mut i: usize = 0;
    while i < sources.len()
        invariant
            ctx.level == 0,
            i <= sources@.len(),
            out@ == old(out)@ + sources_text(sources@, i as nat),
        decreases sources@.len() - i,
    {
        let ghost before = out@;
        let (id, op) = &sources[i];
        if !op.is_identity() {
            ctx.fmt(out);
            out.append("Source ");
            out.append(id.as_str());
            out.append("\n");
            let inner = ctx.deeper();
            Displayable(op).fmt_text(out, &inner);
        }
        proof {
            assert(indent_text(0) =~= Seq::<char>::empty());
            assert(out@ =~= before + source_entry_text(sources@[i as int]));
        }
        i = i + 1;
    }
}

impl ExplainMultiPlan {
    /// Appends the text of the explanation to `out`.
    pub fn fmt_text(&self, out: &mut String)
        ensures
            final(out)@ == old(out)@ + multi_plan_text(*self),
    {
        // render plans
        write_plans(&self.plans, &self.finishing, out);
        if has_shown_source(&self.sources) {
            // render one blank line between the plans and sources
            out.append("\n");
            // render sources
            write_sources(&self.sources, out);
        }
        let ctx = Indent::default();
        write_used_indexes(&self.used_indexes, &ctx, out);
        assert(out@ =~= old(out)@ + multi_plan_text(*self));
    }
}

/// The filter text of no predicates is empty, and that of one predicate is its text.
pub proof fn lemma_predicates_text_small(p: (usize, ScalarExpr))
    ensures
        predicates_text(Seq::<(usize, ScalarExpr)>::empty()) == Seq::<char>::empty(),
        predicates_text(seq![p]) == p.1.text(),
{
}

/// The filter text of two non-empty lists of predicates, one after the other, is the text
/// of the first, ` AND `, and the text of the second: every predicate appears, in order,
/// with ` AND ` between each adjacent pair.
pub proof fn lemma_predicates_text_concat(a: Seq<(usize, ScalarExpr)>, b: Seq<(usize, ScalarExpr)>)
    requires
        a.len() > 0,
        b.len() > 0,
    ensures
        predicates_text(a + b) == predicates_text(a) + " AND "@ + predicates_text(b),
    decreases b.len(),
{
    let ab = a + b;
    if b.len() == 1 {
        assert(ab.drop_last() =~= a);
        assert(ab.last() == b[0]);
        assert(b =~= seq![b[0]]);
    } else {
        lemma_predicates_text_concat(a, b.drop_last());
        assert(ab.drop_last() =~= a + b.drop_last());
        assert(ab.last() == b.last());
        assert(predicates_text(ab) =~= predicates_text(a) + " AND "@ + predicates_text(b));
    }
}

/// An operator leaves its source as it is exactly when it has no expressions and no
/// predicates and its projection is `0, 1, ..., input_arity - 1`.
pub proof fn lemma_mfp_is_identity_exactly(m: MapFilterProject)
    ensures
        mfp_is_identity(m) <==> (m.expressions@.len() == 0 && m.predicates@.len() == 0
            && m.projection@ == Seq::new(m.input_arity as nat, |i: int| i as usize)),
{
    let id = Seq::new(m.input_arity as nat, |i: int| i as usize);
    if m.projection@ == id {
        assert forall|i: int| 0 <= i < m.projection@.len() implies m.projection@[i] == i by {
            assert(id[i] == i as usize);
        }
    }
    if identity_projection(m.projection@, m.input_arity as nat) {
        assert(m.projection@ =~= id);
    }
}

/// Two single plans that differ only in their used indexes: the text with used indexes
/// is the text without them, then, where there are any, a blank line and the used-index
/// block at level 0, whether or not there is a finishing.
pub proof fn lemma_single_plan_used_indexes(e: ExplainSinglePlan, bare: ExplainSinglePlan)
    requires
        bare.finishing == e.finishing,
        bare.plan@ == e.plan@,
        bare.used_indexes@.len() == 0,
    ensures
        single_plan_text(e) == single_plan_text(bare) + if e.used_indexes@.len() > 0 {
            "\n"@ + block_text(e.used_indexes@, 0)
        } else {
            Seq::<char>::empty()
        },
{
    assert(single_plan_text(e) =~= single_plan_text(bare) + if e.used_indexes@.len() > 0 {
        "\n"@ + block_text(e.used_indexes@, 0)
    } else {
        Seq::<char>::empty()
    });
}

/// Two dataflows that differ only in their used indexes: the text with used indexes is the
/// text without them, then, where there are any, a blank line and the used-index block at
/// level 0, whether or not some source is shown.
pub proof fn lemma_multi_plan_used_indexes(e: ExplainMultiPlan, bare: ExplainMultiPlan)
    requires
        bare.finishing == e.finishing,
        bare.plans@ == e.plans@,
        bare.sources@ == e.sources@,
        bare.used_indexes@.len() == 0,
    ensures
        multi_plan_text(e) == multi_plan_text(bare) + if e.used_indexes@.len() > 0 {
            "\n"@ + block_text(e.used_indexes@, 0)
        } else {
            Seq::<char>::empty()
        },
{
    assert(multi_plan_text(e) =~= multi_plan_text(bare) + if e.used_indexes@.len() > 0 {
        "\n"@ + block_text(e.used_indexes@, 0)
    } else {
        Seq::<char>::empty()
    });
}

/// The text of the first `k` sources depends on those sources only.
pub proof fn lemma_sources_text_prefix(
    s: Seq<(String, MapFilterProject)>,
    t: Seq<(String, MapFilterProject)>,
    k: nat,
)
    requires
        k <= s.len(),
        k <= t.len(),
        forall|i: int| 0 <= i < k ==> s[i] == t[i],
    ensures
        sources_text(s, k) == sources_text(t, k),
    decreases k,
{
    if k > 0 {
        lemma_sources_text_prefix(s, t, (k - 1) as nat);
    }
}

/// The sources section of two lists of sources, one after the other, is that of the first
/// followed by that of the second.
pub proof fn lemma_sources_text_concat(
    a: Seq<(String, MapFilterProject)>,
    b: Seq<(String, MapFilterProject)>,
    k: nat,
)
    requires
        k <= b.len(),
    ensures
        sources_text(a + b, a.len() + k) == sources_text(a, a.len()) + sources_text(b, k),
    decreases k,
{
    let ab = a + b;
    if k == 0 {
        lemma_sources_text_prefix(ab, a, a.len());
        assert(sources_text(b, 0) =~= Seq::<char>::empty());
        assert(sources_text(ab, a.len()) + Seq::<char>::empty() =~= sources_text(ab, a.len()));
    } else {
        lemma_sources_text_concat(a, b, (k - 1) as nat);
        assert(ab[a.len() + k - 1] == b[k - 1]);
        assert(sources_text(ab, a.len() + k) =~= sources_text(a, a.len()) + sources_text(b, k));
    }
}

/// The sources section of one source is its entry: nothing where its operator is the
/// identity, and otherwise `Source `, its name, a line break and the operator one level
/// deeper.
pub proof fn lemma_sources_text_single(src: (String, MapFilterProject))
    ensures
        sources_text(seq![src], 1) == if mfp_is_identity(src.1) {
            Seq::<char>::empty()
        } else {
            "Source "@ + src.0@ + "\n"@ + mfp_text(src.1, 1)
        },
{
    assert(sources_text(seq![src], 0) =~= Seq::<char>::empty());
    assert(sources_text(seq![src], 1) =~= if mfp_is_identity(src.1) {
        Seq::<char>::empty()
    } else {
        "Source "@ + src.0@ + "\n"@ + mfp_text(src.1, 1)
    });
}

/// The name of every source whose operator is not the identity occurs in the sources
/// section, right after `Source `.
pub proof fn lemma_sources_text_names(s: Seq<(String, MapFilterProject)>, i: int)
    requires
        0 <= i < s.len(),
        !mfp_is_identity(s[i].1),
    ensures
        exists|k: int|
            0 <= k && k + 7 + s[i].0@.len() <= sources_text(s, s.len()).len() && #[trigger] sources_text(
                s,
                s.len(),
            ).subrange(k, k + 7) == "Source "@ && sources_text(s, s.len()).subrange(
                k + 7,
                k + 7 + s[i].0@.len(),
            ) == s[i].0@,
{
    reveal_strlit("Source ");
    let a = s.take(i);
    let b = s.skip(i);
    assert(a + b =~= s);
    lemma_sources_text_concat(a, b, b.len());
    let c = seq![s[i]];
    let d = s.skip(i + 1);
    assert(c + d =~= b);
    lemma_sources_text_concat(c, d, d.len());
    lemma_sources_text_single(s[i]);
    let pre = sources_text(a, a.len());
    let name = s[i].0@;
    let entry = "Source "@ + name + "\n"@ + mfp_text(s[i].1, 1);
    let whole = sources_text(s, s.len());
    assert(whole =~= pre + (entry + sources_text(d, d.len())));
    let k = pre.len() as int;
    assert(whole.subrange(k, k + 7) =~= "Source "@);
    assert(whole.subrange(k + 7, k + 7 + name.len()) =~= name);
}

/// The text of the first `k` named plans depends on those plans only.
pub proof fn lemma_plans_text_prefix(
    s: Seq<(String, Vec<Line>)>,
    t: Seq<(String, Vec<Line>)>,
    finishing: Option<Vec<Line>>,
    k: nat,
)
    requires
        k <= s.len(),
        k <= t.len(),
        forall|i: int| 0 <= i < k ==> s[i] == t[i],
    ensures
        plans_text(s, finishing, k) == plans_text(t, finishing, k),
    decreases k,
{
    if k > 0 {
        lemma_plans_text_prefix(s, t, finishing, (k - 1) as nat);
    }
}

/// Without a finishing, the text of two lists of named plans, one after the other, is the
/// text of the first followed by that of the second.
pub proof fn lemma_plans_text_concat(
    a: Seq<(String, Vec<Line>)>,
    b: Seq<(String, Vec<Line>)>,
    k: nat,
)
    requires
        k <= b.len(),
    ensures
        plans_text(a + b, None, a.len() + k) == plans_text(a, None, a.len()) + plans_text(b, None, k),
    decreases k,
{
    let ab = a + b;
    if k == 0 {
        lemma_plans_text_prefix(ab, a, None, a.len());
        assert(plans_text(ab, None, a.len()) + plans_text(b, None, 0) =~= plans_text(ab, None, a.len()));
    } else {
        lemma_plans_text_concat(a, b, (k - 1) as nat);
        assert(ab[a.len() + k - 1] == b[k - 1]);
        assert(plans_text(ab, None, a.len() + k) =~= plans_text(a, None, a.len()) + plans_text(b, None, k));
    }
}

/// Without a finishing, a named plan renders as its name, `:`, a line break and the plan
/// one level deeper.
pub proof fn lemma_plans_text_single(entry: (String, Vec<Line>))
    ensures
        plans_text(seq![entry], None, 1) == entry.0@ + ":\n"@ + block_text(entry.1@, 1),
{
    assert(seq![entry][0] == entry);
    assert(plans_text(seq![entry], None, 0) =~= Seq::<char>::empty());
    assert(plans_text(seq![entry], None, 1) =~= entry.0@ + ":\n"@ + block_text(entry.1@, 1));
}

/// A finishing goes under the first plan only: the first plan renders as its name, `:`, a
/// line break, the finishing one level deeper and the plan two levels deeper, and the other
/// plans render as they do without a finishing.
pub proof fn lemma_plans_text_finishing(s: Seq<(String, Vec<Line>)>, f: Vec<Line>, k: nat)
    requires
        1 <= k <= s.len(),
    ensures
        plans_text(s, Some(f), k) == s[0].0@ + ":\n"@ + block_text(f@, 1) + block_text(s[0].1@, 2)
            + plans_text(s.skip(1), None, (k - 1) as nat),
    decreases k,
{
    let head = s[0].0@ + ":\n"@ + block_text(f@, 1) + block_text(s[0].1@, 2);
    if k == 1 {
        assert(plans_text(s, Some(f), 0) =~= Seq::<char>::empty());
        assert(plans_text(s, Some(f), 1) =~= head + plans_text(s.skip(1), None, 0));
    } else {
        lemma_plans_text_finishing(s, f, (k - 1) as nat);
        assert(s.skip(1)[k - 2] == s[k - 1]);
        assert(plans_text(s, Some(f), k) =~= head + plans_text(s.skip(1), None, (k - 1) as nat));
    }
}

/// A block of two lists of lines, one after the other, is the block of the first followed
/// by that of the second.
pub proof fn lemma_block_text_concat(a: Seq<Line>, b: Seq<Line>, level: nat)
    ensures
        block_text(a + b, level) == block_text(a, level) + block_text(b, level),
    decreases b.len(),
{
    if b.len() == 0 {
        assert(a + b =~= a);
        assert(block_text(a, level) + block_text(b, level) =~= block_text(a, level));
    } else {
        lemma_block_text_concat(a, b.drop_last(), level);
        assert((a + b).drop_last() =~= a + b.drop_last());
        assert(block_text(a + b, level) =~= block_text(a, level) + block_text(b, level));
    }
}

/// A block of one line at level `level` is `level` plus the line's depth levels of
/// indentation, the line's text and a line break.
pub proof fn lemma_block_text_single(line: Line, level: nat)
    ensures
        block_text(seq![line], level) == indent_text(level + line.depth as nat) + line.text@ + seq!['\n'],
        indent_text(level + line.depth as nat) == Seq::new(2 * (level + line.depth as nat), |i: int| ' '),
{
    assert(seq![line].drop_last() =~= Seq::<Line>::empty());
    assert(seq![line].last() == line);
    assert(block_text(Seq::<Line>::empty(), level) =~= Seq::<char>::empty());
    assert(indent_text(level) + indent_text(line.depth as nat) =~= indent_text(level + line.depth as nat));
    assert(block_text(seq![line], level) =~= indent_text(level + line.depth as nat) + line.text@ + seq!['\n']);
}

proof fn lemma_run_end_shift<T: ScalarOps>(a: Seq<T>, b: Seq<T>, j: int, lead: int, k: int)
    requires
        0 <= j,
        0 <= k,
        j + k <= b.len(),
    ensures
        run_end(a + b, a.len() + j, lead, k) == a.len() + run_end(b, j, lead, k),
    decreases b.len() - (j + k),
{
    let ab = a + b;
    if j + k < b.len() {
        assert(ab[a.len() + j + k] == b[j + k]);
        lemma_run_end_shift(a, b, j, lead, k + 1);
    }
}

proof fn lemma_compact_shift<T: ScalarOps + DisplayText>(a: Seq<T>, b: Seq<T>, j: int)
    requires
        0 <= j <= b.len(),
    ensures
        compact_text(a + b, a.len() + j) == compact_text(b, j),
    decreases b.len() - j,
{
    let ab = a + b;
    if j < b.len() {
        let i = a.len() + j;
        assert(ab[i] == b[j]);
        if j + 1 < b.len() {
            assert(ab[i + 1] == b[j + 1]);
        }
        if j + 2 < b.len() {
            assert(ab[i + 2] == b[j + 2]);
        }
        if let Some(lead) = b[j].column_ref() {
            if refs_at(b, j + 1, lead + 1) && refs_at(b, j + 2, lead + 2) {
                lemma_run_end_shift(a, b, j, lead as int, 3);
            }
        }
        assert(piece_end(ab, i) == a.len() + piece_end(b, j));
        lemma_piece_end(b, j);
        let e = piece_end(b, j);
        assert(ab[a.len() + e - 1] == b[e - 1]);
        lemma_compact_shift(a, b, e);
    }
}

proof fn lemma_run_end_prefix<T: ScalarOps>(a: Seq<T>, b: Seq<T>, i: int, lead: int, k: int)
    requires
        0 <= i,
        0 <= k,
        i + k <= a.len(),
        b.len() > 0,
        forall|c: usize| !b[0].refers_to(c),
    ensures
        run_end(a + b, i, lead, k) == run_end(a, i, lead, k),
    decreases a.len() - (i + k),
{
    let ab = a + b;
    if i + k < a.len() {
        assert(ab[i + k] == a[i + k]);
        lemma_run_end_prefix(a, b, i, lead, k + 1);
    } else {
        assert(ab[a.len() as int] == b[0]);
    }
}

proof fn lemma_compact_prefix<T: ScalarOps + DisplayText>(a: Seq<T>, b: Seq<T>, i: int)
    requires
        0 <= i < a.len(),
        b.len() > 0,
        forall|c: usize| !b[0].refers_to(c),
    ensures
        compact_text(a + b, i) == compact_text(a, i) + ", "@ + compact_text(b, 0),
    decreases a.len() - i,
{
    let ab = a + b;
    assert(ab[i] == a[i]);
    assert(ab[a.len() as int] == b[0]);
    if i + 1 < a.len() {
        assert(ab[i + 1] == a[i + 1]);
    }
    if i + 2 < a.len() {
        assert(ab[i + 2] == a[i + 2]);
    }
    if let Some(lead) = a[i].column_ref() {
        if refs_at(a, i + 1, lead + 1) && refs_at(a, i + 2, lead + 2) {
            lemma_run_end_prefix(a, b, i, lead as int, 3);
        }
    }
    assert(piece_end(ab, i) == piece_end(a, i));
    lemma_piece_end(a, i);
    let e = piece_end(a, i);
    assert(ab[e - 1] == a[e - 1]);
    assert(piece_text(ab, i, e) == piece_text(a, i, e));
    if e < a.len() {
        lemma_compact_prefix(a, b, e);
        assert(compact_text(ab, i) =~= compact_text(a, i) + ", "@ + compact_text(b, 0));
    } else {
        lemma_compact_shift(a, b, 0);
        assert(compact_text(ab, i) =~= compact_text(a, i) + ", "@ + compact_text(b, 0));
    }
}

/// Two non-empty lists of expressions, one after the other, where the first expression of
/// the second list references no column: the compact rendering is that of the first list,
/// `, `, and that of the second.
pub proof fn lemma_compact_text_concat<T: ScalarOps + DisplayText>(a: Seq<T>, b: Seq<T>)
    requires
        a.len() > 0,
        b.len() > 0,
        forall|c: usize| !b[0].refers_to(c),
    ensures
        compact_text(a + b, 0) == compact_text(a, 0) + ", "@ + compact_text(b, 0),
{
    lemma_compact_prefix(a, b, 0);
}

/// No expressions render as nothing, and one expression renders as its text.
pub proof fn lemma_compact_text_small<T: ScalarOps + DisplayText>(x: T)
    ensures
        compact_text(Seq::<T>::empty(), 0) == Seq::<char>::empty(),
        compact_text(seq![x], 0) == x.text(),
{
    let s = seq![x];
    lemma_piece_end(s, 0);
    assert(compact_text(s, 0) =~= x.text());
}

/// Two expressions render as their texts separated by `, `, even where they reference
/// consecutive columns: intervals need three or more.
pub proof fn lemma_compact_text_pair<T: ScalarOps + DisplayText>(x: T, y: T)
    ensures
        compact_text(seq![x, y], 0) == x.text() + ", "@ + y.text(),
{
    let s = seq![x, y];
    lemma_piece_end(s, 0);
    assert(piece_end(s, 0) == 1);
    lemma_piece_end(s, 1);
    assert(compact_text(s, 1) =~= y.text());
    assert(compact_text(s, 0) =~= x.text() + ", "@ + y.text());
}

/// A list of three or more expressions that reference consecutive columns, starting with
/// a reference to column `c`, renders as the text of the first, `..=`, and the text of the
/// last.
pub proof fn lemma_compact_text_run<T: ScalarOps + DisplayText>(s: Seq<T>, c: usize)
    requires
        s.len() >= 3,
        s[0].column_ref() == Some(c),
        c + s.len() - 1 <= usize::MAX,
        forall|j: int| 0 < j < s.len() ==> #[trigger] s[j].refers_to((c + j) as usize),
    ensures
        compact_text(s, 0) == s[0].text() + "..="@ + s[s.len() - 1].text(),
{
    assert(refs_at(s, 1, c + 1));
    assert(refs_at(s, 2, c + 2));
    assert forall|k: int| 3 <= k <= s.len() implies run_end(s, 0, c as int, k) == s.len() by {
        lemma_run_end_to_end(s, c, k);
    }
    assert(piece_end(s, 0) == s.len());
    assert(compact_text(s, 0) =~= s[0].text() + "..="@ + s[s.len() - 1].text());
}

proof fn lemma_run_end_to_end<T: ScalarOps>(s: Seq<T>, c: usize, k: int)
    requires
        3 <= k <= s.len(),
        c + s.len() - 1 <= usize::MAX,
        forall|j: int| 0 < j < s.len() ==> #[trigger] s[j].refers_to((c + j) as usize),
    ensures
        run_end(s, 0, c as int, k) == s.len(),
    decreases s.len() - k,
{
    if k < s.len() {
        assert(s[k].refers_to((c + k) as usize));
        assert(refs_at(s, k, c + k));
        lemma_run_end_to_end(s, c, k + 1);
    }
}

/// The projection `0, 1, ..., arity - 1`.
pub open spec fn identity_columns(arity: usize) -> Seq<usize> {
    Seq::new(arity as nat, |i: int| i as usize)
}

proof fn lemma_identity_projection_columns(projection: Seq<usize>, arity: usize)
    ensures
        identity_projection(projection, arity as nat) <==> projection == identity_columns(arity),
{
    let id = identity_columns(arity);
    if projection == id {
        assert forall|i: int| 0 <= i < projection.len() implies projection[i] == i by {
            assert(id[i] == i as usize);
        }
    }
    if identity_projection(projection, arity as nat) {
        assert(projection =~= id);
    }
}

/// The text of an operator is the `project` line of its projection, the `filter` line of
/// its predicates and the `map` line of its expressions, each as an operator with only
/// that field renders it: a projection renders as `project=(` and its compacted columns
/// unless it is `0, 1, ..., input_arity - 1`; predicates, where there are any, as
/// `filter=(` and their text; expressions, where there are any, as `map=(` and their
/// compacted text; each line at the operator's indentation and closed by `)` and a line
/// break.
pub proof fn lemma_mfp_text_fields(
    m: MapFilterProject,
    project: MapFilterProject,
    filter: MapFilterProject,
    map: MapFilterProject,
    level: nat,
)
    requires
        project.projection@ == m.projection@,
        project.input_arity == m.input_arity,
        project.predicates@.len() == 0,
        project.expressions@.len() == 0,
        filter.predicates@ == m.predicates@,
        filter.expressions@.len() == 0,
        filter.projection@ == identity_columns(filter.input_arity),
        map.expressions@ == m.expressions@,
        map.predicates@.len() == 0,
        map.projection@ == identity_columns(map.input_arity),
    ensures
        mfp_text(m, level) == mfp_text(project, level) + mfp_text(filter, level) + mfp_text(map, level),
        mfp_text(project, level) == if m.projection@ == identity_columns(m.input_arity) {
            Seq::<char>::empty()
        } else {
            indent_text(level) + "project=("@ + compact_text(column_exprs(m.projection@), 0) + ")\n"@
        },
        mfp_text(filter, level) == if m.predicates@.len() == 0 {
            Seq::<char>::empty()
        } else {
            indent_text(level) + "filter=("@ + predicates_text(m.predicates@) + ")\n"@
        },
        mfp_text(map, level) == if m.expressions@.len() == 0 {
            Seq::<char>::empty()
        } else {
            indent_text(level) + "map=("@ + compact_text(m.expressions@, 0) + ")\n"@
        },
{
    lemma_identity_projection_columns(m.projection@, m.input_arity);
    lemma_identity_projection_columns(filter.projection@, filter.input_arity);
    lemma_identity_projection_columns(map.projection@, map.input_arity);
    assert(mfp_text(project, level) =~= project_text(m, level));
    assert(mfp_text(filter, level) =~= filter_text(m, level));
    assert(mfp_text(map, level) =~= map_text(m, level));
}

/// The sources section of the first `k` sources has text exactly when one of them has an
/// operator that is not the identity.
pub proof fn lemma_sources_text_nonempty(s: Seq<(String, MapFilterProject)>, k: nat)
    requires
        k <= s.len(),
    ensures
        sources_text(s, k).len() > 0 <==> exists|i: int| 0 <= i < k && !mfp_is_identity(#[trigger] s[i].1),
    decreases k,
{
    reveal_strlit("Source ");
    if k > 0 {
        lemma_sources_text_nonempty(s, (k - 1) as nat);
        if exists|i: int| 0 <= i < k && !mfp_is_identity(#[trigger] s[i].1) {
            let i = choose|i: int| 0 <= i < k && !mfp_is_identity(#[trigger] s[i].1);
            if i == k - 1 {
                assert(source_entry_text(s[k - 1]).len() > 0);
            }
        }
    }
}

/// The blank line and the sources section follow the plans exactly when some source has an
/// operator that is not the identity, and they hold the section of all the sources.
pub proof fn lemma_multi_plan_sources(e: ExplainMultiPlan)
    ensures
        multi_plan_text(e) == plans_text(e.plans@, e.finishing, e.plans@.len()) + (if sources_text(
            e.sources@,
            e.sources@.len(),
        ).len() > 0 {
            "\n"@ + sources_text(e.sources@, e.sources@.len())
        } else {
            Seq::<char>::empty()
        }) + used_indexes_text(e.used_indexes@),
{
    lemma_sources_text_nonempty(e.sources@, e.sources@.len());
}

} // verus!
