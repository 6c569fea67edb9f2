use vstd::prelude::*;

use crate::math::{
    all_below, children_below, entity_dep, table_wf, EntityKind, Expr, ExprKind, RuleKind,
};
use crate::number::ProcNum;
use crate::math::{distinct, rule_refs_below, Adjusted, Figure, Intermediate, Rule};
use crate::program::{
    instrs_view, instructions_below, targets_below, AdjustableTemplate, Cursor, EvaluateProgram,
    FigureProgram, InstrView, Instruction, Loc, Op, Program, ValueType,
};

verus! {

/// The tables a lowering reads: expressions, entities and the constant pool.
pub struct Tables {
    pub vars: Seq<Expr>,
    pub ents: Seq<EntityKind>,
    pub consts: Seq<ProcNum>,
}

impl Tables {
    /// The expressions form a DAG, each constant has a slot in the pool, and the pool starts
    /// with one placeholder per entity.
    pub open spec fn wf(self) -> bool {
        &&& table_wf(self.vars, self.ents)
        &&& self.ents.len() <= self.consts.len()
        &&& forall|v: int|
            #![trigger self.vars[v]]
            0 <= v < self.vars.len() ==> match self.vars[v].kind {
                ExprKind::Const { value } => const_slot(self.consts, self.ents.len() as int, value)
                    < self.consts.len(),
                _ => true,
            }
    }
}

/// The working state of a lowering. A cache entry of `usize::MAX` means "not compiled yet".
pub struct CompileState {
    pub cursor: usize,
    pub rule_cursor: usize,
    pub alt_mode: bool,
    pub instructions: Seq<InstrView>,
    pub variables: Seq<usize>,
    pub entities: Seq<usize>,
    pub biases: Seq<usize>,
}

/// The first slot at or after `from` whose constant has the value of `value`.
pub open spec fn const_slot(consts: Seq<ProcNum>, from: int, value: ProcNum) -> int
    decreases consts.len() - from,
{
    if from >= consts.len() {
        consts.len() as int
    } else if consts[from].same_value(value) {
        from
    } else {
        const_slot(consts, from + 1, value)
    }
}

/// Takes a slot from the main cursor.
pub open spec fn next_slot(st: CompileState) -> (CompileState, usize) {
    (CompileState { cursor: (st.cursor + 1) as usize, ..st }, st.cursor)
}

/// Takes the slot of a rule's quality: from the rule block, or from the main cursor inside an
/// alternative.
pub open spec fn next_rule_slot(st: CompileState) -> (CompileState, usize) {
    if st.alt_mode {
        next_slot(st)
    } else {
        (CompileState { rule_cursor: (st.rule_cursor + 1) as usize, ..st }, st.rule_cursor)
    }
}

/// Appends one instruction.
pub open spec fn emit(st: CompileState, op: Op, params: Seq<usize>, target: usize) -> CompileState {
    CompileState {
        instructions: st.instructions.push(InstrView { op, params, target }),
        ..st
    }
}

pub open spec fn set_var(st: CompileState, v: int, loc: usize) -> CompileState {
    CompileState { variables: st.variables.update(v, loc), ..st }
}

pub open spec fn set_ent(st: CompileState, e: int, loc: usize) -> CompileState {
    CompileState { entities: st.entities.update(e, loc), ..st }
}

/// The exponent that turns a product of divisors into a divisor.
pub open spec fn minus_one() -> ProcNum {
    ProcNum { numer: -1i64, denom: 1u64 }
}

/// Lowers expression `v`, or returns its slot if it has been lowered already.
pub open spec fn compile_var(t: Tables, st: CompileState, v: int) -> (CompileState, usize)
    decreases v, 3int, 0int,
    when t.wf() && 0 <= v < t.vars.len()
{
    if st.variables[v] != usize::MAX {
        (st, st.variables[v])
    } else {
        compile_kind(t, st, v)
    }
}

/// Lowers the operands `items[..n]` of expression `v`, left to right.
pub open spec fn compile_list(t: Tables, st: CompileState, items: Seq<usize>, v: int, n: int) -> (
    CompileState,
    Seq<usize>,
)
    decreases v, 1int, n,
    when t.wf() && 0 <= v < t.vars.len() && all_below(items, v) && 0 <= n <= items.len()
{
    if n == 0 {
        (st, Seq::empty())
    } else {
        let (s1, locs) = compile_list(t, st, items, v, n - 1);
        let (s2, loc) = compile_var(t, s1, items[n - 1] as int);
        (s2, locs.push(loc))
    }
}

/// One instruction for `v`: its slot is taken first, then its operands are lowered.
pub open spec fn instr(t: Tables, st: CompileState, v: int, op: Op, ops: Seq<usize>) -> (
    CompileState,
    usize,
)
    decreases v, 1int, ops.len() + 1,
    when t.wf() && 0 <= v < t.vars.len() && all_below(ops, v)
{
    let (s1, target) = next_slot(st);
    let (s2, params) = compile_list(t, set_var(s1, v, target), ops, v, ops.len() as int);
    (emit(s2, op, params, target), target)
}

/// The slot of `v` is the slot of `child`.
pub open spec fn alias(t: Tables, st: CompileState, v: int, child: int) -> (CompileState, usize)
    decreases v, 1int, 0int,
    when t.wf() && 0 <= child < v < t.vars.len()
{
    let (s1, loc) = compile_var(t, st, child);
    (set_var(s1, v, loc), loc)
}

/// `keep` combined by `op` with the inverse of `away` combined by `op`, in three instructions
/// that share one slot: `op(away)`, `invert`, `op(slot, keep)`.
pub open spec fn combine(
    t: Tables,
    st: CompileState,
    v: int,
    op: Op,
    invert: Op,
    keep: Seq<usize>,
    away: Seq<usize>,
) -> (CompileState, usize)
    decreases v, 1int, keep.len() + away.len() + 1,
    when t.wf() && 0 <= v < t.vars.len() && all_below(keep, v) && all_below(away, v)
{
    let (s1, target) = next_slot(st);
    let (s2, aways) = compile_list(t, set_var(s1, v, target), away, v, away.len() as int);
    let s3 = emit(emit(s2, op, aways, target), invert, seq![target], target);
    let (s4, keeps) = compile_list(t, s3, keep, v, keep.len() as int);
    (emit(s4, op, seq![target] + keeps, target), target)
}

/// Lowers an expression that has not been lowered yet.
pub open spec fn compile_kind(t: Tables, st: CompileState, v: int) -> (CompileState, usize)
    decreases v, 2int, 0int,
    when t.wf() && 0 <= v < t.vars.len()
{
    match t.vars[v].kind {
        ExprKind::LineLineIntersection { k, l } => instr(t, st, v, Op::LineLineIntersection, seq![k, l]),
        ExprKind::AveragePoint { items } => instr(t, st, v, Op::Average, items@),
        ExprKind::CircleCenter { circle } => alias(t, st, v, circle as int),
        ExprKind::Entity { id } => {
            if st.entities[id as int] != usize::MAX {
                (set_var(st, v, st.entities[id as int]), st.entities[id as int])
            } else {
                match t.ents[id as int] {
                    EntityKind::PointOnLine { line } => {
                        let (s1, target) = next_slot(st);
                        let s2 = set_ent(set_var(s1, v, target), id as int, target);
                        let (s3, params) = compile_list(t, s2, seq![line], v, 1);
                        (emit(s3, Op::OnLine, params.push(id), target), target)
                    },
                    EntityKind::PointOnCircle { circle } => {
                        let (s1, target) = next_slot(st);
                        let s2 = set_ent(set_var(s1, v, target), id as int, target);
                        let (s3, params) = compile_list(t, s2, seq![circle], v, 1);
                        (emit(s3, Op::OnCircle, params.push(id), target), target)
                    },
                    _ => (set_ent(set_var(st, v, id), id as int, id), id),
                }
            }
        },
        ExprKind::PointPoint { p, q } => instr(t, st, v, Op::LineFromPoints, seq![p, q]),
        ExprKind::AngleBisector { p, q, r } => instr(t, st, v, Op::AngleBisector, seq![p, q, r]),
        ExprKind::ParallelThrough { point, line } => instr(
            t,
            st,
            v,
            Op::ParallelThrough,
            seq![point, line],
        ),
        ExprKind::PerpendicularThrough { point, line } => instr(
            t,
            st,
            v,
            Op::PerpendicularThrough,
            seq![point, line],
        ),
        ExprKind::Sum { plus, minus } => combine(t, st, v, Op::Sum, Op::Negation, plus@, minus@),
        ExprKind::Product { times, by } => combine(
            t,
            st,
            v,
            Op::PartialProduct,
            Op::Pow { exponent: minus_one() },
            times@,
            by@,
        ),
        ExprKind::Const { value } => {
            let loc = const_slot(t.consts, t.ents.len() as int, value) as usize;
            (set_var(st, v, loc), loc)
        },
        ExprKind::Power { value, exponent } => instr(t, st, v, Op::Pow { exponent }, seq![value]),
        ExprKind::PointPointDistance { p, q } => instr(t, st, v, Op::PointPointDistance, seq![p, q]),
        ExprKind::PointLineDistance { point, line } => instr(
            t,
            st,
            v,
            Op::PointLineDistance,
            seq![point, line],
        ),
        ExprKind::ThreePointAngle { p, q, r } => instr(t, st, v, Op::AnglePoint, seq![p, q, r]),
        ExprKind::ThreePointAngleDir { p, q, r } => instr(t, st, v, Op::AnglePointDir, seq![p, q, r]),
        ExprKind::TwoLineAngle { k, l } => instr(t, st, v, Op::AngleLine, seq![k, l]),
        ExprKind::PointX { point } => alias(t, st, v, point as int),
        ExprKind::PointY { point } => instr(t, st, v, Op::SwapParts, seq![point]),
        ExprKind::ConstructCircle { center, radius } => instr(
            t,
            st,
            v,
            Op::CircleConstruct,
            seq![center, radius],
        ),
    }
}


/// The number of nodes of a rule: a bound on the slots its lowering takes from the main cursor.
pub open spec fn rule_size(r: RuleKind) -> nat
    decreases r, 1int,
{
    match r {
        RuleKind::Alternative(items) => 1 + rules_size(items@, items@.len() as int),
        RuleKind::Invert(inner) => 1 + rule_size(*inner),
        _ => 1,
    }
}

/// The total size of `items[..n]`.
pub open spec fn rules_size(items: Seq<RuleKind>, n: int) -> nat
    decreases items, n,
    when 0 <= n <= items.len()
{
    if n == 0 {
        0
    } else {
        rules_size(items, n - 1) + rule_size(items[n - 1])
    }
}

/// The total size of the first `n` rules.
pub open spec fn rules_total(rules: Seq<Rule>, n: int) -> nat
    decreases n,
{
    if n <= 0 {
        0
    } else {
        rules_total(rules, n - 1) + rule_size(rules[n - 1].kind)
    }
}

/// A comparison rule: its slot is taken first, then both sides are lowered.
pub open spec fn compare(t: Tables, st: CompileState, op: Op, a: usize, b: usize) -> (
    CompileState,
    usize,
) {
    let (s1, target) = next_rule_slot(st);
    let (s2, la) = compile_var(t, s1, a as int);
    let (s3, lb) = compile_var(t, s2, b as int);
    (emit(s3, op, seq![la, lb], target), target)
}

/// Lowers a rule to the slot of its quality.
pub open spec fn compile_rule(t: Tables, st: CompileState, r: RuleKind) -> (CompileState, usize)
    decreases r, 1int,
{
    match r {
        RuleKind::PointEq(a, b) => compare(t, st, Op::EqualComplex, a, b),
        RuleKind::NumberEq(a, b) => compare(t, st, Op::EqualReal, a, b),
        RuleKind::Lt(a, b) => compare(t, st, Op::Less, a, b),
        RuleKind::Gt(a, b) => compare(t, st, Op::Greater, a, b),
        RuleKind::Alternative(items) => {
            let (s1, target) = next_rule_slot(st);
            let (s2, qs) = compile_rule_list(
                t,
                CompileState { alt_mode: true, ..s1 },
                items@,
                items@.len() as int,
            );
            (emit(CompileState { alt_mode: s1.alt_mode, ..s2 }, Op::MaxReal, qs, target), target)
        },
        RuleKind::Invert(inner) => {
            let (s1, q) = compile_rule(t, st, *inner);
            (emit(s1, Op::InvertQuality, seq![q], q), q)
        },
        RuleKind::Bias => {
            let (s1, slot) = next_rule_slot(st);
            (CompileState { biases: s1.biases.push(slot), ..s1 }, slot)
        },
    }
}

/// Lowers the rules `items[..n]`, left to right.
pub open spec fn compile_rule_list(t: Tables, st: CompileState, items: Seq<RuleKind>, n: int) -> (
    CompileState,
    Seq<usize>,
)
    decreases items, n,
    when 0 <= n <= items.len()
{
    if n == 0 {
        (st, Seq::empty())
    } else {
        let (s1, qs) = compile_rule_list(t, st, items, n - 1);
        let (s2, q) = compile_rule(t, s1, items[n - 1]);
        (s2, qs.push(q))
    }
}

/// Lowers the first `n` rules of a program.
pub open spec fn compile_rules(t: Tables, st: CompileState, rules: Seq<Rule>, n: int) -> CompileState
    decreases n,
{
    if n <= 0 {
        st
    } else {
        compile_rule(t, compile_rules(t, st, rules, n - 1), rules[n - 1].kind).0
    }
}

/// Lowers the first `n` expressions of a table, in order.
pub open spec fn compile_all(t: Tables, st: CompileState, n: int) -> CompileState
    decreases n,
{
    if n <= 0 {
        st
    } else {
        compile_var(t, compile_all(t, st, n - 1), n - 1).0
    }
}

/// The placeholder value of an adjustable's slot.
pub open spec fn placeholder() -> ProcNum {
    ProcNum { numer: 0i64, denom: 1u64 }
}

/// The constant pool after the first `n` expressions: one placeholder per adjustable, then each
/// distinct constant value in order of first appearance.
pub open spec fn pool_prefix(adj: int, vars: Seq<Expr>, n: int) -> Seq<ProcNum>
    decreases n,
{
    if n <= 0 {
        Seq::new(adj as nat, |i: int| placeholder())
    } else {
        let p = pool_prefix(adj, vars, n - 1);
        match vars[n - 1].kind {
            ExprKind::Const { value } => if const_slot(p, adj, value) < p.len() {
                p
            } else {
                p.push(value)
            },
            _ => p,
        }
    }
}

/// The constant pool of a table with `adj` adjustables.
pub open spec fn constant_pool(adj: int, vars: Seq<Expr>) -> Seq<ProcNum> {
    pool_prefix(adj, vars, vars.len() as int)
}

/// Nothing lowered yet; the main cursor starts at `start`, the rule cursor right after the pool.
pub open spec fn fresh_state(t: Tables, start: int) -> CompileState {
    CompileState {
        cursor: start as usize,
        rule_cursor: t.consts.len() as usize,
        alt_mode: false,
        instructions: Seq::empty(),
        variables: Seq::new(t.vars.len(), |i: int| usize::MAX),
        entities: Seq::new(t.ents.len(), |i: int| usize::MAX),
        biases: Seq::empty(),
    }
}

/// The tables of the evaluated view.
pub open spec fn evaluate_tables(a: Adjusted) -> Tables {
    Tables {
        vars: a.variables@,
        ents: a.entities@,
        consts: constant_pool(a.entities.len() as int, a.variables@),
    }
}

/// The state after lowering every rule of the evaluated view.
pub open spec fn evaluate_state(a: Adjusted) -> CompileState {
    let t = evaluate_tables(a);
    compile_rules(t, fresh_state(t, t.consts.len() + a.rules.len()), a.rules@, a.rules.len() as int)
}

/// The tables of the drawn view.
pub open spec fn figure_tables(f: Figure) -> Tables {
    Tables {
        vars: f.variables@,
        ents: f.entities@,
        consts: constant_pool(f.entities.len() as int, f.variables@),
    }
}

/// The state after lowering every expression of the drawn view.
pub open spec fn figure_state(f: Figure) -> CompileState {
    let t = figure_tables(f);
    compile_all(t, fresh_state(t, t.consts.len() as int), f.variables.len() as int)
}

/// How the optimizer moves the adjustable of an entity.
pub open spec fn template_of(e: EntityKind) -> AdjustableTemplate {
    match e {
        EntityKind::FreeReal => AdjustableTemplate::Real,
        EntityKind::FreePoint => AdjustableTemplate::Point,
        EntityKind::PointOnLine { line } => AdjustableTemplate::OnLine(line),
        EntityKind::PointOnCircle { circle } => AdjustableTemplate::OnCircle(circle),
    }
}

/// The weight of entity `adj` in a rule: an equal share among the rule's entities.
pub open spec fn weight_cell(r: Rule, adj: int) -> ProcNum {
    if r.entities@.contains(adj as usize) {
        ProcNum { numer: 1i64, denom: r.entities.len() as u64 }
    } else {
        ProcNum { numer: 0i64, denom: 1u64 }
    }
}

/// The weights of one rule over `adj_count` adjustables.
pub open spec fn weight_row(r: Rule, adj_count: int) -> Seq<ProcNum> {
    Seq::new(adj_count as nat, |j: int| weight_cell(r, j))
}

/// The weight rows of the first `n` rules, one after another.
pub open spec fn weight_rows(rules: Seq<Rule>, adj_count: int, n: int) -> Seq<ProcNum>
    decreases n,
{
    if n <= 0 {
        Seq::empty()
    } else {
        weight_rows(rules, adj_count, n - 1) + weight_row(rules[n - 1], adj_count)
    }
}

/// What a slot of the drawn view holds, by the kind of its expression.
pub open spec fn value_type_of(k: ExprKind, ents: Seq<EntityKind>) -> ValueType {
    match k {
        ExprKind::LineLineIntersection { .. }
        | ExprKind::AveragePoint { .. }
        | ExprKind::CircleCenter { .. }
        | ExprKind::PointPoint { .. }
        | ExprKind::AngleBisector { .. }
        | ExprKind::ParallelThrough { .. }
        | ExprKind::PerpendicularThrough { .. }
        | ExprKind::ConstructCircle { .. } => ValueType::Complex,
        ExprKind::Entity { id } => entity_value_type(ents[id as int]),
        _ => ValueType::Real,
    }
}

/// What the slot of an entity holds.
pub open spec fn entity_value_type(e: EntityKind) -> ValueType {
    match e {
        EntityKind::FreeReal => ValueType::Real,
        _ => ValueType::Complex,
    }
}

/// The sizes of both views are far below the address space.
pub open spec fn fits(inter: Intermediate) -> bool {
    let a = inter.adjusted;
    let f = inter.figure;
    &&& 2 * a.variables.len() + 2 * a.entities.len() + a.rules.len() + rules_total(
        a.rules@,
        a.rules.len() as int,
    ) + 2 <= usize::MAX
    &&& 2 * f.variables.len() + 2 * f.entities.len() + 2 <= usize::MAX
}

/// The evaluate program is the lowering of every rule of `a`, in order.
pub open spec fn evaluate_output(p: EvaluateProgram, a: Adjusted) -> bool {
    let st = evaluate_state(a);
    &&& p.base.req_memory_size == st.cursor
    &&& p.base.constants@ == evaluate_tables(a).consts
    &&& instrs_view(p.base.instructions@) == st.instructions
    &&& p.adjustables@ == a.entities@.map_values(|e: EntityKind| template_of(e))
    &&& p.rule_count == a.rules.len()
    &&& p.biases@ == st.biases
    &&& p.weights@ == weight_rows(a.rules@, a.entities.len() as int, a.rules.len() as int)
}

/// The figure program is the lowering of every expression of `f`, in order.
pub open spec fn figure_output(p: FigureProgram, f: Figure) -> bool {
    let st = figure_state(f);
    &&& p.base.req_memory_size == st.cursor
    &&& p.base.constants@ == figure_tables(f).consts
    &&& instrs_view(p.base.instructions@) == st.instructions
    &&& p.variables@ == Seq::new(
        f.variables.len() as nat,
        |i: int| (value_type_of(f.variables@[i].kind, f.entities@), st.variables[i]),
    )
    &&& p.entities@ == Seq::new(
        f.entities.len() as nat,
        |i: int| (entity_value_type(f.entities@[i]), entity_slot(f.entities@[i], i, st.entities[i])),
    )
}

/// The slot of entity `i` in the figure: its own slot for a free entity, whatever an
/// expression reading it compiled it to otherwise.
pub open spec fn entity_slot(e: EntityKind, i: int, compiled: usize) -> usize {
    match e {
        EntityKind::FreeReal | EntityKind::FreePoint => i as usize,
        _ => compiled,
    }
}

/// The number of entries that are not set.
pub open spec fn count_unset(s: Seq<usize>) -> nat
    decreases s.len(),
{
    if s.len() == 0 {
        0
    } else {
        count_unset(s.drop_last()) + if s.last() == usize::MAX {
            1nat
        } else {
            0nat
        }
    }
}

/// The slots a state may still take: each unset cache entry takes at most one.
pub open spec fn budget(st: CompileState) -> int {
    st.cursor + count_unset(st.variables) + count_unset(st.entities)
}

/// An alias expression shares the slot of its operand.
pub open spec fn alias_ok(t: Tables, st: CompileState, v: int) -> bool {
    match t.vars[v].kind {
        ExprKind::CircleCenter { circle } => st.variables[circle as int] == st.variables[v],
        ExprKind::PointX { point } => st.variables[point as int] == st.variables[v],
        _ => true,
    }
}

/// Everything written so far lies below the main cursor, and aliases share slots.
pub open spec fn state_inv(t: Tables, st: CompileState) -> bool {
    &&& st.variables.len() == t.vars.len()
    &&& st.entities.len() == t.ents.len()
    &&& t.consts.len() <= st.cursor
    &&& t.consts.len() <= st.rule_cursor <= st.cursor
    &&& targets_from(st.instructions, t.consts.len() as int)
    &&& forall|v: int|
        #![trigger st.variables[v]]
        0 <= v < st.variables.len() && st.variables[v] != usize::MAX ==> st.variables[v] < st.cursor
            && alias_ok(t, st, v)
    &&& forall|e: int|
        #![trigger st.entities[e]]
        0 <= e < st.entities.len() && st.entities[e] != usize::MAX ==> st.entities[e] < st.cursor
    &&& instructions_below(st.instructions, st.cursor as int)
    &&& targets_below(st.instructions, st.cursor as int)
    &&& all_below(st.biases, st.cursor as int)
}

/// Entries once set keep their slot.
pub open spec fn extends(old: CompileState, new: CompileState) -> bool {
    &&& new.variables.len() == old.variables.len()
    &&& new.entities.len() == old.entities.len()
    &&& old.cursor <= new.cursor
    &&& forall|v: int|
        #![trigger new.variables[v]]
        0 <= v < old.variables.len() && old.variables[v] != usize::MAX ==> new.variables[v]
            == old.variables[v]
    &&& forall|e: int|
        #![trigger new.entities[e]]
        0 <= e < old.entities.len() && old.entities[e] != usize::MAX ==> new.entities[e]
            == old.entities[e]
}

/// Every target of every instruction is at least `bound`.
pub open spec fn targets_from(instrs: Seq<InstrView>, bound: int) -> bool {
    forall|i: int| 0 <= i < instrs.len() ==> #[trigger] instrs[i].target >= bound
}

/// Cache entries of expressions `bound` and above are as they were.
pub open spec fn untouched_from(old: CompileState, new: CompileState, bound: int) -> bool {
    forall|w: int|
        #![trigger new.variables[w]]
        bound <= w < old.variables.len() ==> new.variables[w] == old.variables[w]
}

proof fn lemma_rules_size_mono(items: Seq<RuleKind>, i: int, n: int)
    requires
        0 <= i <= n <= items.len(),
    ensures
        rules_size(items, i) <= rules_size(items, n),
    decreases n - i,
{
    if i < n {
        lemma_rules_size_mono(items, i, n - 1);
    }
}

proof fn lemma_rules_total_mono(rules: Seq<Rule>, i: int, n: int)
    requires
        0 <= i <= n,
    ensures
        rules_total(rules, i) <= rules_total(rules, n),
    decreases n - i,
{
    if i < n {
        lemma_rules_total_mono(rules, i, n - 1);
    }
}

proof fn lemma_const_slot_push(p: Seq<ProcNum>, from: int, value: ProcNum, x: ProcNum)
    requires
        0 <= from <= p.len(),
    ensures
        const_slot(p, from, value) < p.len() ==> const_slot(p.push(x), from, value) == const_slot(
            p,
            from,
            value,
        ),
        const_slot(p, from, value) >= p.len() && x.same_value(value) ==> const_slot(
            p.push(x),
            from,
            value,
        ) == p.len(),
    decreases p.len() - from,
{
    if from < p.len() {
        assert(p.push(x)[from] == p[from]);
        lemma_const_slot_push(p, from + 1, value, x);
    }
}

proof fn lemma_weight_rows_len(rules: Seq<Rule>, adj_count: int, n: int)
    requires
        0 <= adj_count,
        0 <= n,
    ensures
        weight_rows(rules, adj_count, n).len() == n * adj_count,
    decreases n,
{
    if n > 0 {
        lemma_weight_rows_len(rules, adj_count, n - 1);
        assert((n - 1) * adj_count + adj_count == n * adj_count) by (nonlinear_arith);
        assert(weight_row(rules[n - 1], adj_count).len() == adj_count);
    } else {
        assert(0 * adj_count == 0);
    }
}

proof fn lemma_count_unset_update(s: Seq<usize>, i: int, x: usize)
    requires
        0 <= i < s.len(),
        s[i] == usize::MAX,
        x != usize::MAX,
    ensures
        count_unset(s.update(i, x)) + 1 == count_unset(s),
    decreases s.len(),
{
    if i == s.len() - 1 {
        assert(s.update(i, x).drop_last() =~= s.drop_last());
    } else {
        lemma_count_unset_update(s.drop_last(), i, x);
        assert(s.update(i, x).drop_last() =~= s.drop_last().update(i, x));
    }
}

proof fn lemma_count_unset_all(n: nat)
    ensures
        count_unset(Seq::new(n, |i: int| usize::MAX)) == n,
    decreases n,
{
    if n > 0 {
        lemma_count_unset_all((n - 1) as nat);
        assert(Seq::new(n, |i: int| usize::MAX).drop_last() =~= Seq::new(
            (n - 1) as nat,
            |i: int| usize::MAX,
        ));
    }
}


fn single(a: usize) -> (r: Vec<usize>)
    ensures
        r@ == seq![a],
{
    let r = vec![a];
    assert(r@ =~= seq![a]);
    r
}

fn pair(a: usize, b: usize) -> (r: Vec<usize>)
    ensures
        r@ == seq![a, b],
{
    let r = vec![a, b];
    assert(r@ =~= seq![a, b]);
    r
}

fn triple(a: usize, b: usize, c: usize) -> (r: Vec<usize>)
    ensures
        r@ == seq![a, b, c],
{
    let r = vec![a, b, c];
    assert(r@ =~= seq![a, b, c]);
    r
}

/// Lowers an expanded script into an evaluate program and a figure program.
pub struct Compiler<'i> {
    intermediate: &'i Intermediate,
    constants: Vec<ProcNum>,
    cursor: Cursor,
    rule_cursor: Cursor,
    instructions: Vec<Instruction>,
    entities: Vec<Loc>,
    variables: Vec<Loc>,
    alt_mode: bool,
    biases: Vec<Loc>,
}

impl<'i> Compiler<'i> {
    /// The script being lowered.
    pub closed spec fn source(&self) -> Intermediate {
        *self.intermediate
    }

    spec fn state(&self) -> CompileState {
        CompileState {
            cursor: self.cursor.current,
            rule_cursor: self.rule_cursor.current,
            alt_mode: self.alt_mode,
            instructions: instrs_view(self.instructions@),
            variables: self.variables@,
            entities: self.entities@,
            biases: self.biases@,
        }
    }

    spec fn tables(&self, vars: Seq<Expr>, ents: Seq<EntityKind>) -> Tables {
        Tables { vars, ents, consts: self.constants@ }
    }

    /// A compiler for `intermediate`.
    pub fn new(intermediate: &'i Intermediate) -> (r: Compiler<'i>)
        ensures
            r.source() == *intermediate,
    {
        Compiler {
            intermediate,
            constants: Vec::new(),
            cursor: Cursor { current: 0 },
            rule_cursor: Cursor { current: 0 },
            instructions: Vec::new(),
            entities: Vec::new(),
            variables: Vec::new(),
            alt_mode: false,
            biases: Vec::new(),
        }
    }

    /// The slot of the constant `value`: the first slot after the adjustables with its value.
    fn locate_const(&self, adj_count: usize, value: &ProcNum) -> (r: Loc)
        requires
            adj_count <= self.constants.len(),
        ensures
            r == const_slot(self.constants@, adj_count as int, *value),
    {
        let mut i = adj_count;
        while i < self.constants.len()
            invariant
                adj_count <= i <= self.constants.len(),
                const_slot(self.constants@, i as int, *value) == const_slot(
                    self.constants@,
                    adj_count as int,
                    *value,
                ),
            decreases self.constants.len() - i,
        {
            if self.constants[i].value_eq(value) {
                return i;
            }
            i += 1;
        }
        i
    }

    fn compile_var(&mut self, vars: &Vec<Expr>, ents: &Vec<EntityKind>, v: usize) -> (r: Loc)
        requires
            old(self).tables(vars@, ents@).wf(),
            v < vars.len(),
            state_inv(old(self).tables(vars@, ents@), old(self).state()),
            budget(old(self).state()) <= usize::MAX,
        ensures
            final(self).constants@ == old(self).constants@,
            (final(self).state(), r) == compile_var(
                old(self).tables(vars@, ents@),
                old(self).state(),
                v as int,
            ),
            state_inv(final(self).tables(vars@, ents@), final(self).state()),
            extends(old(self).state(), final(self).state()),
            budget(final(self).state()) <= budget(old(self).state()),
            final(self).rule_cursor == old(self).rule_cursor,
            final(self).alt_mode == old(self).alt_mode,
            final(self).biases@ == old(self).biases@,
            r < final(self).cursor.current,
            final(self).variables@[v as int] == r,
            untouched_from(old(self).state(), final(self).state(), v + 1),
        decreases v, 3int, 0int,
    {
        let loc = self.variables[v];
        if loc != usize::MAX {
            return loc;
        }
        self.compile_kind(vars, ents, v)
    }

    fn compile_kind(&mut self, vars: &Vec<Expr>, ents: &Vec<EntityKind>, v: usize) -> (r: Loc)
        requires
            old(self).tables(vars@, ents@).wf(),
            v < vars.len(),
            old(self).variables@[v as int] == usize::MAX,
            state_inv(old(self).tables(vars@, ents@), old(self).state()),
            budget(old(self).state()) <= usize::MAX,
        ensures
            final(self).constants@ == old(self).constants@,
            (final(self).state(), r) == compile_kind(
                old(self).tables(vars@, ents@),
                old(self).state(),
                v as int,
            ),
            state_inv(final(self).tables(vars@, ents@), final(self).state()),
            extends(old(self).state(), final(self).state()),
            budget(final(self).state()) <= budget(old(self).state()),
            final(self).rule_cursor == old(self).rule_cursor,
            final(self).alt_mode == old(self).alt_mode,
            final(self).biases@ == old(self).biases@,
            r < final(self).cursor.current,
            final(self).variables@[v as int] == r,
            untouched_from(old(self).state(), final(self).state(), v + 1),
        decreases v, 2int, 0int,
    {
        proof {
            assert(children_below(vars@[v as int].kind, v as int));
        }
        match &vars[v].kind {
            ExprKind::LineLineIntersection { k, l } => {
                self.instr(vars, ents, v, Op::LineLineIntersection, &pair(*k, *l))
            },
            ExprKind::AveragePoint { items } => self.instr(vars, ents, v, Op::Average, items),
            ExprKind::CircleCenter { circle } => self.alias(vars, ents, v, *circle),
            ExprKind::Entity { id } => self.compile_entity(vars, ents, v, *id),
            ExprKind::PointPoint { p, q } => {
                self.instr(vars, ents, v, Op::LineFromPoints, &pair(*p, *q))
            },
            ExprKind::AngleBisector { p, q, r } => {
                self.instr(vars, ents, v, Op::AngleBisector, &triple(*p, *q, *r))
            },
            ExprKind::ParallelThrough { point, line } => {
                self.instr(vars, ents, v, Op::ParallelThrough, &pair(*point, *line))
            },
            ExprKind::PerpendicularThrough { point, line } => {
                self.instr(vars, ents, v, Op::PerpendicularThrough, &pair(*point, *line))
            },
            ExprKind::Sum { plus, minus } => {
                self.combine(vars, ents, v, Op::Sum, Op::Negation, plus, minus)
            },
            ExprKind::Product { times, by } => {
                let exponent = ProcNum::new(-1, 1);
                self.combine(vars, ents, v, Op::PartialProduct, Op::Pow { exponent }, times, by)
            },
            ExprKind::Const { value } => {
                let loc = self.locate_const(ents.len(), value);
                proof {
                    lemma_count_unset_update(self.variables@, v as int, loc);
                }
                self.variables.set(v, loc);
                loc
            },
            ExprKind::Power { value, exponent } => {
                self.instr(vars, ents, v, Op::Pow { exponent: *exponent }, &single(*value))
            },
            ExprKind::PointPointDistance { p, q } => {
                self.instr(vars, ents, v, Op::PointPointDistance, &pair(*p, *q))
            },
            ExprKind::PointLineDistance { point, line } => {
                self.instr(vars, ents, v, Op::PointLineDistance, &pair(*point, *line))
            },
            ExprKind::ThreePointAngle { p, q, r } => {
                self.instr(vars, ents, v, Op::AnglePoint, &triple(*p, *q, *r))
            },
            ExprKind::ThreePointAngleDir { p, q, r } => {
                self.instr(vars, ents, v, Op::AnglePointDir, &triple(*p, *q, *r))
            },
            ExprKind::TwoLineAngle { k, l } => {
                self.instr(vars, ents, v, Op::AngleLine, &pair(*k, *l))
            },
            ExprKind::PointX { point } => self.alias(vars, ents, v, *point),
            ExprKind::PointY { point } => self.instr(vars, ents, v, Op::SwapParts, &single(*point)),
            ExprKind::ConstructCircle { center, radius } => {
                self.instr(vars, ents, v, Op::CircleConstruct, &pair(*center, *radius))
            },
        }
    }

    /// Appends an instruction whose slots lie below the main cursor.
    fn push_instr(&mut self, Ghost(t): Ghost<Tables>, op: Op, params: Vec<Loc>, target: Loc)
        requires
            state_inv(t, old(self).state()),
            all_below(params@, old(self).cursor.current as int),
            t.consts.len() <= target < old(self).cursor.current,
        ensures
            final(self).constants@ == old(self).constants@,
            final(self).state() == emit(old(self).state(), op, params@, target),
            state_inv(t, final(self).state()),
            final(self).rule_cursor == old(self).rule_cursor,
            final(self).cursor == old(self).cursor,
            final(self).alt_mode == old(self).alt_mode,
            final(self).biases@ == old(self).biases@,
            final(self).variables@ == old(self).variables@,
            final(self).entities@ == old(self).entities@,
    {
        let ghost p = params@;
        self.instructions.push(Instruction { op, params, target });
        proof {
            assert(instrs_view(self.instructions@) =~= instrs_view(old(self).instructions@).push(
                InstrView { op, params: p, target },
            )) by {
                assert(instrs_view(self.instructions@).len() == self.instructions@.len());
            }
            let st = self.state();
            assert forall|i: int, j: int|
                0 <= i < st.instructions.len() && 0 <= j < st.instructions[i].params.len()
                implies #[trigger] st.instructions[i].params[j] < st.cursor by {
                if i < st.instructions.len() - 1 {
                    assert(st.instructions[i] == old(self).state().instructions[i]);
                }
            }
            assert forall|i: int| 0 <= i < st.instructions.len() implies #[trigger]
                st.instructions[i].target < st.cursor && st.instructions[i].target >= t.consts.len() by {
                if i < st.instructions.len() - 1 {
                    assert(st.instructions[i] == old(self).state().instructions[i]);
                }
            }
        }
    }

    /// Takes a slot for `v` and reserves it in the cache.
    fn reserve(&mut self, Ghost(t): Ghost<Tables>, v: usize) -> (r: Loc)
        requires
            t == old(self).tables(t.vars, t.ents),
            t.wf(),
            v < t.vars.len(),
            old(self).variables@[v as int] == usize::MAX,
            !(t.vars[v as int].kind is CircleCenter),
            !(t.vars[v as int].kind is PointX),
            state_inv(t, old(self).state()),
            budget(old(self).state()) <= usize::MAX,
        ensures
            final(self).constants@ == old(self).constants@,
            final(self).state() == set_var(next_slot(old(self).state()).0, v as int, r),
            r == old(self).cursor.current,
            final(self).cursor.current == old(self).cursor.current + 1,
            state_inv(t, final(self).state()),
            extends(old(self).state(), final(self).state()),
            budget(final(self).state()) == budget(old(self).state()),
            final(self).rule_cursor == old(self).rule_cursor,
            final(self).alt_mode == old(self).alt_mode,
            final(self).biases@ == old(self).biases@,
            untouched_from(old(self).state(), final(self).state(), v + 1),
    {
        proof {
            lemma_count_unset_update(self.variables@, v as int, 0);
            lemma_count_unset_update(self.variables@, v as int, self.cursor.current);
        }
        let target = self.cursor.next();
        self.variables.set(v, target);
        proof {
            let st = self.state();
            let st0 = old(self).state();
            assert(st.variables =~= st0.variables.update(v as int, target));
            assert forall|w: int|
                #![trigger st.variables[w]]
                0 <= w < st.variables.len() && st.variables[w] != usize::MAX implies st.variables[w]
                < st.cursor && alias_ok(t, st, w) by {
                if w != v {
                    assert(st0.variables[w] == st.variables[w]);
                    assert(st0.variables[w] != usize::MAX);
                    assert(alias_ok(t, st0, w));
                    assert(children_below(t.vars[w].kind, w));
                    match t.vars[w].kind {
                        ExprKind::CircleCenter { circle } => {
                            assert(st0.variables[circle as int] != usize::MAX);
                            assert(circle != v);
                        },
                        ExprKind::PointX { point } => {
                            assert(st0.variables[point as int] != usize::MAX);
                            assert(point != v);
                        },
                        _ => {},
                    }
                } else {
                    assert(st.variables[w] == target);
                }
            }
        }
        target
    }

    fn instr(
        &mut self,
        vars: &Vec<Expr>,
        ents: &Vec<EntityKind>,
        v: usize,
        op: Op,
        ops: &Vec<usize>,
    ) -> (r: Loc)
        requires
            old(self).tables(vars@, ents@).wf(),
            v < vars.len(),
            all_below(ops@, v as int),
            old(self).variables@[v as int] == usize::MAX,
            !(vars@[v as int].kind is CircleCenter),
            !(vars@[v as int].kind is PointX),
            state_inv(old(self).tables(vars@, ents@), old(self).state()),
            budget(old(self).state()) <= usize::MAX,
        ensures
            final(self).constants@ == old(self).constants@,
            (final(self).state(), r) == instr(
                old(self).tables(vars@, ents@),
                old(self).state(),
                v as int,
                op,
                ops@,
            ),
            state_inv(final(self).tables(vars@, ents@), final(self).state()),
            extends(old(self).state(), final(self).state()),
            budget(final(self).state()) <= budget(old(self).state()),
            final(self).rule_cursor == old(self).rule_cursor,
            final(self).alt_mode == old(self).alt_mode,
            final(self).biases@ == old(self).biases@,
            r < final(self).cursor.current,
            final(self).variables@[v as int] == r,
            untouched_from(old(self).state(), final(self).state(), v + 1),
        decreases v, 1int, 1int,
    {
        let ghost t = self.tables(vars@, ents@);
        let target = self.reserve(Ghost(t), v);
        let params = self.compile_list(vars, ents, ops, v);
        self.push_instr(Ghost(t), op, params, target);
        target
    }

    fn compile_list(
        &mut self,
        vars: &Vec<Expr>,
        ents: &Vec<EntityKind>,
        items: &Vec<usize>,
        v: usize,
    ) -> (r: Vec<Loc>)
        requires
            old(self).tables(vars@, ents@).wf(),
            v < vars.len(),
            all_below(items@, v as int),
            state_inv(old(self).tables(vars@, ents@), old(self).state()),
            budget(old(self).state()) <= usize::MAX,
        ensures
            final(self).constants@ == old(self).constants@,
            (final(self).state(), r@) == compile_list(
                old(self).tables(vars@, ents@),
                old(self).state(),
                items@,
                v as int,
                items.len() as int,
            ),
            state_inv(final(self).tables(vars@, ents@), final(self).state()),
            extends(old(self).state(), final(self).state()),
            budget(final(self).state()) <= budget(old(self).state()),
            final(self).rule_cursor == old(self).rule_cursor,
            final(self).alt_mode == old(self).alt_mode,
            final(self).biases@ == old(self).biases@,
            all_below(r@, final(self).cursor.current as int),
            untouched_from(old(self).state(), final(self).state(), v as int),
        decreases v, 1int, 0int,
    {
        let ghost t = self.tables(vars@, ents@);
        let ghost st0 = self.state();
        let mut out: Vec<Loc> = Vec::new();
        let mut i: usize = 0;
        while i < items.len()
            invariant
                t == self.tables(vars@, ents@),
                t.wf(),
                v < vars.len(),
                all_below(items@, v as int),
                i <= items.len(),
                self.constants@ == old(self).constants@,
                (self.state(), out@) == compile_list(t, st0, items@, v as int, i as int),
                state_inv(t, self.state()),
                extends(st0, self.state()),
                untouched_from(st0, self.state(), v as int),
                budget(self.state()) <= budget(st0),
                budget(st0) <= usize::MAX,
                self.rule_cursor == old(self).rule_cursor,
                self.alt_mode == old(self).alt_mode,
                self.biases@ == old(self).biases@,
                all_below(out@, self.cursor.current as int),
            decreases items.len() - i,
        {
            let loc = self.compile_var(vars, ents, items[i]);
            out.push(loc);
            i += 1;
        }
        out
    }

    fn alias(&mut self, vars: &Vec<Expr>, ents: &Vec<EntityKind>, v: usize, child: usize) -> (r:
        Loc)
        requires
            old(self).tables(vars@, ents@).wf(),
            child < v < vars.len(),
            old(self).variables@[v as int] == usize::MAX,
            vars@[v as int].kind == (ExprKind::CircleCenter { circle: child }) || vars@[v as int].kind
                == (ExprKind::PointX { point: child }),
            state_inv(old(self).tables(vars@, ents@), old(self).state()),
            budget(old(self).state()) <= usize::MAX,
        ensures
            final(self).constants@ == old(self).constants@,
            (final(self).state(), r) == alias(
                old(self).tables(vars@, ents@),
                old(self).state(),
                v as int,
                child as int,
            ),
            state_inv(final(self).tables(vars@, ents@), final(self).state()),
            extends(old(self).state(), final(self).state()),
            budget(final(self).state()) <= budget(old(self).state()),
            final(self).rule_cursor == old(self).rule_cursor,
            final(self).alt_mode == old(self).alt_mode,
            final(self).biases@ == old(self).biases@,
            r < final(self).cursor.current,
            final(self).variables@[v as int] == r,
            untouched_from(old(self).state(), final(self).state(), v + 1),
        decreases v, 1int, 0int,
    {
        let ghost t = self.tables(vars@, ents@);
        let loc = self.compile_var(vars, ents, child);
        let ghost mid = self.state();
        proof {
            lemma_count_unset_update(self.variables@, v as int, loc);
        }
        self.variables.set(v, loc);
        proof {
            let st = self.state();
            assert(st.variables =~= mid.variables.update(v as int, loc));
            assert forall|w: int|
                #![trigger st.variables[w]]
                0 <= w < st.variables.len() && st.variables[w] != usize::MAX implies st.variables[w]
                < st.cursor && alias_ok(t, st, w) by {
                if w != v {
                    assert(mid.variables[w] == st.variables[w]);
                    assert(mid.variables[w] != usize::MAX);
                    assert(alias_ok(t, mid, w));
                    assert(children_below(t.vars[w].kind, w));
                    match t.vars[w].kind {
                        ExprKind::CircleCenter { circle } => {
                            assert(mid.variables[circle as int] != usize::MAX);
                            assert(circle != v);
                        },
                        ExprKind::PointX { point } => {
                            assert(mid.variables[point as int] != usize::MAX);
                            assert(point != v);
                        },
                        _ => {},
                    }
                } else {
                    assert(st.variables[w] == loc);
                    assert(st.variables[child as int] == mid.variables[child as int]);
                }
            }
        }
        loc
    }

    fn compile_entity(
        &mut self,
        vars: &Vec<Expr>,
        ents: &Vec<EntityKind>,
        v: usize,
        id: usize,
    ) -> (r: Loc)
        requires
            old(self).tables(vars@, ents@).wf(),
            v < vars.len(),
            vars@[v as int].kind == (ExprKind::Entity { id }),
            old(self).variables@[v as int] == usize::MAX,
            state_inv(old(self).tables(vars@, ents@), old(self).state()),
            budget(old(self).state()) <= usize::MAX,
        ensures
            final(self).constants@ == old(self).constants@,
            (final(self).state(), r) == compile_kind(
                old(self).tables(vars@, ents@),
                old(self).state(),
                v as int,
            ),
            state_inv(final(self).tables(vars@, ents@), final(self).state()),
            extends(old(self).state(), final(self).state()),
            budget(final(self).state()) <= budget(old(self).state()),
            final(self).rule_cursor == old(self).rule_cursor,
            final(self).alt_mode == old(self).alt_mode,
            final(self).biases@ == old(self).biases@,
            r < final(self).cursor.current,
            final(self).variables@[v as int] == r,
            untouched_from(old(self).state(), final(self).state(), v + 1),
        decreases v, 1int, 1int,
    {
        let ghost t = self.tables(vars@, ents@);
        proof {
            assert(t.vars[v as int] == vars@[v as int]);
            assert(id < ents.len() && entity_dep(ents@[id as int]) < v);
        }
        let cached = self.entities[id];
        if cached != usize::MAX {
            proof {
                lemma_count_unset_update(self.variables@, v as int, cached);
            }
            self.variables.set(v, cached);
            return cached;
        }
        match ents[id] {
            EntityKind::PointOnLine { line } => {
                let target = self.reserve(Ghost(t), v);
                proof {
                    lemma_count_unset_update(self.entities@, id as int, target);
                }
                self.entities.set(id, target);
                let mut params = self.compile_list(vars, ents, &single(line), v);
                params.push(id);
                self.push_instr(Ghost(t), Op::OnLine, params, target);
                target
            },
            EntityKind::PointOnCircle { circle } => {
                let target = self.reserve(Ghost(t), v);
                proof {
                    lemma_count_unset_update(self.entities@, id as int, target);
                }
                self.entities.set(id, target);
                let mut params = self.compile_list(vars, ents, &single(circle), v);
                params.push(id);
                self.push_instr(Ghost(t), Op::OnCircle, params, target);
                target
            },
            _ => {
                proof {
                    lemma_count_unset_update(self.variables@, v as int, id);
                    lemma_count_unset_update(self.entities@, id as int, id);
                }
                self.variables.set(v, id);
                self.entities.set(id, id);
                id
            },
        }
    }

    fn combine(
        &mut self,
        vars: &Vec<Expr>,
        ents: &Vec<EntityKind>,
        v: usize,
        op: Op,
        invert: Op,
        keep: &Vec<usize>,
        away: &Vec<usize>,
    ) -> (r: Loc)
        requires
            old(self).tables(vars@, ents@).wf(),
            v < vars.len(),
            all_below(keep@, v as int),
            all_below(away@, v as int),
            old(self).variables@[v as int] == usize::MAX,
            !(vars@[v as int].kind is CircleCenter),
            !(vars@[v as int].kind is PointX),
            state_inv(old(self).tables(vars@, ents@), old(self).state()),
            budget(old(self).state()) <= usize::MAX,
        ensures
            final(self).constants@ == old(self).constants@,
            (final(self).state(), r) == combine(
                old(self).tables(vars@, ents@),
                old(self).state(),
                v as int,
                op,
                invert,
                keep@,
                away@,
            ),
            state_inv(final(self).tables(vars@, ents@), final(self).state()),
            extends(old(self).state(), final(self).state()),
            budget(final(self).state()) <= budget(old(self).state()),
            final(self).rule_cursor == old(self).rule_cursor,
            final(self).alt_mode == old(self).alt_mode,
            final(self).biases@ == old(self).biases@,
            r < final(self).cursor.current,
            final(self).variables@[v as int] == r,
            untouched_from(old(self).state(), final(self).state(), v + 1),
        decreases v, 1int, 1int,
    {
        let ghost t = self.tables(vars@, ents@);
        let target = self.reserve(Ghost(t), v);
        let aways = self.compile_list(vars, ents, away, v);
        self.push_instr(Ghost(t), op, aways, target);
        self.push_instr(Ghost(t), invert, single(target), target);
        let keeps = self.compile_list(vars, ents, keep, v);
        let mut params = single(target);
        let mut i: usize = 0;
        while i < keeps.len()
            invariant
                i <= keeps.len(),
                params@ == seq![target] + keeps@.take(i as int),
            decreases keeps.len() - i,
        {
            params.push(keeps[i]);
            i += 1;
            proof {
                assert(params@ =~= seq![target] + keeps@.take(i as int));
            }
        }
        proof {
            assert(keeps@.take(keeps.len() as int) =~= keeps@);
        }
        self.push_instr(Ghost(t), op, params, target);
        target
    }

    /// The slot of a rule's quality.
    fn next_rule(&mut self) -> (r: Loc)
        requires
            old(self).alt_mode ==> old(self).cursor.current < usize::MAX,
            !old(self).alt_mode ==> old(self).rule_cursor.current < old(self).cursor.current,
        ensures
            (final(self).state(), r) == next_rule_slot(old(self).state()),
            final(self).constants@ == old(self).constants@,
    {
        if self.alt_mode {
            self.cursor.next()
        } else {
            self.rule_cursor.next()
        }
    }

    fn set_alt_mode(&mut self, value: bool)
        ensures
            final(self).state() == (CompileState { alt_mode: value, ..old(self).state() }),
            final(self).constants@ == old(self).constants@,
    {
        self.alt_mode = value;
    }

    fn compare(
        &mut self,
        vars: &Vec<Expr>,
        ents: &Vec<EntityKind>,
        op: Op,
        a: usize,
        b: usize,
    ) -> (r: Loc)
        requires
            old(self).tables(vars@, ents@).wf(),
            a < vars.len(),
            b < vars.len(),
            state_inv(old(self).tables(vars@, ents@), old(self).state()),
            budget(old(self).state()) + 1 <= usize::MAX,
            !old(self).alt_mode ==> old(self).rule_cursor.current < old(self).cursor.current,
        ensures
            final(self).constants@ == old(self).constants@,
            (final(self).state(), r) == compare(
                old(self).tables(vars@, ents@),
                old(self).state(),
                op,
                a,
                b,
            ),
            state_inv(final(self).tables(vars@, ents@), final(self).state()),
            extends(old(self).state(), final(self).state()),
            budget(final(self).state()) <= budget(old(self).state()) + 1,
            final(self).alt_mode == old(self).alt_mode,
            final(self).rule_cursor.current == if old(self).alt_mode {
                old(self).rule_cursor.current as int
            } else {
                old(self).rule_cursor.current + 1
            },
            old(self).constants.len() <= r < final(self).cursor.current,
    {
        let ghost t = self.tables(vars@, ents@);
        let target = self.next_rule();
        let la = self.compile_var(vars, ents, a);
        let lb = self.compile_var(vars, ents, b);
        self.push_instr(Ghost(t), op, pair(la, lb), target);
        target
    }

    fn compile_rule(&mut self, vars: &Vec<Expr>, ents: &Vec<EntityKind>, rule: &RuleKind) -> (r:
        Loc)
        requires
            old(self).tables(vars@, ents@).wf(),
            rule_refs_below(*rule, vars.len() as int),
            state_inv(old(self).tables(vars@, ents@), old(self).state()),
            budget(old(self).state()) + rule_size(*rule) <= usize::MAX,
            !old(self).alt_mode ==> old(self).rule_cursor.current < old(self).cursor.current,
        ensures
            final(self).constants@ == old(self).constants@,
            (final(self).state(), r) == compile_rule(
                old(self).tables(vars@, ents@),
                old(self).state(),
                *rule,
            ),
            state_inv(final(self).tables(vars@, ents@), final(self).state()),
            extends(old(self).state(), final(self).state()),
            budget(final(self).state()) <= budget(old(self).state()) + rule_size(*rule),
            final(self).alt_mode == old(self).alt_mode,
            final(self).rule_cursor.current == if old(self).alt_mode {
                old(self).rule_cursor.current as int
            } else {
                old(self).rule_cursor.current + 1
            },
            old(self).constants.len() <= r < final(self).cursor.current,
        decreases rule,
    {
        let ghost t = self.tables(vars@, ents@);
        match rule {
            RuleKind::PointEq(a, b) => self.compare(vars, ents, Op::EqualComplex, *a, *b),
            RuleKind::NumberEq(a, b) => self.compare(vars, ents, Op::EqualReal, *a, *b),
            RuleKind::Lt(a, b) => self.compare(vars, ents, Op::Less, *a, *b),
            RuleKind::Gt(a, b) => self.compare(vars, ents, Op::Greater, *a, *b),
            RuleKind::Alternative(items) => {
                let target = self.next_rule();
                let alt = self.alt_mode;
                self.set_alt_mode(true);
                let ghost s1 = self.state();
                let mut qs: Vec<Loc> = Vec::new();
                let mut i: usize = 0;
                while i < items.len()
                    invariant
                        t == self.tables(vars@, ents@),
                        t.wf(),
                        *rule == RuleKind::Alternative(*items),
                        i <= items.len(),
                        forall|j: int|
                            0 <= j < items.len() ==> rule_refs_below(
                                #[trigger] items@[j],
                                vars.len() as int,
                            ),
                        self.constants@ == old(self).constants@,
                        (self.state(), qs@) == compile_rule_list(t, s1, items@, i as int),
                        state_inv(t, self.state()),
                        extends(s1, self.state()),
                        budget(self.state()) <= budget(s1) + rules_size(items@, i as int),
                        budget(s1) + rules_size(items@, items.len() as int) <= usize::MAX,
                        self.alt_mode,
                        self.rule_cursor.current == s1.rule_cursor,
                        all_below(qs@, self.cursor.current as int),
                        s1.cursor <= self.cursor.current,
                        target < s1.cursor,
                    decreases items.len() - i,
                {
                    proof {
                        lemma_rules_size_mono(items@, i as int + 1, items.len() as int);
                        assert(decreases_to!(*rule => (*rule)->Alternative_0));
                        assert(decreases_to!(*items => items@));
                        assert(decreases_to!(items@ => items@[i as int]));
                    }
                    let q = self.compile_rule(vars, ents, &items[i]);
                    qs.push(q);
                    i += 1;
                }
                self.set_alt_mode(alt);
                self.push_instr(Ghost(t), Op::MaxReal, qs, target);
                target
            },
            RuleKind::Invert(inner) => {
                let q = self.compile_rule(vars, ents, inner);
                self.push_instr(Ghost(t), Op::InvertQuality, single(q), q);
                q
            },
            RuleKind::Bias => {
                let slot = self.next_rule();
                self.biases.push(slot);
                slot
            },
        }
    }

    /// Fills the pool: one placeholder per adjustable, then one slot per distinct constant.
    fn prepare_constants(&mut self, adj_count: usize, vars: &Vec<Expr>)
        requires
            adj_count + vars.len() <= usize::MAX,
        ensures
            final(self).constants@ == constant_pool(adj_count as int, vars@),
            adj_count <= final(self).constants.len() <= adj_count + vars.len(),
            forall|v: int|
                #![trigger vars@[v]]
                0 <= v < vars.len() ==> match vars@[v].kind {
                    ExprKind::Const { value } => const_slot(
                        final(self).constants@,
                        adj_count as int,
                        value,
                    ) < final(self).constants.len(),
                    _ => true,
                },
            final(self).entities@ == Seq::new(adj_count as nat, |i: int| usize::MAX),
            final(self).instructions@ == old(self).instructions@,
            final(self).biases@ == old(self).biases@,
            final(self).alt_mode == old(self).alt_mode,
    {
        self.constants = Vec::new();
        self.entities = Vec::new();
        let mut i: usize = 0;
        while i < adj_count
            invariant
                i <= adj_count,
                self.constants@ == Seq::new(i as nat, |k: int| placeholder()),
                self.instructions@ == old(self).instructions@,
                self.biases@ == old(self).biases@,
                self.alt_mode == old(self).alt_mode,
                self.entities@ == Seq::new(i as nat, |k: int| usize::MAX),
            decreases adj_count - i,
        {
            self.constants.push(ProcNum::zero());
            self.entities.push(usize::MAX);
            i += 1;
            proof {
                assert(self.constants@ =~= Seq::new(i as nat, |k: int| placeholder()));
                assert(self.entities@ =~= Seq::new(i as nat, |k: int| usize::MAX));
            }
        }
        let mut j: usize = 0;
        while j < vars.len()
            invariant
                j <= vars.len(),
                adj_count + vars.len() <= usize::MAX,
                self.constants@ == pool_prefix(adj_count as int, vars@, j as int),
                self.instructions@ == old(self).instructions@,
                self.biases@ == old(self).biases@,
                self.alt_mode == old(self).alt_mode,
                adj_count <= self.constants.len() <= adj_count + j,
                forall|v: int|
                    #![trigger vars@[v]]
                    0 <= v < j ==> match vars@[v].kind {
                        ExprKind::Const { value } => const_slot(
                            self.constants@,
                            adj_count as int,
                            value,
                        ) < self.constants.len(),
                        _ => true,
                    },
                self.entities@ == Seq::new(adj_count as nat, |i: int| usize::MAX),
            decreases vars.len() - j,
        {
            if let ExprKind::Const { value } = &vars[j].kind {
                let slot = self.locate_const(adj_count, value);
                if slot >= self.constants.len() {
                    let ghost before = self.constants@;
                    self.constants.push(*value);
                    proof {
                        lemma_const_slot_push(before, adj_count as int, *value, *value);
                        assert forall|v: int|
                            #![trigger vars@[v]]
                            0 <= v < j + 1 implies match vars@[v].kind {
                                ExprKind::Const { value } => const_slot(
                                    self.constants@,
                                    adj_count as int,
                                    value,
                                ) < self.constants.len(),
                                _ => true,
                            } by {
                            if let ExprKind::Const { value: w } = vars@[v].kind {
                                lemma_const_slot_push(before, adj_count as int, w, *value);
                            }
                        }
                    }
                }
            }
            j += 1;
        }
    }

    /// Lowers every rule of the evaluated view, then every expression of the drawn view.
    pub fn compile_programs(self) -> (r: (EvaluateProgram, FigureProgram))
        requires
            self.source().wf(),
            fits(self.source()),
        ensures
            evaluate_output(r.0, self.source().adjusted),
            figure_output(r.1, self.source().figure),
            instructions_below(instrs_view(r.0.base.instructions@), r.0.base.req_memory_size as int),
            instructions_below(instrs_view(r.1.base.instructions@), r.1.base.req_memory_size as int),
            targets_below(instrs_view(r.0.base.instructions@), r.0.base.req_memory_size as int),
            targets_below(instrs_view(r.1.base.instructions@), r.1.base.req_memory_size as int),
            targets_from(instrs_view(r.0.base.instructions@), r.0.base.constants.len() as int),
            targets_from(instrs_view(r.1.base.instructions@), r.1.base.constants.len() as int),
            r.0.base.req_memory_size >= r.0.base.constants.len() + r.0.rule_count,
            r.0.base.constants.len() >= r.0.adjustables.len(),
            r.1.base.req_memory_size >= r.1.base.constants.len(),
            r.0.adjustables.len() == self.source().adjusted.entities.len(),
            r.0.weights.len() == r.0.rule_count * r.0.adjustables.len(),
            forall|i: int|
                0 <= i < r.1.variables.len() ==> #[trigger] r.1.variables@[i].1
                    < r.1.base.req_memory_size,
            forall|i: int|
                #![trigger self.source().figure.variables@[i]]
                0 <= i < self.source().figure.variables.len() ==> match self.source().figure.variables@[i].kind {
                    ExprKind::CircleCenter { circle } => r.1.variables@[i].1
                        == r.1.variables@[circle as int].1,
                    ExprKind::PointX { point } => r.1.variables@[i].1 == r.1.variables@[point as int].1,
                    _ => true,
                },
    {
        let mut this = self;
        let inter = this.intermediate;
        let adjusted = &inter.adjusted;
        let vars = &adjusted.variables;
        let ents = &adjusted.entities;
        let rules = &adjusted.rules;

        let mut adjustables: Vec<AdjustableTemplate> = Vec::new();
        let mut e: usize = 0;
        while e < ents.len()
            invariant
                e <= ents.len(),
                adjustables@ == ents@.take(e as int).map_values(|x: EntityKind| template_of(x)),
            decreases ents.len() - e,
        {
            adjustables.push(template(&ents[e]));
            e += 1;
            proof {
                assert(adjustables@ =~= ents@.take(e as int).map_values(
                    |x: EntityKind| template_of(x),
                ));
            }
        }
        proof {
            assert(ents@.take(ents.len() as int) =~= ents@);
        }
        let adj_count = adjustables.len();

        this.prepare_constants(adj_count, vars);
        let rule_count = rules.len();
        let ghost t = this.tables(vars@, ents@);
        this.cursor = Cursor { current: this.constants.len() + rule_count };
        this.rule_cursor = Cursor { current: this.constants.len() };
        this.variables = all_unset(vars.len());
        this.instructions = Vec::new();
        this.biases = Vec::new();
        this.alt_mode = false;
        let ghost st0 = this.state();
        proof {
            assert(t == evaluate_tables(*adjusted));
            assert(instrs_view(this.instructions@) =~= Seq::empty());
            assert(st0 == fresh_state(t, t.consts.len() + rule_count));
            lemma_count_unset_all(vars.len() as nat);
            lemma_count_unset_all(ents.len() as nat);
        }

        let mut i: usize = 0;
        while i < rule_count
            invariant
                t == this.tables(vars@, ents@),
                t == evaluate_tables(*adjusted),
                t.wf(),
                adjusted.wf(),
                *rules == adjusted.rules,
                *vars == adjusted.variables,
                *ents == adjusted.entities,
                fits(*inter),
                rule_count == rules.len(),
                i <= rule_count,
                this.state() == compile_rules(t, st0, rules@, i as int),
                state_inv(t, this.state()),
                budget(this.state()) + rules_total(rules@, rule_count as int) - rules_total(
                    rules@,
                    i as int,
                ) + 1 <= usize::MAX,
                this.rule_cursor.current == t.consts.len() + i,
                this.cursor.current >= t.consts.len() + rule_count,
                !this.alt_mode,
            decreases rule_count - i,
        {
            proof {
                lemma_rules_total_mono(rules@, i as int + 1, rule_count as int);
                assert(rules@[i as int].wf(vars.len() as int, ents.len() as int));
            }
            this.compile_rule(vars, ents, &rules[i].kind);
            i += 1;
        }
        let memory_size = this.cursor.next();

        let weights = weight_table(rules, adj_count);
        proof {
            lemma_weight_rows_len(rules@, adj_count as int, rule_count as int);
        }

        let mut constants: Vec<ProcNum> = Vec::new();
        std::mem::swap(&mut constants, &mut this.constants);
        let mut instructions: Vec<Instruction> = Vec::new();
        std::mem::swap(&mut instructions, &mut this.instructions);
        let mut biases: Vec<Loc> = Vec::new();
        std::mem::swap(&mut biases, &mut this.biases);
        let evaluate = EvaluateProgram {
            base: Program { req_memory_size: memory_size, constants, instructions },
            adjustables,
            rule_count,
            biases,
            weights,
        };

        let figure = &inter.figure;
        let fvars = &figure.variables;
        let fents = &figure.entities;
        this.prepare_constants(fents.len(), fvars);
        let ghost ft = this.tables(fvars@, fents@);
        this.cursor = Cursor { current: this.constants.len() };
        this.rule_cursor = Cursor { current: this.constants.len() };
        this.variables = all_unset(fvars.len());
        let ghost fs0 = this.state();
        proof {
            assert(ft == figure_tables(*figure));
            assert(instrs_view(this.instructions@) =~= Seq::empty());
            assert(fs0 == fresh_state(ft, ft.consts.len() as int));
            lemma_count_unset_all(fvars.len() as nat);
            lemma_count_unset_all(fents.len() as nat);
        }
        let mut v: usize = 0;
        while v < fvars.len()
            invariant
                ft == this.tables(fvars@, fents@),
                ft == figure_tables(*figure),
                ft.wf(),
                fits(*inter),
                v <= fvars.len(),
                this.state() == compile_all(ft, fs0, v as int),
                state_inv(ft, this.state()),
                budget(this.state()) + 1 <= usize::MAX,
                forall|w: int| 0 <= w < v ==> #[trigger] this.variables@[w] != usize::MAX,
            decreases fvars.len() - v,
        {
            this.compile_var(fvars, fents, v);
            v += 1;
        }
        let fig_memory = this.cursor.next();

        let mut variables: Vec<(ValueType, Loc)> = Vec::new();
        let mut k: usize = 0;
        while k < fvars.len()
            invariant
                k <= fvars.len(),
                table_wf(fvars@, fents@),
                this.variables.len() == fvars.len(),
                variables@ == Seq::new(
                    k as nat,
                    |i: int| (value_type_of(fvars@[i].kind, fents@), this.variables@[i]),
                ),
            decreases fvars.len() - k,
        {
            proof {
                assert(fvars@[k as int] == fvars@[k as int]);
            }
            variables.push((get_value_type(&fvars[k].kind, fents), this.variables[k]));
            k += 1;
            proof {
                assert(variables@ =~= Seq::new(
                    k as nat,
                    |i: int| (value_type_of(fvars@[i].kind, fents@), this.variables@[i]),
                ));
            }
        }
        let mut entities: Vec<(ValueType, Loc)> = Vec::new();
        let mut k: usize = 0;
        while k < fents.len()
            invariant
                k <= fents.len(),
                this.entities.len() == fents.len(),
                entities@ == Seq::new(
                    k as nat,
                    |i: int|
                        (
                            entity_value_type(fents@[i]),
                            entity_slot(fents@[i], i, this.entities@[i]),
                        ),
                ),
            decreases fents.len() - k,
        {
            let slot = match fents[k] {
                EntityKind::FreeReal | EntityKind::FreePoint => k,
                _ => this.entities[k],
            };
            entities.push((entity_type(&fents[k]), slot));
            k += 1;
            proof {
                assert(entities@ =~= Seq::new(
                    k as nat,
                    |i: int|
                        (
                            entity_value_type(fents@[i]),
                            entity_slot(fents@[i], i, this.entities@[i]),
                        ),
                ));
            }
        }
        let fig = FigureProgram {
            base: Program {
                req_memory_size: fig_memory,
                constants: this.constants,
                instructions: this.instructions,
            },
            variables,
            entities,
        };
        proof {
            let fst = this.state();
            assert forall|i: int|
                #![trigger figure.variables@[i]]
                0 <= i < figure.variables.len() implies match figure.variables@[i].kind {
                    ExprKind::CircleCenter { circle } => fig.variables@[i].1
                        == fig.variables@[circle as int].1,
                    ExprKind::PointX { point } => fig.variables@[i].1 == fig.variables@[point as int].1,
                    _ => true,
                } by {
                assert(fst.variables[i] != usize::MAX);
                assert(alias_ok(ft, fst, i));
                assert(children_below(ft.vars[i].kind, i));
            }
            assert forall|i: int| 0 <= i < fig.variables.len() implies #[trigger] fig.variables@[i].1
                < fig.base.req_memory_size by {
                assert(fst.variables[i] != usize::MAX);
            }
        }
        (evaluate, fig)
    }
}

} // verus!

verus! {

/// How the optimizer moves the adjustable of an entity.
fn template(e: &EntityKind) -> (r: AdjustableTemplate)
    ensures
        r == template_of(*e),
{
    match e {
        EntityKind::FreeReal => AdjustableTemplate::Real,
        EntityKind::FreePoint => AdjustableTemplate::Point,
        EntityKind::PointOnLine { line } => AdjustableTemplate::OnLine(*line),
        EntityKind::PointOnCircle { circle } => AdjustableTemplate::OnCircle(*circle),
    }
}

/// What the slot of an entity holds.
fn entity_type(e: &EntityKind) -> (r: ValueType)
    ensures
        r == entity_value_type(*e),
{
    match e {
        EntityKind::FreeReal => ValueType::Real,
        _ => ValueType::Complex,
    }
}

/// What the slot of an expression holds.
fn get_value_type(kind: &ExprKind, ents: &Vec<EntityKind>) -> (r: ValueType)
    requires
        kind matches ExprKind::Entity { id } ==> id < ents.len(),
    ensures
        r == value_type_of(*kind, ents@),
{
    match kind {
        ExprKind::LineLineIntersection { .. }
        | ExprKind::AveragePoint { .. }
        | ExprKind::CircleCenter { .. }
        | ExprKind::PointPoint { .. }
        | ExprKind::AngleBisector { .. }
        | ExprKind::ParallelThrough { .. }
        | ExprKind::PerpendicularThrough { .. }
        | ExprKind::ConstructCircle { .. } => ValueType::Complex,
        ExprKind::Entity { id } => entity_type(&ents[*id]),
        _ => ValueType::Real,
    }
}

/// A cache with no entry set.
fn all_unset(n: usize) -> (r: Vec<Loc>)
    ensures
        r@ == Seq::new(n as nat, |i: int| usize::MAX),
{
    let mut r: Vec<Loc> = Vec::new();
    let mut i: usize = 0;
    while i < n
        invariant
            i <= n,
            r@ == Seq::new(i as nat, |k: int| usize::MAX),
        decreases n - i,
    {
        r.push(usize::MAX);
        i += 1;
        proof {
            assert(r@ =~= Seq::new(i as nat, |k: int| usize::MAX));
        }
    }
    r
}

/// Whether `x` is among `s`.
fn contains(s: &Vec<usize>, x: usize) -> (r: bool)
    ensures
        r == s@.contains(x),
{
    let mut i: usize = 0;
    while i < s.len()
        invariant
            i <= s.len(),
            forall|k: int| 0 <= k < i ==> s@[k] != x,
        decreases s.len() - i,
    {
        if s[i] == x {
            return true;
        }
        i += 1;
    }
    false
}

/// The weight rows of all rules over `adj_count` adjustables.
fn weight_table(rules: &Vec<Rule>, adj_count: usize) -> (r: Vec<ProcNum>)
    requires
        forall|i: int| 0 <= i < rules.len() ==> (#[trigger] rules@[i]).entities.len() <= u64::MAX,
    ensures
        r@ == weight_rows(rules@, adj_count as int, rules.len() as int),
{
    let mut weights: Vec<ProcNum> = Vec::new();
    let mut i: usize = 0;
    while i < rules.len()
        invariant
            i <= rules.len(),
            forall|i: int| 0 <= i < rules.len() ==> (#[trigger] rules@[i]).entities.len() <= u64::MAX,
            weights@ == weight_rows(rules@, adj_count as int, i as int),
        decreases rules.len() - i,
    {
        let rule = &rules[i];
        let share = rule.entities.len() as u64;
        let ghost before = weights@;
        let mut j: usize = 0;
        while j < adj_count
            invariant
                j <= adj_count,
                *rule == rules@[i as int],
                share == rule.entities.len(),
                weights@ == before + weight_row(*rule, adj_count as int).take(j as int),
            decreases adj_count - j,
        {
            if contains(&rule.entities, j) {
                weights.push(ProcNum { numer: 1, denom: share });
            } else {
                weights.push(ProcNum { numer: 0, denom: 1 });
            }
            j += 1;
            proof {
                assert(weights@ =~= before + weight_row(*rule, adj_count as int).take(j as int));
            }
        }
        i += 1;
        proof {
            assert(weight_row(*rule, adj_count as int).take(adj_count as int) =~= weight_row(
                *rule,
                adj_count as int,
            ));
        }
    }
    weights
}

} // verus!

verus! {

/// The sum of a row of weights as a fraction `(numerator, denominator)`.
pub open spec fn row_sum(row: Seq<ProcNum>) -> (int, int)
    decreases row.len(),
{
    if row.len() == 0 {
        (0, 1)
    } else {
        let (n, d) = row_sum(row.drop_last());
        let w = row.last();
        (n * w.denom + w.numer * d, d * w.denom)
    }
}

/// How many of `0..j` the entity list holds.
pub open spec fn count_held(entities: Seq<usize>, j: int) -> nat
    decreases j,
{
    if j <= 0 {
        0
    } else {
        count_held(entities, j - 1) + if entities.contains((j - 1) as usize) {
            1nat
        } else {
            0nat
        }
    }
}

proof fn lemma_count_held_drop(entities: Seq<usize>, j: int)
    requires
        entities.len() > 0,
        distinct(entities),
        0 <= j <= usize::MAX,
    ensures
        count_held(entities, j) == count_held(entities.drop_last(), j) + if entities.last() < j {
            1nat
        } else {
            0nat
        },
    decreases j,
{
    if j > 0 {
        lemma_count_held_drop(entities, j - 1);
        let x = (j - 1) as usize;
        let rest = entities.drop_last();
        let last = entities.last();
        let n = entities.len() as int;
        assert(entities.contains(x) == (rest.contains(x) || x == last)) by {
            if entities.contains(x) {
                let k = choose|k: int| 0 <= k < n && entities[k] == x;
                if k < n - 1 {
                    assert(rest[k] == x);
                }
            }
            if rest.contains(x) {
                let k = choose|k: int| 0 <= k < n - 1 && rest[k] == x;
                assert(entities[k] == x);
            }
            if x == last {
                assert(entities[n - 1] == x);
            }
        }
        if x == last {
            assert(!rest.contains(x)) by {
                if rest.contains(x) {
                    let k = choose|k: int| 0 <= k < n - 1 && rest[k] == x;
                    assert(entities[k] == entities[n - 1]);
                }
            }
        }
    }
}

proof fn lemma_count_held_all(entities: Seq<usize>, adj: int)
    requires
        0 <= adj <= usize::MAX,
        distinct(entities),
        all_below(entities, adj),
    ensures
        count_held(entities, adj) == entities.len(),
    decreases entities.len(),
{
    if entities.len() > 0 {
        let rest = entities.drop_last();
        assert(distinct(rest));
        assert(all_below(rest, adj));
        lemma_count_held_all(rest, adj);
        lemma_count_held_drop(entities, adj);
    } else {
        lemma_count_held_none(entities, adj);
    }
}

proof fn lemma_count_held_none(entities: Seq<usize>, j: int)
    requires
        entities.len() == 0,
    ensures
        count_held(entities, j) == 0,
    decreases j,
{
    if j > 0 {
        lemma_count_held_none(entities, j - 1);
    }
}

proof fn lemma_row_sum_prefix(r: Rule, adj: int, j: int)
    requires
        0 <= j <= adj,
        r.entities.len() > 0,
        r.entities.len() <= u64::MAX,
    ensures
        row_sum(weight_row(r, adj).take(j)).1 > 0,
        row_sum(weight_row(r, adj).take(j)).0 * r.entities.len() == count_held(r.entities@, j)
            * row_sum(weight_row(r, adj).take(j)).1,
    decreases j,
{
    let row = weight_row(r, adj);
    let k = r.entities.len() as int;
    if j > 0 {
        lemma_row_sum_prefix(r, adj, j - 1);
        assert(row.take(j).drop_last() =~= row.take(j - 1));
        let (n, d) = row_sum(row.take(j - 1));
        let c = count_held(r.entities@, j - 1) as int;
        let w = row.take(j).last();
        assert(w == weight_cell(r, j - 1));
        let (n2, d2) = row_sum(row.take(j));
        assert(n2 == n * w.denom + w.numer * d && d2 == d * w.denom);
        let c2 = count_held(r.entities@, j) as int;
        if r.entities@.contains((j - 1) as usize) {
            assert(c2 == c + 1);
            assert(w.numer == 1 && w.denom == k);
            assert((n * k + 1 * d) * k == (c + 1) * (d * k)) by (nonlinear_arith)
                requires
                    n * k == c * d,
            ;
            assert(d * k > 0) by (nonlinear_arith)
                requires
                    d > 0,
                    k > 0,
            ;
            assert(n2 * k == c2 * d2);
        } else {
            assert(c2 == c);
            assert(w.numer == 0 && w.denom == 1);
            assert((n * 1 + 0 * d) * k == c * (d * 1)) by (nonlinear_arith)
                requires
                    n * k == c * d,
            ;
            assert(n2 * k == c2 * d2);
        }
    } else {
        assert(row.take(0) =~= Seq::<ProcNum>::empty());
        assert(count_held(r.entities@, 0) == 0);
        assert(0 * k == 0);
    }
}

proof fn lemma_row_sum_zero(r: Rule, adj: int, j: int)
    requires
        0 <= j <= adj,
        r.entities.len() == 0,
    ensures
        row_sum(weight_row(r, adj).take(j)).0 == 0,
        row_sum(weight_row(r, adj).take(j)).1 == 1,
    decreases j,
{
    let row = weight_row(r, adj);
    if j > 0 {
        lemma_row_sum_zero(r, adj, j - 1);
        assert(row.take(j).drop_last() =~= row.take(j - 1));
        assert(row.take(j).last() == weight_cell(r, j - 1));
    } else {
        assert(row.take(0) =~= Seq::<ProcNum>::empty());
    }
}

/// The weights of a rule add up to one when it has entities, and to zero when it has none.
pub proof fn lemma_weight_row_total(r: Rule, adj: int)
    requires
        0 <= adj <= usize::MAX,
        distinct(r.entities@),
        all_below(r.entities@, adj),
        r.entities.len() <= u64::MAX,
    ensures
        r.entities.len() > 0 ==> row_sum(weight_row(r, adj)).0 == row_sum(weight_row(r, adj)).1,
        r.entities.len() == 0 ==> row_sum(weight_row(r, adj)).0 == 0,
{
    assert(weight_row(r, adj).take(adj) =~= weight_row(r, adj));
    if r.entities.len() > 0 {
        lemma_row_sum_prefix(r, adj, adj);
        lemma_count_held_all(r.entities@, adj);
        let (n, d) = row_sum(weight_row(r, adj));
        let k = r.entities.len() as int;
        assert(n == d) by (nonlinear_arith)
            requires
                n * k == k * d,
                k > 0,
        ;
    } else {
        lemma_row_sum_zero(r, adj, adj);
    }
}

/// The row of rule `i` starts at `i * adj` in the weight table.
pub proof fn lemma_weight_rows_index(rules: Seq<Rule>, adj: int, n: int, i: int, j: int)
    requires
        0 <= i < n,
        0 <= j < adj,
    ensures
        weight_rows(rules, adj, n).len() == n * adj,
        i * adj + j < n * adj,
        weight_rows(rules, adj, n)[i * adj + j] == weight_cell(rules[i], j),
    decreases n,
{
    lemma_weight_rows_len(rules, adj, n);
    lemma_weight_rows_len(rules, adj, n - 1);
    assert(i * adj + j < n * adj) by (nonlinear_arith)
        requires
            0 <= i < n,
            0 <= j < adj,
    ;
    if i < n - 1 {
        lemma_weight_rows_index(rules, adj, n - 1, i, j);
    } else {
        assert((n - 1) * adj + j == i * adj + j);
    }
}

/// With one rule over one entity, that entity gets the whole weight of the rule.
pub proof fn lemma_single_rule_single_entity(rules: Seq<Rule>)
    requires
        rules.len() == 1,
        rules[0].entities@ == seq![0usize],
    ensures
        weight_rows(rules, 1, 1) == seq![ProcNum { numer: 1, denom: 1 }],
{
    assert(rules[0].entities@[0] == 0usize);
    assert(rules[0].entities@.contains(0usize));
    assert(weight_rows(rules, 1, 1) =~= seq![ProcNum { numer: 1, denom: 1 }]) by {
        assert(weight_rows(rules, 1, 0) =~= Seq::<ProcNum>::empty());
        assert(weight_cell(rules[0], 0) == ProcNum { numer: 1, denom: 1 });
    }
}

/// Without rules the evaluate program has no rule slots, no weights and no instructions, and
/// needs exactly the slots of its constants.
pub proof fn lemma_no_rules(a: Adjusted, p: EvaluateProgram)
    requires
        a.rules.len() == 0,
        evaluate_output(p, a),
    ensures
        p.rule_count == 0,
        p.weights.len() == 0,
        p.biases.len() == 0,
        p.base.instructions.len() == 0,
        p.base.req_memory_size == p.base.constants.len(),
{
    assert(instrs_view(p.base.instructions@).len() == p.base.instructions.len());
}

/// Compiling equal views gives equal evaluate programs: the same memory size, constants,
/// instructions, adjustables, rule count, biases and weights.
pub proof fn lemma_evaluate_deterministic(
    a1: Adjusted,
    a2: Adjusted,
    first: EvaluateProgram,
    second: EvaluateProgram,
)
    requires
        a1 == a2,
        evaluate_output(first, a1),
        evaluate_output(second, a2),
    ensures
        first.base.req_memory_size == second.base.req_memory_size,
        first.base.constants@ == second.base.constants@,
        instrs_view(first.base.instructions@) == instrs_view(second.base.instructions@),
        first.adjustables@ == second.adjustables@,
        first.rule_count == second.rule_count,
        first.biases@ == second.biases@,
        first.weights@ == second.weights@,
{
}

/// Compiling equal views gives equal figure programs.
pub proof fn lemma_figure_deterministic(f1: Figure, f2: Figure, first: FigureProgram, second: FigureProgram)
    requires
        f1 == f2,
        figure_output(first, f1),
        figure_output(second, f2),
    ensures
        first.base.req_memory_size == second.base.req_memory_size,
        first.base.constants@ == second.base.constants@,
        instrs_view(first.base.instructions@) == instrs_view(second.base.instructions@),
        first.variables@ == second.variables@,
        first.entities@ == second.entities@,
{
}

/// The evaluate program depends on the evaluated view alone: scripts that differ only in what
/// they draw give the same evaluate program.
pub proof fn lemma_evaluate_ignores_figure(
    i1: Intermediate,
    i2: Intermediate,
    first: EvaluateProgram,
    second: EvaluateProgram,
)
    requires
        i1.adjusted == i2.adjusted,
        evaluate_output(first, i1.adjusted),
        evaluate_output(second, i2.adjusted),
    ensures
        first.base.req_memory_size == second.base.req_memory_size,
        first.base.constants@ == second.base.constants@,
        instrs_view(first.base.instructions@) == instrs_view(second.base.instructions@),
        first.adjustables@ == second.adjustables@,
        first.rule_count == second.rule_count,
        first.biases@ == second.biases@,
        first.weights@ == second.weights@,
{
}

} // verus!

verus! {

/// The size of a rule, or `None` when it does not fit in a `usize`.
fn size_of_rule(r: &RuleKind) -> (s: Option<usize>)
    ensures
        s matches Some(x) ==> x == rule_size(*r),
        s is None ==> rule_size(*r) > usize::MAX,
    decreases r,
{
    match r {
        RuleKind::Alternative(items) => {
            let mut total: usize = 1;
            let mut i: usize = 0;
            while i < items.len()
                invariant
                    *r == RuleKind::Alternative(*items),
                    i <= items.len(),
                    total == 1 + rules_size(items@, i as int),
                decreases items.len() - i,
            {
                proof {
                    assert(decreases_to!(*r => (*r)->Alternative_0));
                    assert(decreases_to!(*items => items@));
                    assert(decreases_to!(items@ => items@[i as int]));
                }
                proof {
                    lemma_rules_size_mono(items@, i as int + 1, items.len() as int);
                }
                let part = match size_of_rule(&items[i]) {
                    Some(x) => x,
                    None => return None,
                };
                if part > usize::MAX - total {
                    return None;
                }
                total = total + part;
                i += 1;
            }
            Some(total)
        },
        RuleKind::Invert(inner) => match size_of_rule(inner) {
            Some(x) => if x < usize::MAX {
                Some(x + 1)
            } else {
                None
            },
            None => None,
        },
        _ => Some(1),
    }
}

/// Whether `inter` is small enough for `Compiler::compile_programs`.
pub fn fits_in_memory(inter: &Intermediate) -> (r: bool)
    ensures
        r == fits(*inter),
{
    let a = &inter.adjusted;
    let f = &inter.figure;
    let bound: u128 = usize::MAX as u128;
    let mut total: u128 = 2 * (a.variables.len() as u128) + 2 * (a.entities.len() as u128) + (
    a.rules.len() as u128) + 2;
    if total > bound {
        proof {
            lemma_rules_total_mono(a.rules@, 0, a.rules.len() as int);
        }
        return false;
    }
    let mut i: usize = 0;
    while i < a.rules.len()
        invariant
            *a == inter.adjusted,
            i <= a.rules.len(),
            bound == usize::MAX,
            total == 2 * a.variables.len() + 2 * a.entities.len() + a.rules.len() + 2 + rules_total(
                a.rules@,
                i as int,
            ),
            total <= 2 * bound,
        decreases a.rules.len() - i,
    {
        proof {
            lemma_rules_total_mono(a.rules@, i as int, a.rules.len() as int);
            lemma_rules_total_mono(a.rules@, i as int + 1, a.rules.len() as int);
        }
        if total > bound {
            proof {
                assert(rules_total(a.rules@, a.rules.len() as int) >= rules_total(a.rules@, i as int));
                assert(!fits(*inter));
            }
            return false;
        }
        match size_of_rule(&a.rules[i].kind) {
            Some(x) => {
                total = total + x as u128;
            },
            None => {
                proof {
                    assert(rules_total(a.rules@, i as int + 1) == rules_total(a.rules@, i as int)
                        + rule_size(a.rules@[i as int].kind));
                    assert(!fits(*inter));
                }
                return false;
            },
        }
        i += 1;
    }
    let figure_total: u128 = 2 * (f.variables.len() as u128) + 2 * (f.entities.len() as u128) + 2;
    total <= bound && figure_total <= bound
}

} // verus!
