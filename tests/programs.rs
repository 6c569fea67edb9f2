use geo_aid::compiler::Compiler;
use geo_aid::math::{
    Adjusted, EntityKind, Expr, ExprKind, Figure, FigureItem, Intermediate, Rule, RuleKind,
};
use geo_aid::number::ProcNum;
use geo_aid::program::{AdjustableTemplate, EvaluateProgram, FigureProgram, Instruction, Op, ValueType};
use geo_aid::script::compile;
use geo_aid::unroll::{CompileContext, ComplexUnit};

fn programs(inter: &Intermediate) -> (EvaluateProgram, FigureProgram) {
    Compiler::new(inter).compile_programs()
}

fn with_op(instrs: &[Instruction], op: Op) -> Vec<&Instruction> {
    instrs.iter().filter(|i| i.op == op).collect()
}

fn entity(id: usize) -> Expr {
    Expr::new(ExprKind::Entity { id })
}

fn rule(kind: RuleKind, entities: Vec<usize>) -> Rule {
    Rule { kind, entities, weight: ProcNum::one() }
}

fn empty_figure() -> Figure {
    Figure {
        variables: Vec::new(),
        entities: Vec::new(),
        items: Vec::new(),
        canvas_width: 100,
        canvas_height: 100,
    }
}

fn by_hand(variables: Vec<Expr>, entities: Vec<EntityKind>, rules: Vec<Rule>) -> Intermediate {
    Intermediate { figure: empty_figure(), adjusted: Adjusted { variables, entities, rules } }
}

#[test]
fn two_free_points_equal() {
    let mut ctx = CompileContext::new();
    let a = ctx.free_point();
    let b = ctx.free_point();
    ctx.point_eq(a, b, false);
    let inter = compile(ctx, 100, 100).unwrap();
    let (eval, _) = programs(&inter);
    assert_eq!(eval.adjustables, vec![AdjustableTemplate::Point, AdjustableTemplate::Point]);
    assert_eq!(eval.rule_count, 1);
    assert_eq!(eval.weights, vec![ProcNum::new(1, 2), ProcNum::new(1, 2)]);
    let eqs = with_op(&eval.base.instructions, Op::EqualComplex);
    assert_eq!(eqs.len(), 1);
    assert_eq!(eqs[0].params, vec![0, 1]);
    assert_eq!(eqs[0].target, 2);
    assert_eq!(eval.base.instructions.len(), 1);
    assert_eq!(eval.base.req_memory_size, 3);
}

#[test]
fn circle_center_is_its_center() {
    let mut ctx = CompileContext::new();
    let p = ctx.free_point();
    let one = ctx.number(ProcNum::one(), ComplexUnit::scalar());
    let c = ctx.circle(p, one);
    let center = ctx.circle_center(c);
    let q = ctx.free_point();
    let d = ctx.distance_pp(q, center);
    let one_again = ctx.number(ProcNum::one(), ComplexUnit::scalar());
    ctx.scalar_eq(d, one_again, false);
    let inter = compile(ctx, 100, 100).unwrap();
    let (eval, _) = programs(&inter);
    assert!(with_op(&eval.base.instructions, Op::CircleConstruct).is_empty());
    let dists = with_op(&eval.base.instructions, Op::PointPointDistance);
    assert_eq!(dists.len(), 1);
    // `q` is reached first and takes entity 0; the center is `p`'s own slot, entity 1.
    assert_eq!(dists[0].params, vec![0, 1]);
    assert_eq!(eval.adjustables.len(), 2);
}

#[test]
fn perpendicular_of_perpendicular_is_parallel() {
    let mut ctx = CompileContext::new();
    let a = ctx.free_point();
    let b = ctx.free_point();
    let x = ctx.free_point();
    let p = ctx.free_point();
    let l = ctx.line(a, b);
    let k = ctx.perpendicular_through(l, x);
    let m = ctx.perpendicular_through(k, p);
    let z = ctx.free_point();
    let d = ctx.distance_pl(z, m);
    let zero = ctx.number(ProcNum::zero(), ComplexUnit::scalar());
    ctx.scalar_eq(d, zero, false);
    let inter = compile(ctx, 100, 100).unwrap();
    let (eval, _) = programs(&inter);
    let instrs = &eval.base.instructions;
    assert!(with_op(instrs, Op::PerpendicularThrough).is_empty());
    let lines = with_op(instrs, Op::LineFromPoints);
    let pars = with_op(instrs, Op::ParallelThrough);
    assert_eq!(lines.len(), 1);
    assert_eq!(pars.len(), 1);
    // `z` is reached first (entity 0), then `p` (entity 1); the dropped line's `x` is no
    // adjustable.
    assert_eq!(pars[0].params, vec![1, lines[0].target]);
    assert_eq!(eval.adjustables.len(), 4);
}

#[test]
fn difference_takes_three_instructions() {
    let reals = vec![EntityKind::FreeReal, EntityKind::FreeReal, EntityKind::FreeReal];
    let sum = ExprKind::Sum { plus: vec![0], minus: vec![1, 2] };
    let inter = by_hand(
        vec![entity(0), entity(1), entity(2), Expr::new(sum)],
        reals,
        vec![rule(RuleKind::NumberEq(3, 0), vec![0, 1, 2])],
    );
    let (eval, _) = programs(&inter);
    let instrs = &eval.base.instructions;
    assert_eq!(instrs.len(), 4);
    let t = 4;
    assert_eq!((instrs[0].op, instrs[0].params.clone(), instrs[0].target), (Op::Sum, vec![1, 2], t));
    assert_eq!((instrs[1].op, instrs[1].params.clone(), instrs[1].target), (Op::Negation, vec![t], t));
    assert_eq!((instrs[2].op, instrs[2].params.clone(), instrs[2].target), (Op::Sum, vec![t, 0], t));
    assert_eq!((instrs[3].op, instrs[3].params.clone(), instrs[3].target), (Op::EqualReal, vec![t, 0], 3));
}

#[test]
fn quotient_raises_divisors_to_minus_one() {
    let reals = vec![EntityKind::FreeReal, EntityKind::FreeReal];
    let product = ExprKind::Product { times: vec![0], by: vec![1] };
    let inter = by_hand(
        vec![entity(0), entity(1), Expr::new(product)],
        reals,
        vec![rule(RuleKind::NumberEq(2, 0), vec![0, 1])],
    );
    let (eval, _) = programs(&inter);
    let instrs = &eval.base.instructions;
    assert_eq!(instrs[0].op, Op::PartialProduct);
    assert_eq!(instrs[1].op, Op::Pow { exponent: ProcNum::new(-1, 1) });
    assert_eq!(instrs[2].op, Op::PartialProduct);
    assert_eq!(instrs[2].params, vec![instrs[0].target, 0]);
}

#[test]
fn alternative_children_use_main_slots() {
    let reals = vec![EntityKind::FreeReal, EntityKind::FreeReal];
    let alt = RuleKind::Alternative(vec![RuleKind::Lt(0, 1), RuleKind::Gt(0, 1)]);
    let inter = by_hand(vec![entity(0), entity(1)], reals, vec![rule(alt, vec![0, 1])]);
    let (eval, _) = programs(&inter);
    let instrs = &eval.base.instructions;
    assert_eq!(instrs.len(), 3);
    assert_eq!((instrs[0].op, instrs[0].params.clone(), instrs[0].target), (Op::Less, vec![0, 1], 3));
    assert_eq!((instrs[1].op, instrs[1].params.clone(), instrs[1].target), (Op::Greater, vec![0, 1], 4));
    assert_eq!((instrs[2].op, instrs[2].params.clone(), instrs[2].target), (Op::MaxReal, vec![3, 4], 2));
    assert_eq!(with_op(instrs, Op::MaxReal).len(), 1);
    assert_eq!(eval.rule_count, 1);
    assert_eq!(eval.base.req_memory_size, 5);
}

#[test]
fn shared_node_compiles_to_one_slot() {
    let mut ctx = CompileContext::new();
    let a = ctx.free_point();
    ctx.point_eq(a, a, false);
    let inter = compile(ctx, 100, 100).unwrap();
    let (eval, _) = programs(&inter);
    let eqs = with_op(&eval.base.instructions, Op::EqualComplex);
    assert_eq!(eqs.len(), 1);
    assert_eq!(eqs[0].params[0], eqs[0].params[1]);
    assert_eq!(eval.weights, vec![ProcNum::new(1, 1)]);
}

#[test]
fn inverted_rule_inverts_in_place() {
    let mut ctx = CompileContext::new();
    let a = ctx.free_point();
    let b = ctx.free_point();
    ctx.point_eq(a, b, true);
    let inter = compile(ctx, 100, 100).unwrap();
    let (eval, _) = programs(&inter);
    let instrs = &eval.base.instructions;
    assert_eq!(instrs.len(), 2);
    assert_eq!(instrs[1].op, Op::InvertQuality);
    assert_eq!(instrs[1].params, vec![instrs[0].target]);
    assert_eq!(instrs[1].target, instrs[0].target);
}

#[test]
fn operands_lie_below_memory_size() {
    let mut ctx = CompileContext::new();
    let a = ctx.free_point();
    let b = ctx.free_point();
    let c = ctx.free_point();
    let l = ctx.line(a, b);
    let k = ctx.parallel_through(l, c);
    let avg = ctx.average_p(vec![a, b, c]);
    let d = ctx.distance_pl(avg, k);
    let e = ctx.angle_ppp(a, b, c);
    let s = ctx.add(d, e);
    let two = ctx.number(ProcNum::from_integer(2), ComplexUnit::scalar());
    ctx.gt(s, two, false);
    let inter = compile(ctx, 100, 100).unwrap();
    let (eval, fig) = programs(&inter);
    for program in [&eval.base, &fig.base] {
        for instr in &program.instructions {
            assert!(instr.target < program.req_memory_size);
            assert!(instr.target >= program.constants.len());
            for p in &instr.params {
                assert!(*p < program.req_memory_size);
            }
        }
    }
    assert!(eval.base.req_memory_size >= eval.base.constants.len() + eval.rule_count);
    assert!(eval.base.constants.len() >= eval.adjustables.len());
}

#[test]
fn weights_of_a_rule_add_up_to_one() {
    let reals = vec![EntityKind::FreeReal; 4];
    let inter = by_hand(
        vec![entity(0), entity(1), entity(2)],
        reals,
        vec![rule(RuleKind::NumberEq(0, 1), vec![0, 2, 3]), rule(RuleKind::Bias, vec![])],
    );
    let (eval, _) = programs(&inter);
    let third = ProcNum::new(1, 3);
    let zero = ProcNum::zero();
    assert_eq!(eval.weights, vec![third, zero, third, third, zero, zero, zero, zero]);
    assert_eq!(eval.biases, vec![eval.base.constants.len() + 1]);
}

#[test]
fn compiling_twice_gives_the_same_programs() {
    let mut ctx = CompileContext::new();
    let a = ctx.free_point();
    let b = ctx.free_point();
    let r = ctx.free_scalar();
    let c = ctx.circle(a, r);
    ctx.point_on_circle(b, c, ProcNum::one());
    let inter = compile(ctx, 100, 100).unwrap();
    let (e1, f1) = programs(&inter);
    let (e2, f2) = programs(&inter);
    assert_eq!(format!("{:?}", e1), format!("{:?}", e2));
    assert_eq!(format!("{:?}", f1), format!("{:?}", f2));
}

#[test]
fn figure_does_not_change_the_evaluate_program() {
    let reals = vec![EntityKind::FreeReal, EntityKind::FreeReal];
    let mut one = by_hand(vec![entity(0), entity(1)], reals.clone(), vec![rule(RuleKind::Lt(0, 1), vec![0, 1])]);
    let two = by_hand(vec![entity(0), entity(1)], reals.clone(), vec![rule(RuleKind::Lt(0, 1), vec![0, 1])]);
    one.figure = Figure {
        variables: vec![entity(0), entity(1), Expr::new(ExprKind::Sum { plus: vec![0, 1], minus: vec![] })],
        entities: reals,
        items: vec![FigureItem { var: 2, label: String::from("s") }],
        canvas_width: 10,
        canvas_height: 10,
    };
    let (e1, f1) = programs(&one);
    let (e2, _) = programs(&two);
    assert_eq!(format!("{:?}", e1), format!("{:?}", e2));
    assert_eq!(f1.variables.len(), 3);
}

#[test]
fn no_rules_no_weights() {
    let inter = by_hand(vec![entity(0)], vec![EntityKind::FreePoint], vec![]);
    let (eval, _) = programs(&inter);
    assert_eq!(eval.rule_count, 0);
    assert!(eval.weights.is_empty());
    assert!(eval.base.instructions.is_empty());
    assert_eq!(eval.base.req_memory_size, eval.base.constants.len());
}

#[test]
fn no_entities_starts_at_the_constants() {
    let one = ProcNum::one();
    let two = ProcNum::from_integer(2);
    let inter = by_hand(
        vec![Expr::new(ExprKind::Const { value: one }), Expr::new(ExprKind::Const { value: two })],
        vec![],
        vec![rule(RuleKind::Lt(0, 1), vec![])],
    );
    let (eval, _) = programs(&inter);
    assert!(eval.adjustables.is_empty());
    assert_eq!(eval.base.constants, vec![one, two]);
    assert_eq!(eval.base.instructions[0].target, eval.base.constants.len());
    assert_eq!(eval.base.instructions[0].params, vec![0, 1]);
    assert!(eval.weights.is_empty());
}

#[test]
fn one_rule_one_entity_gets_full_weight() {
    let inter = by_hand(vec![entity(0)], vec![EntityKind::FreeReal], vec![rule(RuleKind::Gt(0, 0), vec![0])]);
    let (eval, _) = programs(&inter);
    assert_eq!(eval.weights, vec![ProcNum::new(1, 1)]);
    assert_eq!(eval.adjustables, vec![AdjustableTemplate::Real]);
}

#[test]
fn equal_constants_share_a_slot() {
    let half = ProcNum::new(1, 2);
    let also_half = ProcNum::new(2, 4);
    let inter = by_hand(
        vec![Expr::new(ExprKind::Const { value: half }), Expr::new(ExprKind::Const { value: also_half })],
        vec![],
        vec![rule(RuleKind::NumberEq(0, 1), vec![])],
    );
    let (eval, _) = programs(&inter);
    assert_eq!(eval.base.constants, vec![half]);
    assert_eq!(eval.base.instructions[0].params, vec![0, 0]);
}

#[test]
fn figure_aliases_share_slots() {
    let mut ctx = CompileContext::new();
    let p = ctx.free_point();
    let r = ctx.free_scalar();
    let c = ctx.circle(p, r);
    let center = ctx.circle_center(c);
    let x = ctx.point_x(p);
    let y = ctx.point_y(p);
    ctx.lt(x, y, false);
    ctx.shown.push(geo_aid::unroll::Shown { node: center, label: String::from("O") });
    let inter = compile(ctx, 100, 100).unwrap();
    let (_, fig) = programs(&inter);
    let vars = &inter.figure.variables;
    for (i, v) in vars.iter().enumerate() {
        match &v.kind {
            ExprKind::CircleCenter { circle } => assert_eq!(fig.variables[i].1, fig.variables[*circle].1),
            ExprKind::PointX { point } => {
                assert_eq!(fig.variables[i].1, fig.variables[*point].1);
                assert_eq!(fig.variables[i].0, ValueType::Real);
            }
            _ => {}
        }
    }
    let item = &inter.figure.items[0];
    assert_eq!(fig.variables[item.var].1, fig.variables[0].1);
    assert_eq!(fig.variables[0].0, ValueType::Complex);
    assert_eq!(with_op(&fig.base.instructions, Op::SwapParts).len(), 1);
}

#[test]
fn points_on_lines_and_circles_are_clipped() {
    let mut ctx = CompileContext::new();
    let a = ctx.free_point();
    let b = ctx.free_point();
    let l = ctx.line(a, b);
    let p = ctx.point_on_line_free(l);
    let r = ctx.free_scalar();
    let c = ctx.circle(a, r);
    let q = ctx.point_on_circle_free(c);
    ctx.point_eq(p, q, false);
    let inter = compile(ctx, 100, 100).unwrap();
    let (eval, _) = programs(&inter);
    let on_line = with_op(&eval.base.instructions, Op::OnLine);
    let on_circle = with_op(&eval.base.instructions, Op::OnCircle);
    assert_eq!(on_line.len(), 1);
    assert_eq!(on_circle.len(), 1);
    assert!(matches!(eval.adjustables[2], AdjustableTemplate::OnLine(_)));
    assert_eq!(on_line[0].params[1], 2);
    assert_eq!(on_circle[0].params[1], 4);
}

#[test]
fn unreached_free_figure_entity_keeps_its_slot() {
    let inter = Intermediate {
        figure: Figure {
            variables: Vec::new(),
            entities: vec![EntityKind::FreeReal, EntityKind::FreePoint],
            items: Vec::new(),
            canvas_width: 10,
            canvas_height: 10,
        },
        adjusted: Adjusted { variables: Vec::new(), entities: Vec::new(), rules: Vec::new() },
    };
    let (_, fig) = programs(&inter);
    assert_eq!(fig.entities, vec![(ValueType::Real, 0), (ValueType::Complex, 1)]);
}
