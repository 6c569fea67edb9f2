use geo_aid::math::{load_script, Expand, ExprKind, RuleKind};
use geo_aid::number::ProcNum;
use geo_aid::script::{compile, fix_distance, read_flags, DistanceLiterals, Error, FlagSet};
use geo_aid::unroll::{Any, CompileContext, ComplexUnit, Properties, ScalarData, UnrolledRuleKind};

fn flags(mode: &str) -> FlagSet {
    FlagSet { distance_literals: String::from(mode), identical_expressions: true, point_bounds: false }
}

#[test]
fn flags_are_read() {
    let f = read_flags(&flags("adjust")).unwrap();
    assert_eq!(f.distance_literals, DistanceLiterals::Adjust);
    assert_eq!(read_flags(&flags("none")).unwrap().distance_literals, DistanceLiterals::Disabled);
    assert_eq!(read_flags(&flags("solve")).unwrap().distance_literals, DistanceLiterals::Solve);
}

#[test]
fn unknown_flag_value_is_refused() {
    match read_flags(&flags("maybe")) {
        Err(Error::FlagEnumInvalidValue { flag_name, received_value }) => {
            assert_eq!(flag_name, "distance_literals");
            assert_eq!(received_value, "maybe");
        }
        other => panic!("unexpected {:?}", other),
    }
}

fn with_distance_literal(mode: &str) -> CompileContext {
    let mut ctx = CompileContext::new();
    ctx.flags = flags(mode);
    let a = ctx.free_point();
    let b = ctx.free_point();
    let d = ctx.distance_pp(a, b);
    let three = ctx.number(ProcNum::from_integer(3), ComplexUnit::distance());
    ctx.scalar_eq(d, three, false);
    ctx
}

#[test]
fn distance_literal_needs_a_flag() {
    match compile(with_distance_literal("none"), 10, 10) {
        Err(Error::RequiredFlagNotSet { flag_name }) => assert_eq!(flag_name, "distance_literals"),
        other => panic!("unexpected {:?}", other.is_ok()),
    }
}

#[test]
fn solving_distances_is_not_supported() {
    match compile(with_distance_literal("solve"), 10, 10) {
        Err(Error::FeatureNotSupported { feature_name }) => assert_eq!(feature_name, "solve_distance"),
        other => panic!("unexpected {:?}", other.is_ok()),
    }
}

#[test]
fn adjusted_distance_adds_a_unit_and_a_bias() {
    let inter = compile(with_distance_literal("adjust"), 10, 10).unwrap();
    let rules = &inter.adjusted.rules;
    assert_eq!(rules.len(), 2);
    assert!(matches!(rules[1].kind, RuleKind::Bias));
    assert_eq!(inter.adjusted.entities.len(), 3);
    let scaled = inter.adjusted.variables.iter().any(|v| match &v.kind {
        ExprKind::Product { times, by } => times.len() == 2 && by.is_empty() && times[1] == 0,
        _ => false,
    });
    assert!(scaled);
}

#[test]
fn literals_without_units_need_no_flag() {
    let mut ctx = CompileContext::new();
    let a = ctx.free_scalar();
    let two = ctx.number(ProcNum::from_integer(2), ComplexUnit::scalar());
    ctx.lt(a, two, false);
    let inter = compile(ctx, 10, 10).unwrap();
    assert_eq!(inter.adjusted.rules.len(), 1);
    assert_eq!(inter.figure.canvas_width, 10);
}

#[test]
fn loading_a_node_twice_gives_one_entry() {
    let mut ctx = CompileContext::new();
    let a = ctx.free_point();
    let b = ctx.free_point();
    let l = ctx.line(a, b);
    let mut math = Expand::new(ctx.nodes.len());
    let first = math.load(&ctx.nodes, l);
    let other = math.load(&ctx.nodes, a);
    let again = math.load(&ctx.nodes, l);
    assert_eq!(first, again);
    assert_eq!(math.record.len(), 3);
    assert_eq!(math.record[first].uses, 2);
    assert_eq!(math.record[other].uses, 2);
    assert_eq!(math.entities.len(), 2);
}

#[test]
fn parallel_of_parallel_is_one_parallel() {
    let mut ctx = CompileContext::new();
    let a = ctx.free_point();
    let b = ctx.free_point();
    let p = ctx.free_point();
    let q = ctx.free_point();
    let l = ctx.line(a, b);
    let k = ctx.parallel_through(l, p);
    let m = ctx.parallel_through(k, q);
    let n = ctx.perpendicular_through(k, q);
    let mut math = Expand::new(ctx.nodes.len());
    let lm = math.load(&ctx.nodes, m);
    let ln = math.load(&ctx.nodes, n);
    let line = math.load(&ctx.nodes, l);
    let point = math.load(&ctx.nodes, q);
    assert_eq!(math.record[lm].expr.kind, ExprKind::ParallelThrough { point, line });
    assert_eq!(math.record[ln].expr.kind, ExprKind::PerpendicularThrough { point, line });
}

#[test]
fn subtraction_and_average_expand() {
    let mut ctx = CompileContext::new();
    let a = ctx.free_scalar();
    let b = ctx.free_scalar();
    let d = ctx.sub(a, b);
    let avg = ctx.average_s(vec![a, b]);
    let q = ctx.div(a, b);
    let mut math = Expand::new(ctx.nodes.len());
    let ld = math.load(&ctx.nodes, d);
    assert_eq!(math.record[ld].expr.kind, ExprKind::Sum { plus: vec![0], minus: vec![1] });
    let lq = math.load(&ctx.nodes, q);
    assert_eq!(math.record[lq].expr.kind, ExprKind::Product { times: vec![0], by: vec![1] });
    let lavg = math.load(&ctx.nodes, avg);
    match &math.record[lavg].expr.kind {
        ExprKind::Product { times, by } => {
            assert_eq!(math.record[times[0]].expr.kind, ExprKind::Sum { plus: vec![0, 1], minus: vec![] });
            assert_eq!(math.record[by[0]].expr.kind, ExprKind::Const { value: ProcNum::from_integer(2) });
        }
        other => panic!("unexpected {:?}", other),
    }
}

#[test]
fn drawn_nodes_become_figure_items() {
    let mut ctx = CompileContext::new();
    let display = Properties { display: true, label: String::from("A"), weight: None };
    let a = ctx.free_point_display(display);
    let b = ctx.free_point();
    ctx.point_eq(a, b, true);
    let inter = load_script(&ctx, None, 20, 30);
    assert_eq!(inter.figure.items.len(), 1);
    assert_eq!(inter.figure.items[0].label, "A");
    assert_eq!(inter.figure.canvas_height, 30);
    assert!(matches!(inter.adjusted.rules[0].kind, RuleKind::Invert(_)));
    assert_eq!(inter.adjusted.rules[0].entities, vec![0, 1]);
}

#[test]
fn fixing_distance_multiplies_and_divides() {
    let mut ctx = CompileContext::new();
    let x = ctx.free_scalar();
    let dst = ctx.free_scalar();
    let up = fix_distance(&mut ctx, x, 2, dst);
    assert_eq!(ctx.nodes.len(), 4);
    match &ctx.nodes[up] {
        Any::Scalar(s) => assert_eq!(s.data, ScalarData::Multiply(up - 1, dst)),
        _ => panic!("not a scalar"),
    }
    match &ctx.nodes[up - 1] {
        Any::Scalar(s) => assert_eq!(s.data, ScalarData::Multiply(x, dst)),
        _ => panic!("not a scalar"),
    }
    let down = fix_distance(&mut ctx, x, -1, dst);
    match &ctx.nodes[down] {
        Any::Scalar(s) => assert_eq!(s.data, ScalarData::Divide(x, dst)),
        _ => panic!("not a scalar"),
    }
    assert_eq!(fix_distance(&mut ctx, x, 0, dst), x);
}

#[test]
fn context_collects_errors() {
    let mut ctx = CompileContext::new();
    assert!(ctx.valid());
    let kept: Option<u32> = ctx.ok(Ok(3));
    assert_eq!(kept, Some(3));
    let lost: Option<u32> = ctx.ok(Err(Error::RequiredFlagNotSet { flag_name: String::from("f") }));
    assert_eq!(lost, None);
    assert!(!ctx.valid());
    ctx.extend_errors(vec![Error::FeatureNotSupported { feature_name: String::from("g") }]);
    ctx.push_error(Error::RequiredFlagNotSet { flag_name: String::from("h") });
    let errs = ctx.take_errors();
    assert_eq!(errs.len(), 3);
    assert!(ctx.valid());
}

#[test]
fn rules_are_taken_with_their_weights() {
    let mut ctx = CompileContext::new();
    let a = ctx.free_point();
    let l = ctx.free_point();
    let b = ctx.free_point();
    let line = ctx.line(l, b);
    ctx.point_on_line(a, line, ProcNum::from_integer(5));
    let display = Properties { display: false, label: String::new(), weight: Some(ProcNum::from_integer(7)) };
    ctx.rule_with(UnrolledRuleKind::PointEq(a, b), false, display, ProcNum::one());
    let rules = ctx.take_rules();
    assert_eq!(rules.len(), 2);
    assert_eq!(rules[0].weight, ProcNum::from_integer(5));
    assert_eq!(rules[1].weight, ProcNum::from_integer(7));
    assert!(ctx.rules.is_empty());
}

#[test]
fn value_equality_of_numbers() {
    assert!(ProcNum::new(1, 2).value_eq(&ProcNum::new(3, 6)));
    assert!(!ProcNum::new(1, 2).value_eq(&ProcNum::new(1, 3)));
    assert!(ProcNum::zero().value_eq(&ProcNum::new(0, 5)));
}

#[test]
fn set_unit_and_averages_of_points() {
    let mut ctx = CompileContext::new();
    let a = ctx.free_point();
    let b = ctx.free_point();
    let avg = ctx.average_p(vec![a, b]);
    let s = ctx.free_scalar();
    let u = ctx.set_unit(s, ComplexUnit::distance());
    let mut math = Expand::new(ctx.nodes.len());
    let lu = math.load(&ctx.nodes, u);
    let ls = math.load(&ctx.nodes, s);
    assert_eq!(lu, ls);
    let lavg = math.load(&ctx.nodes, avg);
    assert_eq!(math.record[lavg].expr.kind, ExprKind::AveragePoint { items: vec![1, 2] });
}

#[test]
fn solve_is_refused_without_distance_literals() {
    let mut ctx = CompileContext::new();
    ctx.flags = flags("solve");
    let a = ctx.free_point();
    let b = ctx.free_point();
    ctx.point_eq(a, b, false);
    match compile(ctx, 10, 10) {
        Err(Error::FeatureNotSupported { feature_name }) => assert_eq!(feature_name, "solve_distance"),
        other => panic!("unexpected {:?}", other.is_ok()),
    }
}

#[test]
fn repeat_load_counts_uses_and_leaves_circle_unloaded() {
    let mut ctx = CompileContext::new();
    let p = ctx.free_point();
    let r = ctx.free_scalar();
    let c = ctx.circle(p, r);
    let center = ctx.circle_center(c);
    let mut math = Expand::new(ctx.nodes.len());
    let first = math.load(&ctx.nodes, center);
    assert_eq!(math.expr_map[c], usize::MAX);
    assert_eq!(math.record.len(), 1);
    assert_eq!(math.entities.len(), 1);
    let again = math.load(&ctx.nodes, p);
    assert_eq!(first, again);
    assert_eq!(math.record[first].uses, 2);
    assert_eq!(math.record.len(), 1);
}

#[test]
fn dropped_chain_lines_get_no_entry() {
    let mut ctx = CompileContext::new();
    let a = ctx.free_point();
    let b = ctx.free_point();
    let l = ctx.line(a, b);
    let x = ctx.free_point();
    let y = ctx.free_point();
    let k = ctx.perpendicular_through(l, x);
    let j = ctx.parallel_through(k, y);
    let p = ctx.free_point();
    let m = ctx.perpendicular_through(j, p);
    let mut math = Expand::new(ctx.nodes.len());
    let lm = math.load(&ctx.nodes, m);
    for dropped in [k, j, x, y] {
        assert_eq!(math.expr_map[dropped], usize::MAX);
    }
    let line = math.expr_map[l];
    let point = math.expr_map[p];
    assert_eq!(math.record[lm].expr.kind, ExprKind::ParallelThrough { point, line });
    assert_eq!(math.entities.len(), 3);
    assert_eq!(math.record[lm].uses, 1);
    assert_eq!(lm, math.record.len() - 1);
}

#[test]
fn well_formedness_checks() {
    let mut ctx = CompileContext::new();
    let a = ctx.free_point();
    let b = ctx.free_point();
    ctx.point_eq(a, b, false);
    assert!(ctx.is_well_formed());
    let inter = compile(ctx, 10, 10).unwrap();
    assert!(inter.is_well_formed());
    let mut bad = CompileContext::new();
    bad.nodes.push(Any::Line(geo_aid::unroll::Line::LineFromPoints(0, 1)));
    assert!(!bad.is_well_formed());
    let mut broken = compile(CompileContext::new(), 10, 10).unwrap();
    broken.adjusted.variables.push(geo_aid::math::Expr::new(ExprKind::PointX { point: 3 }));
    assert!(!broken.is_well_formed());
}

#[test]
fn rule_entities_follow_defining_lines() {
    let mut ctx = CompileContext::new();
    let unused = ctx.free_point();
    let a = ctx.free_point();
    let b = ctx.free_point();
    let l = ctx.line(a, b);
    let q = ctx.point_on_line_free(l);
    let c = ctx.free_point();
    ctx.point_eq(q, c, false);
    ctx.shown.push(geo_aid::unroll::Shown { node: unused, label: String::from("U") });
    let inter = compile(ctx, 10, 10).unwrap();
    // q's line brings in a and b; the drawn-only point is in no rule.
    assert_eq!(inter.adjusted.entities.len(), 5);
    assert_eq!(inter.adjusted.rules[0].entities, vec![0, 1, 2, 3]);
}
