use vstd::prelude::*;

use crate::number::ProcNum;
use crate::script::{Error, FlagSet};

verus! {

/// A unit: the powers of distance and of angle.
#[derive(Debug, Clone, Copy, PartialEq, Eq, Structural)]
pub struct ComplexUnit {
    pub distance: i8,
    pub angle: i8,
}

impl ComplexUnit {
    /// No unit.
    pub fn scalar() -> (r: ComplexUnit)
        ensures
            r.distance == 0 && r.angle == 0,
    {
        ComplexUnit { distance: 0, angle: 0 }
    }

    /// A distance.
    pub fn distance() -> (r: ComplexUnit)
        ensures
            r.distance == 1 && r.angle == 0,
    {
        ComplexUnit { distance: 1, angle: 0 }
    }

    /// An angle.
    pub fn angle() -> (r: ComplexUnit)
        ensures
            r.distance == 0 && r.angle == 1,
    {
        ComplexUnit { distance: 0, angle: 1 }
    }
}

/// A point of the unrolled script. Operands are node indices.
#[derive(Debug, Clone, PartialEq, Eq)]
pub enum Point {
    Free,
    Average(Vec<usize>),
    LineLineIntersection(usize, usize),
    CircleCenter(usize),
    /// A free point on a line.
    OnLine(usize),
    /// A free point on a circle.
    OnCircle(usize),
}

/// A line of the unrolled script.
#[derive(Debug, Clone, PartialEq, Eq)]
pub enum Line {
    LineFromPoints(usize, usize),
    AngleBisector(usize, usize, usize),
    /// `(line, point)`
    ParallelThrough(usize, usize),
    /// `(line, point)`
    PerpendicularThrough(usize, usize),
}

/// A circle of the unrolled script: `(center, radius)`.
#[derive(Debug, Clone, PartialEq, Eq)]
pub enum Circle {
    Circle(usize, usize),
}

/// What a scalar of the unrolled script is.
#[derive(Debug, Clone, PartialEq, Eq)]
pub enum ScalarData {
    Free,
    Number(ProcNum),
    Add(usize, usize),
    Subtract(usize, usize),
    Multiply(usize, usize),
    Divide(usize, usize),
    Average(Vec<usize>),
    SetUnit(usize, ComplexUnit),
    PointPointDistance(usize, usize),
    PointLineDistance(usize, usize),
    ThreePointAngle(usize, usize, usize),
    ThreePointAngleDir(usize, usize, usize),
    TwoLineAngle(usize, usize),
    CircleRadius(usize),
    PointX(usize),
    PointY(usize),
}

/// A scalar of the unrolled script, with its unit when known.
#[derive(Debug, Clone, PartialEq, Eq)]
pub struct Scalar {
    pub unit: Option<ComplexUnit>,
    pub data: ScalarData,
}

/// A node of the unrolled script.
#[derive(Debug, Clone, PartialEq, Eq)]
pub enum Any {
    Point(Point),
    Line(Line),
    Circle(Circle),
    Scalar(Scalar),
}

/// What an unrolled rule demands. Operands are node indices.
#[derive(Debug, Clone, Copy, PartialEq, Eq, Structural)]
pub enum UnrolledRuleKind {
    PointEq(usize, usize),
    ScalarEq(usize, usize),
    Gt(usize, usize),
    Lt(usize, usize),
    /// A constant penalty on the scalar node.
    Bias(usize),
}

/// A rule of the unrolled script.
#[derive(Debug, Clone, Copy, PartialEq, Eq, Structural)]
pub struct UnrolledRule {
    pub kind: UnrolledRuleKind,
    pub inverted: bool,
    pub weight: ProcNum,
}

/// Display options of a node.
#[derive(Debug, Clone, PartialEq, Eq)]
pub struct Properties {
    /// Whether the node is drawn.
    pub display: bool,
    pub label: String,
    /// The weight of a rule, when given.
    pub weight: Option<ProcNum>,
}

impl Properties {
    /// Not drawn, no label, no weight.
    pub fn hidden() -> (r: Properties)
        ensures
            !r.display,
            r.label@ == Seq::<char>::empty(),
            r.weight is None,
    {
        Properties { display: false, label: String::new(), weight: None }
    }
}

/// A node to draw, with its label.
#[derive(Debug, Clone, PartialEq, Eq)]
pub struct Shown {
    pub node: usize,
    pub label: String,
}

pub open spec fn is_point(nodes: Seq<Any>, j: int) -> bool {
    0 <= j < nodes.len() && nodes[j] is Point
}

pub open spec fn is_line(nodes: Seq<Any>, j: int) -> bool {
    0 <= j < nodes.len() && nodes[j] is Line
}

pub open spec fn is_circle(nodes: Seq<Any>, j: int) -> bool {
    0 <= j < nodes.len() && nodes[j] is Circle
}

pub open spec fn is_scalar(nodes: Seq<Any>, j: int) -> bool {
    0 <= j < nodes.len() && nodes[j] is Scalar
}

/// Every node of `s` is a point before `i`.
pub open spec fn points_before(nodes: Seq<Any>, s: Seq<usize>, i: int) -> bool {
    forall|k: int| 0 <= k < s.len() ==> #[trigger] s[k] < i && is_point(nodes, s[k] as int)
}

/// Every node of `s` is a scalar before `i`.
pub open spec fn scalars_before(nodes: Seq<Any>, s: Seq<usize>, i: int) -> bool {
    forall|k: int| 0 <= k < s.len() ==> #[trigger] s[k] < i && is_scalar(nodes, s[k] as int)
}

/// Node `i` refers to earlier nodes of the right kinds.
pub open spec fn node_wf(nodes: Seq<Any>, i: int) -> bool {
    let p = |j: usize| j < i && is_point(nodes, j as int);
    let l = |j: usize| j < i && is_line(nodes, j as int);
    let c = |j: usize| j < i && is_circle(nodes, j as int);
    let s = |j: usize| j < i && is_scalar(nodes, j as int);
    match nodes[i] {
        Any::Point(pt) => match pt {
            Point::Free => true,
            Point::Average(items) => items.len() > 0 && points_before(nodes, items@, i),
            Point::LineLineIntersection(a, b) => l(a) && l(b),
            Point::CircleCenter(a) => c(a),
            Point::OnLine(a) => l(a),
            Point::OnCircle(a) => c(a),
        },
        Any::Line(ln) => match ln {
            Line::LineFromPoints(a, b) => p(a) && p(b),
            Line::AngleBisector(a, b, d) => p(a) && p(b) && p(d),
            Line::ParallelThrough(a, b) => l(a) && p(b),
            Line::PerpendicularThrough(a, b) => l(a) && p(b),
        },
        Any::Circle(Circle::Circle(a, b)) => p(a) && s(b),
        Any::Scalar(sc) => match sc.data {
            ScalarData::Free => true,
            ScalarData::Number(v) => v.wf(),
            ScalarData::Add(a, b) => s(a) && s(b),
            ScalarData::Subtract(a, b) => s(a) && s(b),
            ScalarData::Multiply(a, b) => s(a) && s(b),
            ScalarData::Divide(a, b) => s(a) && s(b),
            ScalarData::Average(items) => items.len() > 0 && scalars_before(nodes, items@, i),
            ScalarData::SetUnit(a, _) => s(a),
            ScalarData::PointPointDistance(a, b) => p(a) && p(b),
            ScalarData::PointLineDistance(a, b) => p(a) && l(b),
            ScalarData::ThreePointAngle(a, b, d) => p(a) && p(b) && p(d),
            ScalarData::ThreePointAngleDir(a, b, d) => p(a) && p(b) && p(d),
            ScalarData::TwoLineAngle(a, b) => l(a) && l(b),
            ScalarData::CircleRadius(a) => c(a),
            ScalarData::PointX(a) => p(a),
            ScalarData::PointY(a) => p(a),
        },
    }
}

/// The nodes form a DAG listed operands first, each operand of the right kind.
pub open spec fn nodes_wf(nodes: Seq<Any>) -> bool {
    forall|i: int| 0 <= i < nodes.len() ==> #[trigger] node_wf(nodes, i)
}

/// A rule compares nodes of the right kinds.
pub open spec fn unrolled_rule_wf(nodes: Seq<Any>, r: UnrolledRule) -> bool {
    match r.kind {
        UnrolledRuleKind::PointEq(a, b) => is_point(nodes, a as int) && is_point(nodes, b as int),
        UnrolledRuleKind::ScalarEq(a, b) => is_scalar(nodes, a as int) && is_scalar(nodes, b as int),
        UnrolledRuleKind::Gt(a, b) => is_scalar(nodes, a as int) && is_scalar(nodes, b as int),
        UnrolledRuleKind::Lt(a, b) => is_scalar(nodes, a as int) && is_scalar(nodes, b as int),
        UnrolledRuleKind::Bias(a) => is_scalar(nodes, a as int),
    }
}

proof fn lemma_push_keeps_wf(nodes: Seq<Any>, x: Any)
    requires
        nodes_wf(nodes),
        node_wf(nodes.push(x), nodes.len() as int),
    ensures
        nodes_wf(nodes.push(x)),
{
    let ns = nodes.push(x);
    assert forall|i: int| 0 <= i < ns.len() implies #[trigger] node_wf(ns, i) by {
        if i < nodes.len() {
            assert(node_wf(nodes, i));
            assert forall|j: int| 0 <= j < i implies ns[j] == nodes[j] by {}
        }
    }
}


/// The context the unroll step fills: the node DAG, the rules, the drawn nodes, flags and
/// errors.
#[derive(Debug)]
pub struct CompileContext {
    /// The nodes; a node's operands come before it.
    pub nodes: Vec<Any>,
    /// The nodes to draw.
    pub shown: Vec<Shown>,
    pub flags: FlagSet,
    pub rules: Vec<UnrolledRule>,
    pub errors: Vec<Error>,
}

impl CompileContext {
    /// The errors collected so far.
    pub open spec fn errors(&self) -> Seq<Error> {
        self.errors@
    }

    /// The nodes form a DAG of well-kinded operands; drawn nodes and rules refer to nodes.
    pub open spec fn wf(&self) -> bool {
        &&& nodes_wf(self.nodes@)
        &&& forall|i: int|
            0 <= i < self.shown.len() ==> #[trigger] self.shown@[i].node < self.nodes.len()
        &&& forall|i: int|
            0 <= i < self.rules.len() ==> unrolled_rule_wf(self.nodes@, #[trigger] self.rules@[i])
    }

    /// Only `nodes` and `shown` may have grown.
    pub open spec fn same_rest(&self, other: &CompileContext) -> bool {
        &&& self.flags == other.flags
        &&& self.rules@ == other.rules@
        &&& self.errors() == other.errors()
    }

    /// An empty context with the standard flags.
    pub fn new() -> (r: CompileContext)
        ensures
            r.wf(),
            r.nodes@.len() == 0,
            r.shown@.len() == 0,
            r.rules@.len() == 0,
            r.errors().len() == 0,
            r.flags.distance_literals@ == "none"@,
            r.flags.identical_expressions,
            !r.flags.point_bounds,
    {
        CompileContext {
            nodes: Vec::new(),
            shown: Vec::new(),
            flags: FlagSet::standard(),
            rules: Vec::new(),
            errors: Vec::new(),
        }
    }

    /// Records an error.
    pub fn push_error(&mut self, err: Error)
        ensures
            final(self).errors() == old(self).errors().push(err),
            final(self).nodes@ == old(self).nodes@,
            final(self).shown@ == old(self).shown@,
            final(self).rules@ == old(self).rules@,
            final(self).flags == old(self).flags,
    {
        self.errors.push(err);
    }

    /// The value of `res`, or `None` after recording its error.
    pub fn ok<T>(&mut self, res: Result<T, Error>) -> (r: Option<T>)
        ensures
            match res {
                Ok(v) => r == Some(v) && final(self).errors() == old(self).errors(),
                Err(e) => r is None && final(self).errors() == old(self).errors().push(e),
            },
            final(self).nodes@ == old(self).nodes@,
            final(self).shown@ == old(self).shown@,
            final(self).rules@ == old(self).rules@,
            final(self).flags == old(self).flags,
    {
        match res {
            Ok(v) => Some(v),
            Err(err) => {
                self.push_error(err);
                None
            },
        }
    }

    /// Takes the errors out, leaving none.
    pub fn take_errors(&mut self) -> (r: Vec<Error>)
        ensures
            r@ == old(self).errors(),
            final(self).errors().len() == 0,
            final(self).nodes@ == old(self).nodes@,
            final(self).shown@ == old(self).shown@,
            final(self).rules@ == old(self).rules@,
            final(self).flags == old(self).flags,
    {
        let mut taken: Vec<Error> = Vec::new();
        std::mem::swap(&mut taken, &mut self.errors);
        taken
    }

    /// Records several errors, in order.
    pub fn extend_errors(&mut self, errs: Vec<Error>)
        ensures
            final(self).errors() == old(self).errors() + errs@,
            final(self).nodes@ == old(self).nodes@,
            final(self).shown@ == old(self).shown@,
            final(self).rules@ == old(self).rules@,
            final(self).flags == old(self).flags,
    {
        let mut errs = errs;
        self.errors.append(&mut errs);
    }

    /// Whether no error has been recorded.
    pub fn valid(&self) -> (r: bool)
        ensures
            r == (self.errors().len() == 0),
    {
        self.errors.len() == 0
    }

    /// Adds a rule.
    pub fn push_rule(&mut self, rule: UnrolledRule)
        requires
            old(self).wf(),
            unrolled_rule_wf(old(self).nodes@, rule),
        ensures
            final(self).wf(),
            final(self).rules@ == old(self).rules@.push(rule),
            final(self).nodes@ == old(self).nodes@,
            final(self).shown@ == old(self).shown@,
            final(self).errors() == old(self).errors(),
            final(self).flags == old(self).flags,
    {
        self.rules.push(rule);
    }

    /// Takes the rules out, leaving none.
    pub fn take_rules(&mut self) -> (r: Vec<UnrolledRule>)
        requires
            old(self).wf(),
        ensures
            final(self).wf(),
            r@ == old(self).rules@,
            final(self).rules@.len() == 0,
            final(self).nodes@ == old(self).nodes@,
            final(self).shown@ == old(self).shown@,
            final(self).errors() == old(self).errors(),
            final(self).flags == old(self).flags,
    {
        let mut taken: Vec<UnrolledRule> = Vec::new();
        std::mem::swap(&mut taken, &mut self.rules);
        taken
    }

    /// Adds a node, and draws it when `display` says so. Returns its index.
    pub fn expr_with(&mut self, content: Any, display: Properties) -> (r: usize)
        requires
            old(self).wf(),
            node_wf(old(self).nodes@.push(content), old(self).nodes.len() as int),
        ensures
            final(self).wf(),
            r == old(self).nodes.len(),
            final(self).nodes@ == old(self).nodes@.push(content),
            final(self).shown@ == if display.display {
                old(self).shown@.push(Shown { node: r, label: display.label })
            } else {
                old(self).shown@
            },
            final(self).same_rest(old(self)),
    {
        let r = self.nodes.len();
        proof {
            lemma_push_keeps_wf(self.nodes@, content);
        }
        self.nodes.push(content);
        if display.display {
            self.shown.push(Shown { node: r, label: display.label });
        }
        proof {
            assert forall|i: int| 0 <= i < self.rules.len() implies unrolled_rule_wf(
                self.nodes@,
                #[trigger] self.rules@[i],
            ) by {
                assert(unrolled_rule_wf(old(self).nodes@, self.rules@[i]));
            }
        }
        r
    }

    /// A free point, drawn as `display` says.
    pub fn free_point_display(&mut self, display: Properties) -> (r: usize)
        requires
            old(self).wf(),
        ensures
            final(self).wf(),
            r == old(self).nodes.len(),
            final(self).nodes@ == old(self).nodes@.push(Any::Point(Point::Free)),
            final(self).shown@ == if display.display {
                old(self).shown@.push(Shown { node: r, label: display.label })
            } else {
                old(self).shown@
            },
            final(self).same_rest(old(self)),
    {
        self.expr_with(Any::Point(Point::Free), display)
    }

    /// A free point.
    pub fn free_point(&mut self) -> (r: usize)
        requires
            old(self).wf(),
        ensures
            final(self).wf(),
            r == old(self).nodes.len(),
            final(self).nodes@ == old(self).nodes@.push(Any::Point(Point::Free)),
            final(self).shown@ == old(self).shown@,
            final(self).same_rest(old(self)),
    {
        self.expr_with(Any::Point(Point::Free), Properties::hidden())
    }

    /// A free scalar, drawn as `display` says.
    pub fn free_scalar_display(&mut self, display: Properties) -> (r: usize)
        requires
            old(self).wf(),
        ensures
            final(self).wf(),
            r == old(self).nodes.len(),
            final(self).nodes@ == old(self).nodes@.push(Any::Scalar(Scalar { unit: Some(ComplexUnit { distance: 0, angle: 0 }), data: ScalarData::Free })),
            final(self).shown@ == if display.display {
                old(self).shown@.push(Shown { node: r, label: display.label })
            } else {
                old(self).shown@
            },
            final(self).same_rest(old(self)),
    {
        self.expr_with(Any::Scalar(Scalar { unit: Some(ComplexUnit { distance: 0, angle: 0 }), data: ScalarData::Free }), display)
    }

    /// A free scalar.
    pub fn free_scalar(&mut self) -> (r: usize)
        requires
            old(self).wf(),
        ensures
            final(self).wf(),
            r == old(self).nodes.len(),
            final(self).nodes@ == old(self).nodes@.push(Any::Scalar(Scalar { unit: Some(ComplexUnit { distance: 0, angle: 0 }), data: ScalarData::Free })),
            final(self).shown@ == old(self).shown@,
            final(self).same_rest(old(self)),
    {
        self.expr_with(Any::Scalar(Scalar { unit: Some(ComplexUnit { distance: 0, angle: 0 }), data: ScalarData::Free }), Properties::hidden())
    }

    /// The common point of two lines.
    pub fn intersection(&mut self, k: usize, l: usize) -> (r: usize)
        requires
            old(self).wf(),
            is_line(old(self).nodes@, k as int),
            is_line(old(self).nodes@, l as int),
        ensures
            final(self).wf(),
            r == old(self).nodes.len(),
            final(self).nodes@ == old(self).nodes@.push(Any::Point(Point::LineLineIntersection(k, l))),
            final(self).shown@ == old(self).shown@,
            final(self).same_rest(old(self)),
    {
        self.expr_with(Any::Point(Point::LineLineIntersection(k, l)), Properties::hidden())
    }

    /// The center of a circle.
    pub fn circle_center(&mut self, c: usize) -> (r: usize)
        requires
            old(self).wf(),
            is_circle(old(self).nodes@, c as int),
        ensures
            final(self).wf(),
            r == old(self).nodes.len(),
            final(self).nodes@ == old(self).nodes@.push(Any::Point(Point::CircleCenter(c))),
            final(self).shown@ == old(self).shown@,
            final(self).same_rest(old(self)),
    {
        self.expr_with(Any::Point(Point::CircleCenter(c)), Properties::hidden())
    }

    /// A free point on a line.
    pub fn point_on_line_free(&mut self, k: usize) -> (r: usize)
        requires
            old(self).wf(),
            is_line(old(self).nodes@, k as int),
        ensures
            final(self).wf(),
            r == old(self).nodes.len(),
            final(self).nodes@ == old(self).nodes@.push(Any::Point(Point::OnLine(k))),
            final(self).shown@ == old(self).shown@,
            final(self).same_rest(old(self)),
    {
        self.expr_with(Any::Point(Point::OnLine(k)), Properties::hidden())
    }

    /// A free point on a circle.
    pub fn point_on_circle_free(&mut self, c: usize) -> (r: usize)
        requires
            old(self).wf(),
            is_circle(old(self).nodes@, c as int),
        ensures
            final(self).wf(),
            r == old(self).nodes.len(),
            final(self).nodes@ == old(self).nodes@.push(Any::Point(Point::OnCircle(c))),
            final(self).shown@ == old(self).shown@,
            final(self).same_rest(old(self)),
    {
        self.expr_with(Any::Point(Point::OnCircle(c)), Properties::hidden())
    }

    /// The line through two points.
    pub fn line(&mut self, a: usize, b: usize) -> (r: usize)
        requires
            old(self).wf(),
            is_point(old(self).nodes@, a as int),
            is_point(old(self).nodes@, b as int),
        ensures
            final(self).wf(),
            r == old(self).nodes.len(),
            final(self).nodes@ == old(self).nodes@.push(Any::Line(Line::LineFromPoints(a, b))),
            final(self).shown@ == old(self).shown@,
            final(self).same_rest(old(self)),
    {
        self.expr_with(Any::Line(Line::LineFromPoints(a, b)), Properties::hidden())
    }

    /// The bisector of the angle `abc`.
    pub fn bisector_ppp(&mut self, a: usize, b: usize, c: usize) -> (r: usize)
        requires
            old(self).wf(),
            is_point(old(self).nodes@, a as int),
            is_point(old(self).nodes@, b as int),
            is_point(old(self).nodes@, c as int),
        ensures
            final(self).wf(),
            r == old(self).nodes.len(),
            final(self).nodes@ == old(self).nodes@.push(Any::Line(Line::AngleBisector(a, b, c))),
            final(self).shown@ == old(self).shown@,
            final(self).same_rest(old(self)),
    {
        self.expr_with(Any::Line(Line::AngleBisector(a, b, c)), Properties::hidden())
    }

    /// The perpendicular to `k` through `p`.
    pub fn perpendicular_through(&mut self, k: usize, p: usize) -> (r: usize)
        requires
            old(self).wf(),
            is_line(old(self).nodes@, k as int),
            is_point(old(self).nodes@, p as int),
        ensures
            final(self).wf(),
            r == old(self).nodes.len(),
            final(self).nodes@ == old(self).nodes@.push(Any::Line(Line::PerpendicularThrough(k, p))),
            final(self).shown@ == old(self).shown@,
            final(self).same_rest(old(self)),
    {
        self.expr_with(Any::Line(Line::PerpendicularThrough(k, p)), Properties::hidden())
    }

    /// The parallel to `k` through `p`.
    pub fn parallel_through(&mut self, k: usize, p: usize) -> (r: usize)
        requires
            old(self).wf(),
            is_line(old(self).nodes@, k as int),
            is_point(old(self).nodes@, p as int),
        ensures
            final(self).wf(),
            r == old(self).nodes.len(),
            final(self).nodes@ == old(self).nodes@.push(Any::Line(Line::ParallelThrough(k, p))),
            final(self).shown@ == old(self).shown@,
            final(self).same_rest(old(self)),
    {
        self.expr_with(Any::Line(Line::ParallelThrough(k, p)), Properties::hidden())
    }

    /// The circle with this center and radius.
    pub fn circle(&mut self, center: usize, radius: usize) -> (r: usize)
        requires
            old(self).wf(),
            is_point(old(self).nodes@, center as int),
            is_scalar(old(self).nodes@, radius as int),
        ensures
            final(self).wf(),
            r == old(self).nodes.len(),
            final(self).nodes@ == old(self).nodes@.push(Any::Circle(Circle::Circle(center, radius))),
            final(self).shown@ == old(self).shown@,
            final(self).same_rest(old(self)),
    {
        self.expr_with(Any::Circle(Circle::Circle(center, radius)), Properties::hidden())
    }

    /// A literal with a unit.
    pub fn number(&mut self, value: ProcNum, unit: ComplexUnit) -> (r: usize)
        requires
            old(self).wf(),
            value.wf(),
        ensures
            final(self).wf(),
            r == old(self).nodes.len(),
            final(self).nodes@ == old(self).nodes@.push(Any::Scalar(Scalar { unit: Some(unit), data: ScalarData::Number(value) })),
            final(self).shown@ == old(self).shown@,
            final(self).same_rest(old(self)),
    {
        self.expr_with(Any::Scalar(Scalar { unit: Some(unit), data: ScalarData::Number(value) }), Properties::hidden())
    }

    /// The distance between two points.
    pub fn distance_pp(&mut self, p: usize, q: usize) -> (r: usize)
        requires
            old(self).wf(),
            is_point(old(self).nodes@, p as int),
            is_point(old(self).nodes@, q as int),
        ensures
            final(self).wf(),
            r == old(self).nodes.len(),
            final(self).nodes@ == old(self).nodes@.push(Any::Scalar(Scalar { unit: Some(ComplexUnit { distance: 1, angle: 0 }), data: ScalarData::PointPointDistance(p, q) })),
            final(self).shown@ == old(self).shown@,
            final(self).same_rest(old(self)),
    {
        self.expr_with(Any::Scalar(Scalar { unit: Some(ComplexUnit { distance: 1, angle: 0 }), data: ScalarData::PointPointDistance(p, q) }), Properties::hidden())
    }

    /// The distance of a point from a line.
    pub fn distance_pl(&mut self, p: usize, k: usize) -> (r: usize)
        requires
            old(self).wf(),
            is_point(old(self).nodes@, p as int),
            is_line(old(self).nodes@, k as int),
        ensures
            final(self).wf(),
            r == old(self).nodes.len(),
            final(self).nodes@ == old(self).nodes@.push(Any::Scalar(Scalar { unit: Some(ComplexUnit { distance: 1, angle: 0 }), data: ScalarData::PointLineDistance(p, k) })),
            final(self).shown@ == old(self).shown@,
            final(self).same_rest(old(self)),
    {
        self.expr_with(Any::Scalar(Scalar { unit: Some(ComplexUnit { distance: 1, angle: 0 }), data: ScalarData::PointLineDistance(p, k) }), Properties::hidden())
    }

    /// The radius of a circle.
    pub fn circle_radius(&mut self, c: usize) -> (r: usize)
        requires
            old(self).wf(),
            is_circle(old(self).nodes@, c as int),
        ensures
            final(self).wf(),
            r == old(self).nodes.len(),
            final(self).nodes@ == old(self).nodes@.push(Any::Scalar(Scalar { unit: Some(ComplexUnit { distance: 1, angle: 0 }), data: ScalarData::CircleRadius(c) })),
            final(self).shown@ == old(self).shown@,
            final(self).same_rest(old(self)),
    {
        self.expr_with(Any::Scalar(Scalar { unit: Some(ComplexUnit { distance: 1, angle: 0 }), data: ScalarData::CircleRadius(c) }), Properties::hidden())
    }

    /// The angle `abc`.
    pub fn angle_ppp(&mut self, a: usize, b: usize, c: usize) -> (r: usize)
        requires
            old(self).wf(),
            is_point(old(self).nodes@, a as int),
            is_point(old(self).nodes@, b as int),
            is_point(old(self).nodes@, c as int),
        ensures
            final(self).wf(),
            r == old(self).nodes.len(),
            final(self).nodes@ == old(self).nodes@.push(Any::Scalar(Scalar { unit: Some(ComplexUnit { distance: 0, angle: 1 }), data: ScalarData::ThreePointAngle(a, b, c) })),
            final(self).shown@ == old(self).shown@,
            final(self).same_rest(old(self)),
    {
        self.expr_with(Any::Scalar(Scalar { unit: Some(ComplexUnit { distance: 0, angle: 1 }), data: ScalarData::ThreePointAngle(a, b, c) }), Properties::hidden())
    }

    /// The directed angle `abc`.
    pub fn angle_dir(&mut self, a: usize, b: usize, c: usize) -> (r: usize)
        requires
            old(self).wf(),
            is_point(old(self).nodes@, a as int),
            is_point(old(self).nodes@, b as int),
            is_point(old(self).nodes@, c as int),
        ensures
            final(self).wf(),
            r == old(self).nodes.len(),
            final(self).nodes@ == old(self).nodes@.push(Any::Scalar(Scalar { unit: Some(ComplexUnit { distance: 0, angle: 1 }), data: ScalarData::ThreePointAngleDir(a, b, c) })),
            final(self).shown@ == old(self).shown@,
            final(self).same_rest(old(self)),
    {
        self.expr_with(Any::Scalar(Scalar { unit: Some(ComplexUnit { distance: 0, angle: 1 }), data: ScalarData::ThreePointAngleDir(a, b, c) }), Properties::hidden())
    }

    /// The angle between two lines.
    pub fn angle_ll(&mut self, k: usize, l: usize) -> (r: usize)
        requires
            old(self).wf(),
            is_line(old(self).nodes@, k as int),
            is_line(old(self).nodes@, l as int),
        ensures
            final(self).wf(),
            r == old(self).nodes.len(),
            final(self).nodes@ == old(self).nodes@.push(Any::Scalar(Scalar { unit: Some(ComplexUnit { distance: 0, angle: 1 }), data: ScalarData::TwoLineAngle(k, l) })),
            final(self).shown@ == old(self).shown@,
            final(self).same_rest(old(self)),
    {
        self.expr_with(Any::Scalar(Scalar { unit: Some(ComplexUnit { distance: 0, angle: 1 }), data: ScalarData::TwoLineAngle(k, l) }), Properties::hidden())
    }

    /// The first coordinate of a point.
    pub fn point_x(&mut self, p: usize) -> (r: usize)
        requires
            old(self).wf(),
            is_point(old(self).nodes@, p as int),
        ensures
            final(self).wf(),
            r == old(self).nodes.len(),
            final(self).nodes@ == old(self).nodes@.push(Any::Scalar(Scalar { unit: Some(ComplexUnit { distance: 1, angle: 0 }), data: ScalarData::PointX(p) })),
            final(self).shown@ == old(self).shown@,
            final(self).same_rest(old(self)),
    {
        self.expr_with(Any::Scalar(Scalar { unit: Some(ComplexUnit { distance: 1, angle: 0 }), data: ScalarData::PointX(p) }), Properties::hidden())
    }

    /// The second coordinate of a point.
    pub fn point_y(&mut self, p: usize) -> (r: usize)
        requires
            old(self).wf(),
            is_point(old(self).nodes@, p as int),
        ensures
            final(self).wf(),
            r == old(self).nodes.len(),
            final(self).nodes@ == old(self).nodes@.push(Any::Scalar(Scalar { unit: Some(ComplexUnit { distance: 1, angle: 0 }), data: ScalarData::PointY(p) })),
            final(self).shown@ == old(self).shown@,
            final(self).same_rest(old(self)),
    {
        self.expr_with(Any::Scalar(Scalar { unit: Some(ComplexUnit { distance: 1, angle: 0 }), data: ScalarData::PointY(p) }), Properties::hidden())
    }

    /// The sum of two scalars.
    pub fn add(&mut self, a: usize, b: usize) -> (r: usize)
        requires
            old(self).wf(),
            is_scalar(old(self).nodes@, a as int),
            is_scalar(old(self).nodes@, b as int),
        ensures
            final(self).wf(),
            r == old(self).nodes.len(),
            final(self).nodes@ == old(self).nodes@.push(Any::Scalar(Scalar { unit: unit_of(old(self).nodes@, a as int), data: ScalarData::Add(a, b) })),
            final(self).shown@ == old(self).shown@,
            final(self).same_rest(old(self)),
    {
        self.expr_with(Any::Scalar(Scalar { unit: self.unit_of(a), data: ScalarData::Add(a, b) }), Properties::hidden())
    }

    /// The difference of two scalars.
    pub fn sub(&mut self, a: usize, b: usize) -> (r: usize)
        requires
            old(self).wf(),
            is_scalar(old(self).nodes@, a as int),
            is_scalar(old(self).nodes@, b as int),
        ensures
            final(self).wf(),
            r == old(self).nodes.len(),
            final(self).nodes@ == old(self).nodes@.push(Any::Scalar(Scalar { unit: unit_of(old(self).nodes@, a as int), data: ScalarData::Subtract(a, b) })),
            final(self).shown@ == old(self).shown@,
            final(self).same_rest(old(self)),
    {
        self.expr_with(Any::Scalar(Scalar { unit: self.unit_of(a), data: ScalarData::Subtract(a, b) }), Properties::hidden())
    }

    /// The product of two scalars.
    pub fn mult(&mut self, a: usize, b: usize) -> (r: usize)
        requires
            old(self).wf(),
            is_scalar(old(self).nodes@, a as int),
            is_scalar(old(self).nodes@, b as int),
        ensures
            final(self).wf(),
            r == old(self).nodes.len(),
            final(self).nodes@ == old(self).nodes@.push(Any::Scalar(Scalar { unit: unit_of(old(self).nodes@, a as int), data: ScalarData::Multiply(a, b) })),
            final(self).shown@ == old(self).shown@,
            final(self).same_rest(old(self)),
    {
        self.expr_with(Any::Scalar(Scalar { unit: self.unit_of(a), data: ScalarData::Multiply(a, b) }), Properties::hidden())
    }

    /// The quotient of two scalars.
    pub fn div(&mut self, a: usize, b: usize) -> (r: usize)
        requires
            old(self).wf(),
            is_scalar(old(self).nodes@, a as int),
            is_scalar(old(self).nodes@, b as int),
        ensures
            final(self).wf(),
            r == old(self).nodes.len(),
            final(self).nodes@ == old(self).nodes@.push(Any::Scalar(Scalar { unit: unit_of(old(self).nodes@, a as int), data: ScalarData::Divide(a, b) })),
            final(self).shown@ == old(self).shown@,
            final(self).same_rest(old(self)),
    {
        self.expr_with(Any::Scalar(Scalar { unit: self.unit_of(a), data: ScalarData::Divide(a, b) }), Properties::hidden())
    }

    /// The unit of a scalar node.
    pub fn unit_of(&self, a: usize) -> (r: Option<ComplexUnit>)
        requires
            is_scalar(self.nodes@, a as int),
        ensures
            r == unit_of(self.nodes@, a as int),
    {
        match &self.nodes[a] {
            Any::Scalar(s) => s.unit,
            _ => None,
        }
    }

    /// The average of points, drawn as `display` says.
    pub fn average_p_display(&mut self, points: Vec<usize>, display: Properties) -> (r: usize)
        requires
            old(self).wf(),
            points.len() > 0,
            points_before(old(self).nodes@, points@, old(self).nodes.len() as int),
        ensures
            final(self).wf(),
            r == old(self).nodes.len(),
            final(self).nodes@ == old(self).nodes@.push(Any::Point(Point::Average(points))),
            final(self).shown@ == if display.display {
                old(self).shown@.push(Shown { node: r, label: display.label })
            } else {
                old(self).shown@
            },
            final(self).same_rest(old(self)),
    {
        proof {
            let ns = old(self).nodes@.push(Any::Point(Point::Average(points)));
            assert forall|k: int| 0 <= k < points@.len() implies #[trigger] points@[k] < ns.len() - 1
                && is_point(ns, points@[k] as int) by {
                assert(ns[points@[k] as int] == old(self).nodes@[points@[k] as int]);
            }
        }
        self.expr_with(Any::Point(Point::Average(points)), display)
    }

    /// The average of points.
    pub fn average_p(&mut self, points: Vec<usize>) -> (r: usize)
        requires
            old(self).wf(),
            points.len() > 0,
            points_before(old(self).nodes@, points@, old(self).nodes.len() as int),
        ensures
            final(self).wf(),
            r == old(self).nodes.len(),
            final(self).nodes@ == old(self).nodes@.push(Any::Point(Point::Average(points))),
            final(self).shown@ == old(self).shown@,
            final(self).same_rest(old(self)),
    {
        self.average_p_display(points, Properties::hidden())
    }

    /// The average of scalars, in the unit of the first, drawn as `display` says.
    pub fn average_s_display(&mut self, values: Vec<usize>, display: Properties) -> (r: usize)
        requires
            old(self).wf(),
            values.len() > 0,
            scalars_before(old(self).nodes@, values@, old(self).nodes.len() as int),
        ensures
            final(self).wf(),
            r == old(self).nodes.len(),
            final(self).nodes@ == old(self).nodes@.push(
                Any::Scalar(
                    Scalar {
                        unit: unit_of(old(self).nodes@, values@[0] as int),
                        data: ScalarData::Average(values),
                    },
                ),
            ),
            final(self).shown@ == if display.display {
                old(self).shown@.push(Shown { node: r, label: display.label })
            } else {
                old(self).shown@
            },
            final(self).same_rest(old(self)),
    {
        let unit = self.unit_of(values[0]);
        let content = Any::Scalar(Scalar { unit, data: ScalarData::Average(values) });
        proof {
            let ns = old(self).nodes@.push(content);
            assert forall|k: int| 0 <= k < values@.len() implies #[trigger] values@[k] < ns.len() - 1
                && is_scalar(ns, values@[k] as int) by {
                assert(ns[values@[k] as int] == old(self).nodes@[values@[k] as int]);
            }
        }
        self.expr_with(content, display)
    }

    /// The average of scalars, in the unit of the first.
    pub fn average_s(&mut self, values: Vec<usize>) -> (r: usize)
        requires
            old(self).wf(),
            values.len() > 0,
            scalars_before(old(self).nodes@, values@, old(self).nodes.len() as int),
        ensures
            final(self).wf(),
            r == old(self).nodes.len(),
            final(self).nodes@ == old(self).nodes@.push(
                Any::Scalar(
                    Scalar {
                        unit: unit_of(old(self).nodes@, values@[0] as int),
                        data: ScalarData::Average(values),
                    },
                ),
            ),
            final(self).shown@ == old(self).shown@,
            final(self).same_rest(old(self)),
    {
        self.average_s_display(values, Properties::hidden())
    }

    /// The scalar `v` given the unit `unit`, drawn as `display` says.
    pub fn set_unit_display(&mut self, v: usize, unit: ComplexUnit, display: Properties) -> (r:
        usize)
        requires
            old(self).wf(),
            is_scalar(old(self).nodes@, v as int),
        ensures
            final(self).wf(),
            r == old(self).nodes.len(),
            final(self).nodes@ == old(self).nodes@.push(
                Any::Scalar(Scalar { unit: Some(unit), data: ScalarData::SetUnit(v, unit) }),
            ),
            final(self).shown@ == if display.display {
                old(self).shown@.push(Shown { node: r, label: display.label })
            } else {
                old(self).shown@
            },
            final(self).same_rest(old(self)),
    {
        self.expr_with(
            Any::Scalar(Scalar { unit: Some(unit), data: ScalarData::SetUnit(v, unit) }),
            display,
        )
    }

    /// The scalar `v` given the unit `unit`.
    pub fn set_unit(&mut self, v: usize, unit: ComplexUnit) -> (r: usize)
        requires
            old(self).wf(),
            is_scalar(old(self).nodes@, v as int),
        ensures
            final(self).wf(),
            r == old(self).nodes.len(),
            final(self).nodes@ == old(self).nodes@.push(
                Any::Scalar(Scalar { unit: Some(unit), data: ScalarData::SetUnit(v, unit) }),
            ),
            final(self).shown@ == old(self).shown@,
            final(self).same_rest(old(self)),
    {
        self.set_unit_display(v, unit, Properties::hidden())
    }

    /// Adds a rule whose weight is the one `display` gives, else `def_weight`.
    pub fn rule_with(
        &mut self,
        kind: UnrolledRuleKind,
        inverted: bool,
        display: Properties,
        def_weight: ProcNum,
    )
        requires
            old(self).wf(),
            unrolled_rule_wf(old(self).nodes@, UnrolledRule { kind, inverted, weight: def_weight }),
        ensures
            final(self).wf(),
            final(self).rules@ == old(self).rules@.push(
                UnrolledRule {
                    kind,
                    inverted,
                    weight: match display.weight {
                        Some(w) => w,
                        None => def_weight,
                    },
                },
            ),
            final(self).nodes@ == old(self).nodes@,
            final(self).shown@ == old(self).shown@,
            final(self).errors() == old(self).errors(),
            final(self).flags == old(self).flags,
    {
        let weight = match display.weight {
            Some(w) => w,
            None => def_weight,
        };
        self.push_rule(UnrolledRule { kind, inverted, weight });
    }

    /// Two points are equal (or not, when `inverted`).
    pub fn point_eq(&mut self, lhs: usize, rhs: usize, inverted: bool)
        requires
            old(self).wf(),
            is_point(old(self).nodes@, lhs as int),
            is_point(old(self).nodes@, rhs as int),
        ensures
            final(self).wf(),
            final(self).rules@ == old(self).rules@.push(
                UnrolledRule { kind: UnrolledRuleKind::PointEq(lhs, rhs), inverted, weight: ProcNum { numer: 1, denom: 1 } },
            ),
            final(self).nodes@ == old(self).nodes@,
            final(self).shown@ == old(self).shown@,
            final(self).errors() == old(self).errors(),
            final(self).flags == old(self).flags,
    {
        self.rule_with(UnrolledRuleKind::PointEq(lhs, rhs), inverted, Properties::hidden(), ProcNum::one())
    }

    /// Two scalars are equal (or not, when `inverted`).
    pub fn scalar_eq(&mut self, lhs: usize, rhs: usize, inverted: bool)
        requires
            old(self).wf(),
            is_scalar(old(self).nodes@, lhs as int),
            is_scalar(old(self).nodes@, rhs as int),
        ensures
            final(self).wf(),
            final(self).rules@ == old(self).rules@.push(
                UnrolledRule { kind: UnrolledRuleKind::ScalarEq(lhs, rhs), inverted, weight: ProcNum { numer: 1, denom: 1 } },
            ),
            final(self).nodes@ == old(self).nodes@,
            final(self).shown@ == old(self).shown@,
            final(self).errors() == old(self).errors(),
            final(self).flags == old(self).flags,
    {
        self.rule_with(UnrolledRuleKind::ScalarEq(lhs, rhs), inverted, Properties::hidden(), ProcNum::one())
    }

    /// `lhs > rhs` (or not, when `inverted`).
    pub fn gt(&mut self, lhs: usize, rhs: usize, inverted: bool)
        requires
            old(self).wf(),
            is_scalar(old(self).nodes@, lhs as int),
            is_scalar(old(self).nodes@, rhs as int),
        ensures
            final(self).wf(),
            final(self).rules@ == old(self).rules@.push(
                UnrolledRule { kind: UnrolledRuleKind::Gt(lhs, rhs), inverted, weight: ProcNum { numer: 1, denom: 1 } },
            ),
            final(self).nodes@ == old(self).nodes@,
            final(self).shown@ == old(self).shown@,
            final(self).errors() == old(self).errors(),
            final(self).flags == old(self).flags,
    {
        self.rule_with(UnrolledRuleKind::Gt(lhs, rhs), inverted, Properties::hidden(), ProcNum::one())
    }

    /// `lhs < rhs` (or not, when `inverted`).
    pub fn lt(&mut self, lhs: usize, rhs: usize, inverted: bool)
        requires
            old(self).wf(),
            is_scalar(old(self).nodes@, lhs as int),
            is_scalar(old(self).nodes@, rhs as int),
        ensures
            final(self).wf(),
            final(self).rules@ == old(self).rules@.push(
                UnrolledRule { kind: UnrolledRuleKind::Lt(lhs, rhs), inverted, weight: ProcNum { numer: 1, denom: 1 } },
            ),
            final(self).nodes@ == old(self).nodes@,
            final(self).shown@ == old(self).shown@,
            final(self).errors() == old(self).errors(),
            final(self).flags == old(self).flags,
    {
        self.rule_with(UnrolledRuleKind::Lt(lhs, rhs), inverted, Properties::hidden(), ProcNum::one())
    }

    /// The rule that point `lhs` lies on circle `rhs`: its distance from the center is the radius.
    pub fn point_on_circle(&mut self, lhs: usize, rhs: usize, weight: ProcNum)
        requires
            old(self).wf(),
            is_point(old(self).nodes@, lhs as int),
            is_circle(old(self).nodes@, rhs as int),
        ensures
            final(self).wf(),
            ({
                let n = old(self).nodes.len();
                &&& final(self).nodes@ == old(self).nodes@.push(
                    Any::Point(Point::CircleCenter(rhs)),
                ).push(
                    Any::Scalar(
                        Scalar {
                            unit: Some(ComplexUnit { distance: 1, angle: 0 }),
                            data: ScalarData::PointPointDistance(lhs, n),
                        },
                    ),
                ).push(
                    Any::Scalar(
                        Scalar {
                            unit: Some(ComplexUnit { distance: 1, angle: 0 }),
                            data: ScalarData::CircleRadius(rhs),
                        },
                    ),
                )
                &&& final(self).rules@ == old(self).rules@.push(
                    UnrolledRule {
                        kind: UnrolledRuleKind::ScalarEq((n + 1) as usize, (n + 2) as usize),
                        inverted: false,
                        weight,
                    },
                )
            }),
            final(self).shown@ == old(self).shown@,
            final(self).errors() == old(self).errors(),
            final(self).flags == old(self).flags,
    {
        let center = self.circle_center(rhs);
        let dst = self.distance_pp(lhs, center);
        let radius = self.circle_radius(rhs);
        self.push_rule(
            UnrolledRule { kind: UnrolledRuleKind::ScalarEq(dst, radius), inverted: false, weight },
        );
    }

    /// The rule that point `lhs` lies on line `rhs`: its distance from the line is zero.
    pub fn point_on_line(&mut self, lhs: usize, rhs: usize, weight: ProcNum)
        requires
            old(self).wf(),
            is_point(old(self).nodes@, lhs as int),
            is_line(old(self).nodes@, rhs as int),
        ensures
            final(self).wf(),
            ({
                let n = old(self).nodes.len();
                &&& final(self).nodes@ == old(self).nodes@.push(
                    Any::Scalar(
                        Scalar {
                            unit: Some(ComplexUnit { distance: 1, angle: 0 }),
                            data: ScalarData::PointLineDistance(lhs, rhs),
                        },
                    ),
                ).push(
                    Any::Scalar(
                        Scalar {
                            unit: Some(ComplexUnit { distance: 1, angle: 0 }),
                            data: ScalarData::Number(ProcNum { numer: 0, denom: 1 }),
                        },
                    ),
                )
                &&& final(self).rules@ == old(self).rules@.push(
                    UnrolledRule {
                        kind: UnrolledRuleKind::ScalarEq(n, (n + 1) as usize),
                        inverted: false,
                        weight,
                    },
                )
            }),
            final(self).shown@ == old(self).shown@,
            final(self).errors() == old(self).errors(),
            final(self).flags == old(self).flags,
    {
        let dst = self.distance_pl(lhs, rhs);
        let zero = self.number(ProcNum::zero(), ComplexUnit::distance());
        self.push_rule(
            UnrolledRule { kind: UnrolledRuleKind::ScalarEq(dst, zero), inverted: false, weight },
        );
    }
}

/// The unit of scalar node `a`.
pub open spec fn unit_of(nodes: Seq<Any>, a: int) -> Option<ComplexUnit> {
    match nodes[a] {
        Any::Scalar(s) => s.unit,
        _ => None,
    }
}


/// Whether node `j` is a point before node `i`.
fn point_before(nodes: &Vec<Any>, j: usize, i: usize) -> (r: bool)
    ensures
        r == (j < i && is_point(nodes@, j as int)),
{
    j < i && j < nodes.len() && matches!(nodes[j], Any::Point(_))
}

/// Whether node `j` is a line before node `i`.
fn line_before(nodes: &Vec<Any>, j: usize, i: usize) -> (r: bool)
    ensures
        r == (j < i && is_line(nodes@, j as int)),
{
    j < i && j < nodes.len() && matches!(nodes[j], Any::Line(_))
}

/// Whether node `j` is a circle before node `i`.
fn circle_before(nodes: &Vec<Any>, j: usize, i: usize) -> (r: bool)
    ensures
        r == (j < i && is_circle(nodes@, j as int)),
{
    j < i && j < nodes.len() && matches!(nodes[j], Any::Circle(_))
}

/// Whether node `j` is a scalar before node `i`.
fn scalar_before(nodes: &Vec<Any>, j: usize, i: usize) -> (r: bool)
    ensures
        r == (j < i && is_scalar(nodes@, j as int)),
{
    j < i && j < nodes.len() && matches!(nodes[j], Any::Scalar(_))
}

/// Whether every node of `items` is a point before node `i`.
fn points_before_all(nodes: &Vec<Any>, items: &Vec<usize>, i: usize) -> (r: bool)
    ensures
        r == points_before(nodes@, items@, i as int),
{
    let mut k: usize = 0;
    while k < items.len()
        invariant
            k <= items.len(),
            forall|x: int| 0 <= x < k ==> #[trigger] items@[x] < i && is_point(nodes@, items@[x] as int),
        decreases items.len() - k,
    {
        if !point_before(nodes, items[k], i) {
            return false;
        }
        k += 1;
    }
    true
}

/// Whether every node of `items` is a scalar before node `i`.
fn scalars_before_all(nodes: &Vec<Any>, items: &Vec<usize>, i: usize) -> (r: bool)
    ensures
        r == scalars_before(nodes@, items@, i as int),
{
    let mut k: usize = 0;
    while k < items.len()
        invariant
            k <= items.len(),
            forall|x: int| 0 <= x < k ==> #[trigger] items@[x] < i && is_scalar(nodes@, items@[x] as int),
        decreases items.len() - k,
    {
        if !scalar_before(nodes, items[k], i) {
            return false;
        }
        k += 1;
    }
    true
}

/// Whether node `i` refers to earlier nodes of the right kinds.
fn node_ok(nodes: &Vec<Any>, i: usize) -> (r: bool)
    requires
        i < nodes.len(),
    ensures
        r == node_wf(nodes@, i as int),
{
    match &nodes[i] {
        Any::Point(pt) => match pt {
            Point::Free => true,
            Point::Average(items) => items.len() > 0 && points_before_all(nodes, items, i),
            Point::LineLineIntersection(a, b) => line_before(nodes, *a, i) && line_before(nodes, *b, i),
            Point::CircleCenter(a) => circle_before(nodes, *a, i),
            Point::OnLine(a) => line_before(nodes, *a, i),
            Point::OnCircle(a) => circle_before(nodes, *a, i),
        },
        Any::Line(ln) => match ln {
            Line::LineFromPoints(a, b) => point_before(nodes, *a, i) && point_before(nodes, *b, i),
            Line::AngleBisector(a, b, d) => point_before(nodes, *a, i) && point_before(nodes, *b, i)
                && point_before(nodes, *d, i),
            Line::ParallelThrough(a, b) => line_before(nodes, *a, i) && point_before(nodes, *b, i),
            Line::PerpendicularThrough(a, b) => line_before(nodes, *a, i) && point_before(nodes, *b, i),
        },
        Any::Circle(Circle::Circle(a, b)) => point_before(nodes, *a, i) && scalar_before(nodes, *b, i),
        Any::Scalar(sc) => match &sc.data {
            ScalarData::Free => true,
            ScalarData::Number(v) => v.denom > 0,
            ScalarData::Add(a, b) => scalar_before(nodes, *a, i) && scalar_before(nodes, *b, i),
            ScalarData::Subtract(a, b) => scalar_before(nodes, *a, i) && scalar_before(nodes, *b, i),
            ScalarData::Multiply(a, b) => scalar_before(nodes, *a, i) && scalar_before(nodes, *b, i),
            ScalarData::Divide(a, b) => scalar_before(nodes, *a, i) && scalar_before(nodes, *b, i),
            ScalarData::Average(items) => items.len() > 0 && scalars_before_all(nodes, items, i),
            ScalarData::SetUnit(a, _) => scalar_before(nodes, *a, i),
            ScalarData::PointPointDistance(a, b) => point_before(nodes, *a, i) && point_before(nodes, *b, i),
            ScalarData::PointLineDistance(a, b) => point_before(nodes, *a, i) && line_before(nodes, *b, i),
            ScalarData::ThreePointAngle(a, b, d) => point_before(nodes, *a, i) && point_before(nodes, *b, i)
                && point_before(nodes, *d, i),
            ScalarData::ThreePointAngleDir(a, b, d) => point_before(nodes, *a, i) && point_before(
                nodes,
                *b,
                i,
            ) && point_before(nodes, *d, i),
            ScalarData::TwoLineAngle(a, b) => line_before(nodes, *a, i) && line_before(nodes, *b, i),
            ScalarData::CircleRadius(a) => circle_before(nodes, *a, i),
            ScalarData::PointX(a) => point_before(nodes, *a, i),
            ScalarData::PointY(a) => point_before(nodes, *a, i),
        },
    }
}

/// Whether a rule compares nodes of the right kinds.
fn rule_ok(nodes: &Vec<Any>, r: &UnrolledRule) -> (ok: bool)
    ensures
        ok == unrolled_rule_wf(nodes@, *r),
{
    let n = nodes.len();
    match r.kind {
        UnrolledRuleKind::PointEq(a, b) => point_before(nodes, a, n) && point_before(nodes, b, n),
        UnrolledRuleKind::ScalarEq(a, b) => scalar_before(nodes, a, n) && scalar_before(nodes, b, n),
        UnrolledRuleKind::Gt(a, b) => scalar_before(nodes, a, n) && scalar_before(nodes, b, n),
        UnrolledRuleKind::Lt(a, b) => scalar_before(nodes, a, n) && scalar_before(nodes, b, n),
        UnrolledRuleKind::Bias(a) => scalar_before(nodes, a, n),
    }
}

impl CompileContext {
    /// Whether the context is well formed: what its builders keep and its users need.
    pub fn is_well_formed(&self) -> (r: bool)
        ensures
            r == self.wf(),
    {
        let mut i: usize = 0;
        while i < self.nodes.len()
            invariant
                i <= self.nodes.len(),
                forall|k: int| 0 <= k < i ==> #[trigger] node_wf(self.nodes@, k),
            decreases self.nodes.len() - i,
        {
            if !node_ok(&self.nodes, i) {
                return false;
            }
            i += 1;
        }
        let mut k: usize = 0;
        while k < self.shown.len()
            invariant
                k <= self.shown.len(),
                forall|x: int| 0 <= x < k ==> #[trigger] self.shown@[x].node < self.nodes.len(),
            decreases self.shown.len() - k,
        {
            if self.shown[k].node >= self.nodes.len() {
                return false;
            }
            k += 1;
        }
        let mut j: usize = 0;
        while j < self.rules.len()
            invariant
                j <= self.rules.len(),
                forall|x: int| 0 <= x < j ==> unrolled_rule_wf(self.nodes@, #[trigger] self.rules@[x]),
            decreases self.rules.len() - j,
        {
            if !rule_ok(&self.nodes, &self.rules[j]) {
                return false;
            }
            j += 1;
        }
        true
    }
}

} // verus!
