use vstd::prelude::*;

use crate::number::ProcNum;
use crate::unroll::{
    is_line, node_wf, nodes_wf, unit_of, unrolled_rule_wf, Any, Circle, CompileContext, Line, Point,
    ScalarData, UnrolledRule, UnrolledRuleKind,
};

verus! {

/// An index into an expression table.
pub type VarIndex = usize;

/// An index into an entity table. Entity `i` lives in memory slot `i`.
pub type EntityId = usize;

/// One expanded expression. Children are indices into the same table.
#[derive(Debug, Clone, PartialEq, Eq)]
pub enum ExprKind {
    LineLineIntersection { k: VarIndex, l: VarIndex },
    AveragePoint { items: Vec<VarIndex> },
    CircleCenter { circle: VarIndex },
    Entity { id: EntityId },
    PointPoint { p: VarIndex, q: VarIndex },
    AngleBisector { p: VarIndex, q: VarIndex, r: VarIndex },
    ParallelThrough { point: VarIndex, line: VarIndex },
    PerpendicularThrough { point: VarIndex, line: VarIndex },
    /// The sum of `plus` minus the sum of `minus`.
    Sum { plus: Vec<VarIndex>, minus: Vec<VarIndex> },
    /// The product of `times` divided by the product of `by`.
    Product { times: Vec<VarIndex>, by: Vec<VarIndex> },
    Const { value: ProcNum },
    Power { value: VarIndex, exponent: ProcNum },
    PointPointDistance { p: VarIndex, q: VarIndex },
    PointLineDistance { point: VarIndex, line: VarIndex },
    ThreePointAngle { p: VarIndex, q: VarIndex, r: VarIndex },
    ThreePointAngleDir { p: VarIndex, q: VarIndex, r: VarIndex },
    TwoLineAngle { k: VarIndex, l: VarIndex },
    PointX { point: VarIndex },
    PointY { point: VarIndex },
    ConstructCircle { center: VarIndex, radius: VarIndex },
}

/// An entry of an expression table.
#[derive(Debug, Clone, PartialEq, Eq)]
pub struct Expr {
    pub kind: ExprKind,
}

impl Expr {
    /// Wraps an expression kind.
    pub fn new(kind: ExprKind) -> (r: Expr)
        ensures
            r.kind == kind,
    {
        Expr { kind }
    }
}

/// What backs an adjustable.
#[derive(Debug, Clone, Copy, PartialEq, Eq, Structural)]
pub enum EntityKind {
    FreeReal,
    FreePoint,
    PointOnLine { line: VarIndex },
    PointOnCircle { circle: VarIndex },
}

/// What a rule demands.
#[derive(Debug)]
pub enum RuleKind {
    PointEq(VarIndex, VarIndex),
    NumberEq(VarIndex, VarIndex),
    Lt(VarIndex, VarIndex),
    Gt(VarIndex, VarIndex),
    /// At least one of the rules holds.
    Alternative(Vec<RuleKind>),
    /// The rule does not hold.
    Invert(Box<RuleKind>),
    /// A constant penalty, read by the optimizer from the rule's slot.
    Bias,
}

/// A rule with the entities its expressions depend on.
#[derive(Debug)]
pub struct Rule {
    pub kind: RuleKind,
    pub entities: Vec<EntityId>,
    pub weight: ProcNum,
}

/// The view that the optimizer evaluates.
#[derive(Debug)]
pub struct Adjusted {
    pub variables: Vec<Expr>,
    pub entities: Vec<EntityKind>,
    pub rules: Vec<Rule>,
}

/// An object to draw: an expression and its label.
#[derive(Debug, Clone, PartialEq, Eq)]
pub struct FigureItem {
    pub var: VarIndex,
    pub label: String,
}

/// The view that is drawn.
#[derive(Debug, Clone, PartialEq, Eq)]
pub struct Figure {
    pub variables: Vec<Expr>,
    pub entities: Vec<EntityKind>,
    pub items: Vec<FigureItem>,
    pub canvas_width: usize,
    pub canvas_height: usize,
}

/// Both views of an expanded script.
#[derive(Debug)]
pub struct Intermediate {
    pub figure: Figure,
    pub adjusted: Adjusted,
}

/// Every index of `s` is below `bound`.
pub open spec fn all_below(s: Seq<usize>, bound: int) -> bool {
    forall|j: int| 0 <= j < s.len() ==> #[trigger] s[j] < bound
}

/// The children of `k` are below `bound`.
pub open spec fn children_below(k: ExprKind, bound: int) -> bool {
    match k {
        ExprKind::LineLineIntersection { k, l } => k < bound && l < bound,
        ExprKind::AveragePoint { items } => all_below(items@, bound),
        ExprKind::CircleCenter { circle } => circle < bound,
        ExprKind::Entity { .. } => true,
        ExprKind::PointPoint { p, q } => p < bound && q < bound,
        ExprKind::AngleBisector { p, q, r } => p < bound && q < bound && r < bound,
        ExprKind::ParallelThrough { point, line } => point < bound && line < bound,
        ExprKind::PerpendicularThrough { point, line } => point < bound && line < bound,
        ExprKind::Sum { plus, minus } => all_below(plus@, bound) && all_below(minus@, bound),
        ExprKind::Product { times, by } => all_below(times@, bound) && all_below(by@, bound),
        ExprKind::Const { .. } => true,
        ExprKind::Power { value, .. } => value < bound,
        ExprKind::PointPointDistance { p, q } => p < bound && q < bound,
        ExprKind::PointLineDistance { point, line } => point < bound && line < bound,
        ExprKind::ThreePointAngle { p, q, r } => p < bound && q < bound && r < bound,
        ExprKind::ThreePointAngleDir { p, q, r } => p < bound && q < bound && r < bound,
        ExprKind::TwoLineAngle { k, l } => k < bound && l < bound,
        ExprKind::PointX { point } => point < bound,
        ExprKind::PointY { point } => point < bound,
        ExprKind::ConstructCircle { center, radius } => center < bound && radius < bound,
    }
}

/// The expression an entity is defined by, if any.
pub open spec fn entity_dep(e: EntityKind) -> int {
    match e {
        EntityKind::PointOnLine { line } => line as int,
        EntityKind::PointOnCircle { circle } => circle as int,
        _ => -1,
    }
}

/// An expression table with its entities forms a DAG listed children first:
/// every child, and the expression behind an entity, comes before its user.
pub open spec fn table_wf(vars: Seq<Expr>, ents: Seq<EntityKind>) -> bool {
    &&& forall|v: int| 0 <= v < vars.len() ==> children_below(#[trigger] vars[v].kind, v)
    &&& forall|v: int|
        #![trigger vars[v]]
        0 <= v < vars.len() ==> match vars[v].kind {
            ExprKind::Entity { id } => id < ents.len() && entity_dep(ents[id as int]) < v,
            _ => true,
        }
}

/// Every expression a rule reads is below `bound`.
pub open spec fn rule_refs_below(r: RuleKind, bound: int) -> bool
    decreases r,
{
    match r {
        RuleKind::PointEq(a, b) => a < bound && b < bound,
        RuleKind::NumberEq(a, b) => a < bound && b < bound,
        RuleKind::Lt(a, b) => a < bound && b < bound,
        RuleKind::Gt(a, b) => a < bound && b < bound,
        RuleKind::Alternative(items) => forall|i: int|
            0 <= i < items.len() ==> rule_refs_below(#[trigger] items@[i], bound),
        RuleKind::Invert(inner) => rule_refs_below(*inner, bound),
        RuleKind::Bias => true,
    }
}

/// The elements are pairwise distinct.
pub open spec fn distinct(s: Seq<usize>) -> bool {
    forall|i: int, j: int| 0 <= i < s.len() && 0 <= j < s.len() && i != j ==> s[i] != s[j]
}

impl Rule {
    /// The rule reads expressions of a table of `n_vars` entries, and lists distinct entities
    /// of a table of `n_ents` entries.
    pub open spec fn wf(self, n_vars: int, n_ents: int) -> bool {
        &&& rule_refs_below(self.kind, n_vars)
        &&& distinct(self.entities@)
        &&& all_below(self.entities@, n_ents)
    }
}

impl Adjusted {
    pub open spec fn wf(self) -> bool {
        &&& table_wf(self.variables@, self.entities@)
        &&& forall|i: int|
            0 <= i < self.rules.len() ==> (#[trigger] self.rules@[i]).wf(
                self.variables.len() as int,
                self.entities.len() as int,
            )
    }
}

impl Figure {
    pub open spec fn wf(self) -> bool {
        &&& table_wf(self.variables@, self.entities@)
        &&& forall|i: int|
            0 <= i < self.items.len() ==> #[trigger] self.items@[i].var < self.variables.len()
    }
}

impl Intermediate {
    pub open spec fn wf(self) -> bool {
        self.figure.wf() && self.adjusted.wf()
    }
}


/// An expanded expression and how many times it was reached.
#[derive(Debug, Clone, PartialEq, Eq)]
pub struct Entry {
    pub expr: Expr,
    pub uses: usize,
}

/// Expands unrolled nodes into an expression table, one entry per node identity.
#[derive(Debug)]
pub struct Expand {
    /// The expanded expressions, operands first.
    pub record: Vec<Entry>,
    /// The entry of each node; `usize::MAX` for a node not loaded yet.
    pub expr_map: Vec<usize>,
    /// The entities met so far.
    pub entities: Vec<EntityKind>,
    /// The entry of the adjustable distance unit, when distance literals are adjusted.
    pub distance: Option<VarIndex>,
}

/// The expressions of a record.
pub open spec fn exprs(record: Seq<Entry>) -> Seq<Expr> {
    record.map_values(|e: Entry| e.expr)
}

/// A line built through a point from another line.
pub open spec fn is_through(k: ExprKind) -> bool {
    k is ParallelThrough || k is PerpendicularThrough
}

/// No parallel or perpendicular is taken of a parallel or a perpendicular.
pub open spec fn no_nested_through(vars: Seq<Expr>) -> bool {
    forall|v: int|
        #![trigger vars[v]]
        0 <= v < vars.len() ==> match vars[v].kind {
            ExprKind::ParallelThrough { line, .. } => line < vars.len() && !is_through(
                vars[line as int].kind,
            ),
            ExprKind::PerpendicularThrough { line, .. } => line < vars.len() && !is_through(
                vars[line as int].kind,
            ),
            _ => true,
        }
}

/// The kind the expansion gives a parallel (`perpendicular == false`) or a perpendicular to the
/// line in entry `line`, through the point in entry `point`: a parallel to a perpendicular is a
/// perpendicular, and so on.
pub open spec fn through_kind(
    vars: Seq<Expr>,
    point: VarIndex,
    line: VarIndex,
    perpendicular: bool,
) -> ExprKind {
    match vars[line as int].kind {
        ExprKind::PerpendicularThrough { line: l, .. } => if perpendicular {
            ExprKind::ParallelThrough { point, line: l }
        } else {
            ExprKind::PerpendicularThrough { point, line: l }
        },
        ExprKind::ParallelThrough { line: l, .. } => if perpendicular {
            ExprKind::PerpendicularThrough { point, line: l }
        } else {
            ExprKind::ParallelThrough { point, line: l }
        },
        _ => if perpendicular {
            ExprKind::PerpendicularThrough { point, line }
        } else {
            ExprKind::ParallelThrough { point, line }
        },
    }
}

impl Expand {
    /// The map covers the nodes; the record is a DAG without nested parallels/perpendiculars.
    pub open spec fn wf(&self, nodes: Seq<Any>) -> bool {
        &&& self.expr_map.len() == nodes.len()
        &&& forall|n: int|
            0 <= n < nodes.len() && #[trigger] self.expr_map@[n] != usize::MAX ==> self.expr_map@[n]
                < self.record.len()
        &&& table_wf(exprs(self.record@), self.entities@)
        &&& no_nested_through(exprs(self.record@))
        &&& self.distance matches Some(d) ==> d < self.record.len()
    }

    /// Entries, entities and loaded nodes of `old` stay as they were.
    pub open spec fn extends(&self, old: &Expand) -> bool {
        &&& old.record.len() <= self.record.len()
        &&& forall|i: int|
            0 <= i < old.record.len() ==> #[trigger] self.record@[i].expr == old.record@[i].expr
        &&& self.entities@.len() >= old.entities@.len()
        &&& forall|i: int|
            0 <= i < old.entities.len() ==> #[trigger] self.entities@[i] == old.entities@[i]
        &&& self.expr_map.len() == old.expr_map.len()
        &&& forall|n: int|
            0 <= n < old.expr_map.len() && old.expr_map@[n] != usize::MAX ==> #[trigger] self.expr_map@[n]
                == old.expr_map@[n]
        &&& self.distance == old.distance
    }

    /// A fresh expansion of `n_nodes` nodes.
    pub fn new(n_nodes: usize) -> (r: Expand)
        ensures
            r.record.len() == 0,
            r.entities.len() == 0,
            r.expr_map@ == Seq::new(n_nodes as nat, |i: int| usize::MAX),
            r.distance is None,
    {
        let mut expr_map: Vec<usize> = Vec::new();
        let mut i: usize = 0;
        while i < n_nodes
            invariant
                i <= n_nodes,
                expr_map@ == Seq::new(i as nat, |k: int| usize::MAX),
            decreases n_nodes - i,
        {
            expr_map.push(usize::MAX);
            i += 1;
            proof {
                assert(expr_map@ =~= Seq::new(i as nat, |k: int| usize::MAX));
            }
        }
        Expand { record: Vec::new(), expr_map, entities: Vec::new(), distance: None }
    }

    /// Appends an entry and returns its index.
    fn push_entry(&mut self, Ghost(nodes): Ghost<Seq<Any>>, kind: ExprKind) -> (r: VarIndex)
        requires
            old(self).wf(nodes),
            children_below(kind, old(self).record.len() as int),
            kind matches ExprKind::Entity { id } ==> id < old(self).entities.len() && entity_dep(
                old(self).entities@[id as int],
            ) < old(self).record.len(),
            kind matches ExprKind::ParallelThrough { line, .. } ==> line < old(self).record.len()
                && !is_through(old(self).record@[line as int].expr.kind),
            kind matches ExprKind::PerpendicularThrough { line, .. } ==> line < old(self).record.len()
                && !is_through(old(self).record@[line as int].expr.kind),
        ensures
            final(self).wf(nodes),
            final(self).extends(old(self)),
            r == old(self).record.len(),
            final(self).record@ == old(self).record@.push(Entry { expr: Expr { kind }, uses: 1 }),
            final(self).entities@ == old(self).entities@,
            final(self).expr_map@ == old(self).expr_map@,
    {
        let r = self.record.len();
        self.record.push(Entry { expr: Expr::new(kind), uses: 1 });
        proof {
            let xs = exprs(self.record@);
            let os = exprs(old(self).record@);
            assert(xs =~= os.push(Expr { kind }));
            assert forall|v: int| 0 <= v < xs.len() implies children_below(#[trigger] xs[v].kind, v) by {
                if v < os.len() {
                    assert(xs[v] == os[v]);
                }
            }
            assert forall|v: int| #![trigger xs[v]] 0 <= v < xs.len() implies match xs[v].kind {
                ExprKind::Entity { id } => id < self.entities.len() && entity_dep(
                    self.entities@[id as int],
                ) < v,
                _ => true,
            } by {
                if v < os.len() {
                    assert(xs[v] == os[v]);
                }
            }
            assert forall|v: int| #![trigger xs[v]] 0 <= v < xs.len() implies match xs[v].kind {
                ExprKind::ParallelThrough { line, .. } => line < xs.len() && !is_through(
                    xs[line as int].kind,
                ),
                ExprKind::PerpendicularThrough { line, .. } => line < xs.len() && !is_through(
                    xs[line as int].kind,
                ),
                _ => true,
            } by {
                if v < os.len() {
                    assert(xs[v] == os[v]);
                    match xs[v].kind {
                        ExprKind::ParallelThrough { line, .. } => {
                            assert(xs[line as int] == os[line as int]);
                        },
                        ExprKind::PerpendicularThrough { line, .. } => {
                            assert(xs[line as int] == os[line as int]);
                        },
                        _ => {},
                    }
                } else {
                    match kind {
                        ExprKind::ParallelThrough { line, .. } => {
                            assert(xs[line as int] == os[line as int]);
                        },
                        ExprKind::PerpendicularThrough { line, .. } => {
                            assert(xs[line as int] == os[line as int]);
                        },
                        _ => {},
                    }
                }
            }
        }
        r
    }

    /// Appends an entity and returns its id.
    fn push_entity(&mut self, Ghost(nodes): Ghost<Seq<Any>>, e: EntityKind) -> (r: EntityId)
        requires
            old(self).wf(nodes),
        ensures
            final(self).wf(nodes),
            final(self).extends(old(self)),
            r == old(self).entities.len(),
            final(self).entities@ == old(self).entities@.push(e),
            final(self).record@ == old(self).record@,
            final(self).expr_map@ == old(self).expr_map@,
    {
        let r = self.entities.len();
        self.entities.push(e);
        proof {
            let xs = exprs(self.record@);
            assert forall|v: int| #![trigger xs[v]] 0 <= v < xs.len() implies match xs[v].kind {
                ExprKind::Entity { id } => id < self.entities.len() && entity_dep(
                    self.entities@[id as int],
                ) < v,
                _ => true,
            } by {
                match xs[v].kind {
                    ExprKind::Entity { id } => {
                        assert(self.entities@[id as int] == old(self).entities@[id as int]);
                    },
                    _ => {},
                }
            }
        }
        r
    }
}


/// The power of distance in the unit of scalar node `a`.
pub open spec fn unit_distance(nodes: Seq<Any>, a: int) -> int {
    match unit_of(nodes, a) {
        Some(u) => u.distance as int,
        None => 0,
    }
}

/// `k` multiplies entry `x` by entry `d` raised to `power`, as a product of repeated factors.
pub open spec fn scaled_by(k: ExprKind, x: VarIndex, power: int, d: VarIndex) -> bool {
    k matches ExprKind::Product { times, by } && times@ == seq![x] + Seq::new(
        (if power > 0 {
            power
        } else {
            0
        }) as nat,
        |i: int| d,
    ) && by@ == Seq::new(
        (if power < 0 {
            -power
        } else {
            0
        }) as nat,
        |i: int| d,
    )
}

/// The first line down a chain of parallels and perpendiculars that starts at node `k`.
pub open spec fn chain_base(nodes: Seq<Any>, k: int) -> int
    decreases k,
{
    match nodes[k] {
        Any::Line(Line::ParallelThrough(l, _)) => if 0 <= l < k {
            chain_base(nodes, l as int)
        } else {
            k
        },
        Any::Line(Line::PerpendicularThrough(l, _)) => if 0 <= l < k {
            chain_base(nodes, l as int)
        } else {
            k
        },
        _ => k,
    }
}

/// Whether a line taken `perpendicular` to node `k` is perpendicular to the base of its chain:
/// each perpendicular down the chain turns it once more.
pub open spec fn chain_perp(nodes: Seq<Any>, k: int, perpendicular: bool) -> bool
    decreases k,
{
    match nodes[k] {
        Any::Line(Line::ParallelThrough(l, _)) => if 0 <= l < k {
            chain_perp(nodes, l as int, perpendicular)
        } else {
            perpendicular
        },
        Any::Line(Line::PerpendicularThrough(l, _)) => if 0 <= l < k {
            chain_perp(nodes, l as int, !perpendicular)
        } else {
            perpendicular
        },
        _ => perpendicular,
    }
}

/// Node `j` is a parallel or perpendicular on the chain that starts at node `k`, above its base.
pub open spec fn on_chain(nodes: Seq<Any>, k: int, j: int) -> bool
    decreases k,
{
    match nodes[k] {
        Any::Line(Line::ParallelThrough(l, _)) => 0 <= l < k && (j == k || on_chain(
            nodes,
            l as int,
            j,
        )),
        Any::Line(Line::PerpendicularThrough(l, _)) => 0 <= l < k && (j == k || on_chain(
            nodes,
            l as int,
            j,
        )),
        _ => false,
    }
}

/// The line nodes between a parallel or perpendicular and the base line it is rewritten to get
/// no entry from loading it, unless they come before its point (which may use them).
pub open spec fn chain_unloaded(nodes: Seq<Any>, old: Expand, new: Expand, n: int) -> bool {
    match nodes[n] {
        Any::Line(Line::ParallelThrough(k, p)) => forall|j: int|
            #[trigger] on_chain(nodes, k as int, j) && j > p ==> new.expr_map@[j] == old.expr_map@[j],
        Any::Line(Line::PerpendicularThrough(k, p)) => forall|j: int|
            #[trigger] on_chain(nodes, k as int, j) && j > p ==> new.expr_map@[j] == old.expr_map@[j],
        _ => true,
    }
}

proof fn lemma_chain(nodes: Seq<Any>, k: int, j: int)
    requires
        nodes_wf(nodes),
        0 <= k < nodes.len(),
        is_line(nodes, k),
    ensures
        0 <= chain_base(nodes, k) <= k,
        is_line(nodes, chain_base(nodes, k)),
        !(nodes[chain_base(nodes, k)] matches Any::Line(Line::ParallelThrough(..))),
        !(nodes[chain_base(nodes, k)] matches Any::Line(Line::PerpendicularThrough(..))),
        on_chain(nodes, k, j) ==> chain_base(nodes, k) < j <= k,
    decreases k,
{
    assert(node_wf(nodes, k));
    match nodes[k] {
        Any::Line(Line::ParallelThrough(l, _)) => {
            lemma_chain(nodes, l as int, j);
        },
        Any::Line(Line::PerpendicularThrough(l, _)) => {
            lemma_chain(nodes, l as int, j);
        },
        _ => {},
    }
}

/// A node that takes its operand's entry instead of one of its own: a circle's center or
/// radius, or a scalar given a unit (which is rescaled only when distances are adjusted).
pub open spec fn alias_node(a: Any) -> bool {
    a matches Any::Point(Point::CircleCenter(_)) || (a matches Any::Scalar(sc) && (
    sc.data is CircleRadius || sc.data is SetUnit))
}

/// A node loaded for the first time gets a new last entry, used once, unless it is an alias.
pub open spec fn fresh_entry(nodes: Seq<Any>, new: Expand, n: int, r: int) -> bool {
    alias_node(nodes[n]) || (r == new.record.len() - 1 && new.record@[r].uses == 1)
}

/// A free point or a free scalar.
pub open spec fn is_free_node(a: Any) -> bool {
    a matches Any::Point(Point::Free) || (a matches Any::Scalar(sc) && sc.data is Free)
}

/// A node that stands for an adjustable: free, or free on a line or a circle.
pub open spec fn creates_entity(a: Any) -> bool {
    is_free_node(a) || a matches Any::Point(Point::OnLine(_)) || a matches Any::Point(
        Point::OnCircle(_),
    )
}

/// The entity of a free node.
pub open spec fn free_entity_kind(a: Any) -> EntityKind {
    match a {
        Any::Point(_) => EntityKind::FreePoint,
        _ => EntityKind::FreeReal,
    }
}

/// Loading node `n` first, as entry `r`: a node that stands for an adjustable gets the newest
/// entity, and a free node adds exactly its own entity.
pub open spec fn fresh_entity(nodes: Seq<Any>, old: Expand, new: Expand, n: int, r: int) -> bool {
    &&& creates_entity(nodes[n]) ==> new.entities.len() > old.entities.len()
        && new.record@[r].expr.kind == (ExprKind::Entity { id: (new.entities.len() - 1) as usize })
    &&& is_free_node(nodes[n]) ==> new.entities@ == old.entities@.push(free_entity_kind(nodes[n]))
}

/// A circle's center or radius is loaded through the circle's operands: the circle node itself
/// gets no entry.
pub open spec fn circle_unloaded(nodes: Seq<Any>, old: Expand, new: Expand, n: int) -> bool {
    match nodes[n] {
        Any::Point(Point::CircleCenter(c)) => new.expr_map@[c as int] == old.expr_map@[c as int],
        Any::Scalar(sc) => match sc.data {
            ScalarData::CircleRadius(c) => new.expr_map@[c as int] == old.expr_map@[c as int],
            _ => true,
        },
        _ => true,
    }
}

/// The entry of node `n` is its expansion, in terms of the entries of its operands.
pub open spec fn expansion_of(nodes: Seq<Any>, e: Expand, n: int) -> bool {
    let m = |j: usize| e.expr_map@[j as int];
    let xs = exprs(e.record@);
    let k = xs[e.expr_map@[n] as int].kind;
    match nodes[n] {
        Any::Point(pt) => match pt {
            Point::Free => k matches ExprKind::Entity { id } && id < e.entities.len()
                && e.entities@[id as int] == EntityKind::FreePoint,
            Point::Average(items) => k matches ExprKind::AveragePoint { items: ids } && ids@
                == items@.map_values(m),
            Point::LineLineIntersection(a, b) => k == (ExprKind::LineLineIntersection {
                k: m(a),
                l: m(b),
            }),
            Point::CircleCenter(c) => match nodes[c as int] {
                Any::Circle(Circle::Circle(center, _)) => e.expr_map@[n] == m(center),
                _ => false,
            },
            Point::OnLine(l) => k matches ExprKind::Entity { id } && id < e.entities.len()
                && e.entities@[id as int] == (EntityKind::PointOnLine { line: m(l) }),
            Point::OnCircle(c) => k matches ExprKind::Entity { id } && id < e.entities.len()
                && e.entities@[id as int] == (EntityKind::PointOnCircle { circle: m(c) }),
        },
        Any::Line(ln) => match ln {
            Line::LineFromPoints(a, b) => k == (ExprKind::PointPoint { p: m(a), q: m(b) }),
            Line::AngleBisector(a, b, c) => k == (ExprKind::AngleBisector {
                p: m(a),
                q: m(b),
                r: m(c),
            }),
            Line::ParallelThrough(l, p) => {
                let b = chain_base(nodes, l as int) as usize;
                m(b) < xs.len() && k == through_kind(xs, m(p), m(b), chain_perp(nodes, l as int, false))
            },
            Line::PerpendicularThrough(l, p) => {
                let b = chain_base(nodes, l as int) as usize;
                m(b) < xs.len() && k == through_kind(xs, m(p), m(b), chain_perp(nodes, l as int, true))
            },
        },
        Any::Circle(Circle::Circle(c, r)) => k == (ExprKind::ConstructCircle {
            center: m(c),
            radius: m(r),
        }),
        Any::Scalar(sc) => match sc.data {
            ScalarData::Free => k matches ExprKind::Entity { id } && id < e.entities.len()
                && e.entities@[id as int] == EntityKind::FreeReal,
            ScalarData::Number(v) => match (sc.unit, e.distance) {
                (Some(u), Some(d)) if u.distance != 0 => k matches ExprKind::Product {
                    times,
                    ..
                } && times@.len() > 0 && xs[times@[0] as int].kind == (ExprKind::Const {
                    value: v,
                }) && scaled_by(k, times@[0], u.distance as int, d),
                _ => k == (ExprKind::Const { value: v }),
            },
            ScalarData::Add(a, b) => k matches ExprKind::Sum { plus, minus } && plus@ == seq![
                m(a),
                m(b),
            ] && minus@ == Seq::<usize>::empty(),
            ScalarData::Subtract(a, b) => k matches ExprKind::Sum { plus, minus } && plus@ == seq![
                m(a),
            ] && minus@ == seq![m(b)],
            ScalarData::Multiply(a, b) => k matches ExprKind::Product { times, by } && times@
                == seq![m(a), m(b)] && by@ == Seq::<usize>::empty(),
            ScalarData::Divide(a, b) => k matches ExprKind::Product { times, by } && times@ == seq![
                m(a),
            ] && by@ == seq![m(b)],
            ScalarData::Average(items) => k matches ExprKind::Product { times, by } && times@.len()
                == 1 && by@.len() == 1 && (xs[times@[0] as int].kind matches ExprKind::Sum {
                plus,
                minus,
            } && plus@ == items@.map_values(m) && minus@ == Seq::<usize>::empty()) && xs[by@[0] as int].kind
                == (ExprKind::Const { value: ProcNum { numer: items.len() as i64, denom: 1 } }),
            ScalarData::SetUnit(a, u) => {
                let power = u.distance - unit_distance(nodes, a as int);
                match e.distance {
                    Some(d) if power != 0 => scaled_by(k, m(a), power, d),
                    _ => e.expr_map@[n] == m(a),
                }
            },
            ScalarData::PointPointDistance(a, b) => k == (ExprKind::PointPointDistance {
                p: m(a),
                q: m(b),
            }),
            ScalarData::PointLineDistance(a, b) => k == (ExprKind::PointLineDistance {
                point: m(a),
                line: m(b),
            }),
            ScalarData::ThreePointAngle(a, b, c) => k == (ExprKind::ThreePointAngle {
                p: m(a),
                q: m(b),
                r: m(c),
            }),
            ScalarData::ThreePointAngleDir(a, b, c) => k == (ExprKind::ThreePointAngleDir {
                p: m(a),
                q: m(b),
                r: m(c),
            }),
            ScalarData::TwoLineAngle(a, b) => k == (ExprKind::TwoLineAngle { k: m(a), l: m(b) }),
            ScalarData::CircleRadius(c) => match nodes[c as int] {
                Any::Circle(Circle::Circle(_, r)) => e.expr_map@[n] == m(r),
                _ => false,
            },
            ScalarData::PointX(a) => k == (ExprKind::PointX { point: m(a) }),
            ScalarData::PointY(a) => k == (ExprKind::PointY { point: m(a) }),
        },
    }
}


/// Follows a chain of parallels and perpendiculars from line node `k` down to its base line;
/// returns that line and whether a line taken `perpendicular` to `k` is perpendicular to it.
fn chain_start(nodes: &Vec<Any>, k: usize, perpendicular: bool) -> (r: (usize, bool))
    requires
        nodes_wf(nodes@),
        is_line(nodes@, k as int),
    ensures
        r.0 == chain_base(nodes@, k as int),
        r.1 == chain_perp(nodes@, k as int, perpendicular),
{
    let ghost ns = nodes@;
    let mut base = k;
    let mut turned = perpendicular;
    let mut done = false;
    while !done
        invariant
            nodes_wf(ns),
            ns == nodes@,
            is_line(ns, base as int),
            chain_base(ns, base as int) == chain_base(ns, k as int),
            chain_perp(ns, base as int, turned) == chain_perp(ns, k as int, perpendicular),
            done ==> chain_base(ns, base as int) == base && chain_perp(ns, base as int, turned)
                == turned,
        decreases base * 2 + if done {
            0int
        } else {
            1int
        },
    {
        proof {
            assert(node_wf(ns, base as int));
        }
        match &nodes[base] {
            Any::Line(Line::ParallelThrough(l, _)) => {
                base = *l;
            },
            Any::Line(Line::PerpendicularThrough(l, _)) => {
                base = *l;
                turned = !turned;
            },
            _ => {
                done = true;
            },
        }
    }
    (base, turned)
}

/// The kind that scales entry `x` by entry `d` raised to `power`.
fn scaled(x: VarIndex, power: i32, d: VarIndex) -> (r: ExprKind)
    ensures
        scaled_by(r, x, power as int, d),
{
    let mut times: Vec<VarIndex> = Vec::new();
    times.push(x);
    let mut by: Vec<VarIndex> = Vec::new();
    let mut i: i32 = 0;
    while i < power
        invariant
            0 <= i,
            i <= power || i == 0,
            times@ == seq![x] + Seq::new(i as nat, |k: int| d),
        decreases power - i,
    {
        times.push(d);
        i += 1;
        proof {
            assert(times@ =~= seq![x] + Seq::new(i as nat, |k: int| d));
        }
    }
    let mut j: i32 = 0;
    while j > power
        invariant
            j <= 0,
            j >= power || j == 0,
            by@ == Seq::new((-j) as nat, |k: int| d),
        decreases j - power,
    {
        by.push(d);
        j -= 1;
        proof {
            assert(by@ =~= Seq::new((-j) as nat, |k: int| d));
        }
    }
    proof {
        if power > 0 {
            assert(i == power);
        } else {
            assert(i == 0);
            assert(times@ =~= seq![x] + Seq::new(0, |k: int| d));
        }
        if power < 0 {
            assert(j == power);
        } else {
            assert(j == 0);
        }
    }
    ExprKind::Product { times, by }
}

fn single_index(a: usize) -> (r: Vec<usize>)
    ensures
        r@ == seq![a],
{
    let r = vec![a];
    assert(r@ =~= seq![a]);
    r
}

fn pair_index(a: usize, b: usize) -> (r: Vec<usize>)
    ensures
        r@ == seq![a, b],
{
    let r = vec![a, b];
    assert(r@ =~= seq![a, b]);
    r
}

impl Expand {
    /// Records `r` as the entry of node `n`.
    fn map_to(&mut self, Ghost(nodes): Ghost<Seq<Any>>, n: usize, r: VarIndex)
        requires
            old(self).wf(nodes),
            n < nodes.len(),
            r < old(self).record.len(),
            old(self).expr_map@[n as int] == usize::MAX,
        ensures
            final(self).wf(nodes),
            final(self).extends(old(self)),
            final(self).expr_map@ == old(self).expr_map@.update(n as int, r),
            final(self).record@ == old(self).record@,
            final(self).entities@ == old(self).entities@,
    {
        self.expr_map.set(n, r);
        proof {
            assert forall|w: int|
                0 <= w < nodes.len() && #[trigger] self.expr_map@[w] != usize::MAX implies self.expr_map@[w]
                < self.record.len() by {
                if w != n {
                    assert(old(self).expr_map@[w] == self.expr_map@[w]);
                }
            }
        }
    }

    /// Appends the entry of node `n`.
    fn finish(&mut self, Ghost(nodes): Ghost<Seq<Any>>, n: usize, kind: ExprKind) -> (r: VarIndex)
        requires
            old(self).wf(nodes),
            n < nodes.len(),
            old(self).expr_map@[n as int] == usize::MAX,
            children_below(kind, old(self).record.len() as int),
            kind matches ExprKind::Entity { id } ==> id < old(self).entities.len() && entity_dep(
                old(self).entities@[id as int],
            ) < old(self).record.len(),
            kind matches ExprKind::ParallelThrough { line, .. } ==> line < old(self).record.len()
                && !is_through(old(self).record@[line as int].expr.kind),
            kind matches ExprKind::PerpendicularThrough { line, .. } ==> line < old(self).record.len()
                && !is_through(old(self).record@[line as int].expr.kind),
        ensures
            final(self).wf(nodes),
            final(self).extends(old(self)),
            r == old(self).record.len(),
            final(self).record@ == old(self).record@.push(Entry { expr: Expr { kind }, uses: 1 }),
            final(self).entities@ == old(self).entities@,
            final(self).expr_map@ == old(self).expr_map@.update(n as int, r),
    {
        let r = self.push_entry(Ghost(nodes), kind);
        self.map_to(Ghost(nodes), n, r);
        r
    }

    /// The kind of a parallel or perpendicular to the line in entry `line` through `point`.
    fn through(&self, point: VarIndex, line: VarIndex, perpendicular: bool) -> (r: ExprKind)
        requires
            line < self.record.len(),
        ensures
            r == through_kind(exprs(self.record@), point, line, perpendicular),
    {
        match &self.record[line].expr.kind {
            ExprKind::PerpendicularThrough { line: l, .. } => if perpendicular {
                ExprKind::ParallelThrough { point, line: *l }
            } else {
                ExprKind::PerpendicularThrough { point, line: *l }
            },
            ExprKind::ParallelThrough { line: l, .. } => if perpendicular {
                ExprKind::PerpendicularThrough { point, line: *l }
            } else {
                ExprKind::ParallelThrough { point, line: *l }
            },
            _ => if perpendicular {
                ExprKind::PerpendicularThrough { point, line }
            } else {
                ExprKind::ParallelThrough { point, line }
            },
        }
    }

    /// Loads every node of `items`, all of them operands of node `n`.
    #[verifier::rlimit(80)]
    fn load_all(&mut self, nodes: &Vec<Any>, items: &Vec<usize>, n: usize) -> (r: Vec<VarIndex>)
        requires
            old(self).wf(nodes@),
            nodes_wf(nodes@),
            n < nodes.len(),
            forall|j: int| 0 <= j < items.len() ==> #[trigger] items@[j] < n,
        ensures
            final(self).wf(nodes@),
            final(self).extends(old(self)),
            forall|w: int|
                n <= w < nodes.len() ==> #[trigger] final(self).expr_map@[w] == old(self).expr_map@[w],
            r.len() == items.len(),
            forall|j: int|
                0 <= j < items.len() ==> #[trigger] r@[j] == final(self).expr_map@[items@[j] as int]
                    && r@[j] < final(self).record.len(),
        decreases n, 0int,
    {
        let mut out: Vec<VarIndex> = Vec::new();
        let mut i: usize = 0;
        while i < items.len()
            invariant
                self.wf(nodes@),
                nodes_wf(nodes@),
                n < nodes.len(),
                forall|j: int| 0 <= j < items.len() ==> #[trigger] items@[j] < n,
                i <= items.len(),
                self.extends(old(self)),
                forall|w: int|
                    n <= w < nodes.len() ==> #[trigger] self.expr_map@[w] == old(self).expr_map@[w],
                out.len() == i,
                forall|j: int|
                    0 <= j < i ==> #[trigger] out@[j] == self.expr_map@[items@[j] as int] && out@[j]
                        < self.record.len(),
            decreases items.len() - i,
        {
            let ghost before = *self;
            let r = self.load(nodes, items[i]);
            out.push(r);
            i += 1;
            proof {
                assert forall|j: int| 0 <= j < i implies #[trigger] out@[j] == self.expr_map@[items@[j] as int]
                    && out@[j] < self.record.len() by {
                    if j < i - 1 {
                        let w = items@[j] as int;
                        assert(out@[j] == before.expr_map@[w]);
                        assert(before.expr_map@[w] != usize::MAX);
                        assert(0 <= w < before.expr_map.len());
                        assert(self.expr_map@[w] == before.expr_map@[w]);
                    }
                }
            }
        }
        out
    }

    /// Expands a point node.
    #[verifier::rlimit(60)]
    fn load_point(&mut self, nodes: &Vec<Any>, n: usize) -> (r: VarIndex)
        requires
            old(self).wf(nodes@),
            nodes_wf(nodes@),
            n < nodes.len(),
            old(self).expr_map@[n as int] == usize::MAX,
            nodes@[n as int] is Point,
        ensures
            final(self).wf(nodes@),
            final(self).extends(old(self)),
            forall|w: int|
                n < w < nodes.len() ==> #[trigger] final(self).expr_map@[w] == old(self).expr_map@[w],
            r < final(self).record.len(),
            final(self).expr_map@[n as int] == r,
            expansion_of(nodes@, *final(self), n as int),
            fresh_entity(nodes@, *old(self), *final(self), n as int, r as int),
            chain_unloaded(nodes@, *old(self), *final(self), n as int),
            fresh_entry(nodes@, *final(self), n as int, r as int),
            circle_unloaded(nodes@, *old(self), *final(self), n as int),
        decreases n, 1int,
    {
        let ghost ns = nodes@;
        proof {
            assert(node_wf(ns, n as int));
        }
        match &nodes[n] {
            Any::Point(pt) => match pt {
                Point::Free => {
                    let id = self.push_entity(Ghost(ns), EntityKind::FreePoint);
                    self.finish(Ghost(ns), n, ExprKind::Entity { id })
                },
                Point::Average(items) => {
                    let ids = self.load_all(nodes, items, n);
                    let ghost mid = *self;
                    let r = self.finish(Ghost(ns), n, ExprKind::AveragePoint { items: ids });
                    proof {
                        assert(ids@ =~= items@.map_values(|j: usize| self.expr_map@[j as int]));
                    }
                    r
                },
                Point::LineLineIntersection(a, b) => {
                    let k = self.load(nodes, *a);
                    let l = self.load(nodes, *b);
                    self.finish(Ghost(ns), n, ExprKind::LineLineIntersection { k, l })
                },
                Point::CircleCenter(c) => match &nodes[*c] {
                    Any::Circle(Circle::Circle(center, _)) => {
                        proof {
                            assert(node_wf(ns, *c as int));
                        }
                        let r = self.load(nodes, *center);
                        self.map_to(Ghost(ns), n, r);
                        r
                    },
                    _ => {
                        proof {
                            assert(false);
                        }
                        0
                    },
                },
                Point::OnLine(k) => {
                    let line = self.load(nodes, *k);
                    let id = self.push_entity(Ghost(ns), EntityKind::PointOnLine { line });
                    self.finish(Ghost(ns), n, ExprKind::Entity { id })
                },
                Point::OnCircle(c) => {
                    let circle = self.load(nodes, *c);
                    let id = self.push_entity(Ghost(ns), EntityKind::PointOnCircle { circle });
                    self.finish(Ghost(ns), n, ExprKind::Entity { id })
                },
            },
            _ => {
                proof {
                    assert(false);
                }
                0
            },
        }
    }

    /// Expands a line node.
    #[verifier::rlimit(60)]
    fn load_line(&mut self, nodes: &Vec<Any>, n: usize) -> (r: VarIndex)
        requires
            old(self).wf(nodes@),
            nodes_wf(nodes@),
            n < nodes.len(),
            old(self).expr_map@[n as int] == usize::MAX,
            nodes@[n as int] is Line,
        ensures
            final(self).wf(nodes@),
            final(self).extends(old(self)),
            forall|w: int|
                n < w < nodes.len() ==> #[trigger] final(self).expr_map@[w] == old(self).expr_map@[w],
            r < final(self).record.len(),
            final(self).expr_map@[n as int] == r,
            expansion_of(nodes@, *final(self), n as int),
            fresh_entity(nodes@, *old(self), *final(self), n as int, r as int),
            chain_unloaded(nodes@, *old(self), *final(self), n as int),
            fresh_entry(nodes@, *final(self), n as int, r as int),
            circle_unloaded(nodes@, *old(self), *final(self), n as int),
        decreases n, 1int,
    {
        let ghost ns = nodes@;
        proof {
            assert(node_wf(ns, n as int));
        }
        match &nodes[n] {
            Any::Line(ln) => match ln {
                Line::LineFromPoints(a, b) => {
                    let p = self.load(nodes, *a);
                    let q = self.load(nodes, *b);
                    self.finish(Ghost(ns), n, ExprKind::PointPoint { p, q })
                },
                Line::AngleBisector(a, b, c) => {
                    let p = self.load(nodes, *a);
                    let q = self.load(nodes, *b);
                    let r = self.load(nodes, *c);
                    self.finish(Ghost(ns), n, ExprKind::AngleBisector { p, q, r })
                },
                Line::ParallelThrough(k, p) => {
                    let ghost before = *self;
                    let point = self.load(nodes, *p);
                    let (base, perpendicular) = chain_start(nodes, *k, false);
                    proof {
                        lemma_chain(ns, *k as int, 0);
                    }
                    let ghost mid = *self;
                    let line = self.load(nodes, base);
                    let kind = self.through(point, line, perpendicular);
                    let r = self.finish(Ghost(ns), n, kind);
                    proof {
                        assert forall|j: int|
                            #[trigger] on_chain(ns, *k as int, j) && j > *p implies self.expr_map@[j]
                            == before.expr_map@[j] by {
                            lemma_chain(ns, *k as int, j);
                            assert(mid.expr_map@[j] == before.expr_map@[j]);
                        }
                    }
                    r
                },
                Line::PerpendicularThrough(k, p) => {
                    let ghost before = *self;
                    let point = self.load(nodes, *p);
                    let (base, perpendicular) = chain_start(nodes, *k, true);
                    proof {
                        lemma_chain(ns, *k as int, 0);
                    }
                    let ghost mid = *self;
                    let line = self.load(nodes, base);
                    let kind = self.through(point, line, perpendicular);
                    let r = self.finish(Ghost(ns), n, kind);
                    proof {
                        assert forall|j: int|
                            #[trigger] on_chain(ns, *k as int, j) && j > *p implies self.expr_map@[j]
                            == before.expr_map@[j] by {
                            lemma_chain(ns, *k as int, j);
                            assert(mid.expr_map@[j] == before.expr_map@[j]);
                        }
                    }
                    r
                },
            },
            _ => {
                proof {
                    assert(false);
                }
                0
            },
        }
    }

    /// Expands a circle node.
    #[verifier::rlimit(60)]
    fn load_circle(&mut self, nodes: &Vec<Any>, n: usize) -> (r: VarIndex)
        requires
            old(self).wf(nodes@),
            nodes_wf(nodes@),
            n < nodes.len(),
            old(self).expr_map@[n as int] == usize::MAX,
            nodes@[n as int] is Circle,
        ensures
            final(self).wf(nodes@),
            final(self).extends(old(self)),
            forall|w: int|
                n < w < nodes.len() ==> #[trigger] final(self).expr_map@[w] == old(self).expr_map@[w],
            r < final(self).record.len(),
            final(self).expr_map@[n as int] == r,
            expansion_of(nodes@, *final(self), n as int),
            fresh_entity(nodes@, *old(self), *final(self), n as int, r as int),
            chain_unloaded(nodes@, *old(self), *final(self), n as int),
            fresh_entry(nodes@, *final(self), n as int, r as int),
            circle_unloaded(nodes@, *old(self), *final(self), n as int),
        decreases n, 1int,
    {
        let ghost ns = nodes@;
        proof {
            assert(node_wf(ns, n as int));
        }
        match &nodes[n] {
            Any::Circle(Circle::Circle(c, rad)) => {
                let center = self.load(nodes, *c);
                let radius = self.load(nodes, *rad);
                self.finish(Ghost(ns), n, ExprKind::ConstructCircle { center, radius })
            },
            _ => {
                proof {
                    assert(false);
                }
                0
            },
        }
    }

    /// Expands a free scalar, a literal or an arithmetic node.
    #[verifier::rlimit(60)]
    fn load_arith(&mut self, nodes: &Vec<Any>, n: usize) -> (r: VarIndex)
        requires
            old(self).wf(nodes@),
            nodes_wf(nodes@),
            n < nodes.len(),
            old(self).expr_map@[n as int] == usize::MAX,
            nodes@[n as int] matches Any::Scalar(sc) && (sc.data is Free || sc.data is Number || sc.data is Add || sc.data is Subtract || sc.data is Multiply || sc.data is Divide || sc.data is Average || sc.data is SetUnit),
        ensures
            final(self).wf(nodes@),
            final(self).extends(old(self)),
            forall|w: int|
                n < w < nodes.len() ==> #[trigger] final(self).expr_map@[w] == old(self).expr_map@[w],
            r < final(self).record.len(),
            final(self).expr_map@[n as int] == r,
            expansion_of(nodes@, *final(self), n as int),
            fresh_entity(nodes@, *old(self), *final(self), n as int, r as int),
            chain_unloaded(nodes@, *old(self), *final(self), n as int),
            fresh_entry(nodes@, *final(self), n as int, r as int),
            circle_unloaded(nodes@, *old(self), *final(self), n as int),
        decreases n, 1int,
    {
        let ghost ns = nodes@;
        proof {
            assert(node_wf(ns, n as int));
        }
        match &nodes[n] {
            Any::Scalar(sc) => match &sc.data {
                ScalarData::Free => {
                    let id = self.push_entity(Ghost(ns), EntityKind::FreeReal);
                    self.finish(Ghost(ns), n, ExprKind::Entity { id })
                },
                ScalarData::Number(v) => {
                    let power: i8 = match sc.unit {
                        Some(u) => u.distance,
                        None => 0,
                    };
                    match self.distance {
                        Some(d) if power != 0 => {
                            let c = self.push_entry(Ghost(ns), ExprKind::Const { value: *v });
                            self.finish(Ghost(ns), n, scaled(c, power as i32, d))
                        },
                        _ => self.finish(Ghost(ns), n, ExprKind::Const { value: *v }),
                    }
                },
                ScalarData::Add(a, b) => {
                    let x = self.load(nodes, *a);
                    let y = self.load(nodes, *b);
                    self.finish(Ghost(ns), n, ExprKind::Sum { plus: pair_index(x, y), minus: Vec::new() })
                },
                ScalarData::Subtract(a, b) => {
                    let x = self.load(nodes, *a);
                    let y = self.load(nodes, *b);
                    self.finish(
                        Ghost(ns),
                        n,
                        ExprKind::Sum { plus: single_index(x), minus: single_index(y) },
                    )
                },
                ScalarData::Multiply(a, b) => {
                    let x = self.load(nodes, *a);
                    let y = self.load(nodes, *b);
                    self.finish(
                        Ghost(ns),
                        n,
                        ExprKind::Product { times: pair_index(x, y), by: Vec::new() },
                    )
                },
                ScalarData::Divide(a, b) => {
                    let x = self.load(nodes, *a);
                    let y = self.load(nodes, *b);
                    self.finish(
                        Ghost(ns),
                        n,
                        ExprKind::Product { times: single_index(x), by: single_index(y) },
                    )
                },
                ScalarData::Average(items) => {
                    let ids = self.load_all(nodes, items, n);
                    let ghost ids_view = ids@;
                    let total = self.push_entry(
                        Ghost(ns),
                        ExprKind::Sum { plus: ids, minus: Vec::new() },
                    );
                    let count = self.push_entry(
                        Ghost(ns),
                        ExprKind::Const { value: ProcNum { numer: items.len() as i64, denom: 1 } },
                    );
                    let r = self.finish(
                        Ghost(ns),
                        n,
                        ExprKind::Product { times: single_index(total), by: single_index(count) },
                    );
                    proof {
                        assert(ids_view =~= items@.map_values(|j: usize| self.expr_map@[j as int]));
                    }
                    r
                },
                ScalarData::SetUnit(a, u) => {
                    let x = self.load(nodes, *a);
                    let from: i8 = match &nodes[*a] {
                        Any::Scalar(inner) => match inner.unit {
                            Some(w) => w.distance,
                            None => 0,
                        },
                        _ => 0,
                    };
                    let power: i32 = u.distance as i32 - from as i32;
                    match self.distance {
                        Some(d) if power != 0 => self.finish(Ghost(ns), n, scaled(x, power, d)),
                        _ => {
                            self.map_to(Ghost(ns), n, x);
                            x
                        },
                    }
                },
                _ => {
                    proof {
                        assert(false);
                    }
                    0
                },
            },
            _ => {
                proof {
                    assert(false);
                }
                0
            },
        }
    }

    /// Expands a measurement of points, lines or circles.
    #[verifier::rlimit(60)]
    fn load_measure(&mut self, nodes: &Vec<Any>, n: usize) -> (r: VarIndex)
        requires
            old(self).wf(nodes@),
            nodes_wf(nodes@),
            n < nodes.len(),
            old(self).expr_map@[n as int] == usize::MAX,
            nodes@[n as int] matches Any::Scalar(sc) && !(sc.data is Free || sc.data is Number || sc.data is Add || sc.data is Subtract || sc.data is Multiply || sc.data is Divide || sc.data is Average || sc.data is SetUnit),
        ensures
            final(self).wf(nodes@),
            final(self).extends(old(self)),
            forall|w: int|
                n < w < nodes.len() ==> #[trigger] final(self).expr_map@[w] == old(self).expr_map@[w],
            r < final(self).record.len(),
            final(self).expr_map@[n as int] == r,
            expansion_of(nodes@, *final(self), n as int),
            fresh_entity(nodes@, *old(self), *final(self), n as int, r as int),
            chain_unloaded(nodes@, *old(self), *final(self), n as int),
            fresh_entry(nodes@, *final(self), n as int, r as int),
            circle_unloaded(nodes@, *old(self), *final(self), n as int),
        decreases n, 1int,
    {
        let ghost ns = nodes@;
        proof {
            assert(node_wf(ns, n as int));
        }
        match &nodes[n] {
            Any::Scalar(sc) => match &sc.data {
                ScalarData::PointPointDistance(a, b) => {
                    let p = self.load(nodes, *a);
                    let q = self.load(nodes, *b);
                    self.finish(Ghost(ns), n, ExprKind::PointPointDistance { p, q })
                },
                ScalarData::PointLineDistance(a, b) => {
                    let point = self.load(nodes, *a);
                    let line = self.load(nodes, *b);
                    self.finish(Ghost(ns), n, ExprKind::PointLineDistance { point, line })
                },
                ScalarData::ThreePointAngle(a, b, c) => {
                    let p = self.load(nodes, *a);
                    let q = self.load(nodes, *b);
                    let r = self.load(nodes, *c);
                    self.finish(Ghost(ns), n, ExprKind::ThreePointAngle { p, q, r })
                },
                ScalarData::ThreePointAngleDir(a, b, c) => {
                    let p = self.load(nodes, *a);
                    let q = self.load(nodes, *b);
                    let r = self.load(nodes, *c);
                    self.finish(Ghost(ns), n, ExprKind::ThreePointAngleDir { p, q, r })
                },
                ScalarData::TwoLineAngle(a, b) => {
                    let k = self.load(nodes, *a);
                    let l = self.load(nodes, *b);
                    self.finish(Ghost(ns), n, ExprKind::TwoLineAngle { k, l })
                },
                ScalarData::CircleRadius(c) => match &nodes[*c] {
                    Any::Circle(Circle::Circle(_, rad)) => {
                        proof {
                            assert(node_wf(ns, *c as int));
                        }
                        let r = self.load(nodes, *rad);
                        self.map_to(Ghost(ns), n, r);
                        r
                    },
                    _ => {
                        proof {
                            assert(false);
                        }
                        0
                    },
                },
                ScalarData::PointX(a) => {
                    let point = self.load(nodes, *a);
                    self.finish(Ghost(ns), n, ExprKind::PointX { point })
                },
                ScalarData::PointY(a) => {
                    let point = self.load(nodes, *a);
                    self.finish(Ghost(ns), n, ExprKind::PointY { point })
                },
                _ => {
                    proof {
                        assert(false);
                    }
                    0
                },
            },
            _ => {
                proof {
                    assert(false);
                }
                0
            },
        }
    }

    /// The entry of node `n`, expanding it and its operands on first sight. Loading a node again
    /// returns the same entry.
    pub fn load(&mut self, nodes: &Vec<Any>, n: usize) -> (r: VarIndex)
        requires
            old(self).wf(nodes@),
            nodes_wf(nodes@),
            n < nodes.len(),
        ensures
            final(self).wf(nodes@),
            final(self).extends(old(self)),
            forall|w: int|
                n < w < nodes.len() ==> #[trigger] final(self).expr_map@[w] == old(self).expr_map@[w],
            r < final(self).record.len(),
            final(self).expr_map@[n as int] == r,
            old(self).expr_map@[n as int] != usize::MAX ==> r == old(self).expr_map@[n as int]
                && final(self).record.len() == old(self).record.len()
                && final(self).entities@ == old(self).entities@
                && final(self).expr_map@ == old(self).expr_map@
                && final(self).record@[r as int].expr == old(self).record@[r as int].expr
                && final(self).record@[r as int].uses == (if old(self).record@[r as int].uses
                < usize::MAX {
                old(self).record@[r as int].uses + 1
            } else {
                old(self).record@[r as int].uses as int
            }) && forall|i: int|
                0 <= i < old(self).record.len() && i != r ==> #[trigger] final(self).record@[i]
                    == old(self).record@[i],
            old(self).expr_map@[n as int] == usize::MAX ==> expansion_of(
                nodes@,
                *final(self),
                n as int,
            ) && fresh_entity(nodes@, *old(self), *final(self), n as int, r as int) && circle_unloaded(
                nodes@,
                *old(self),
                *final(self),
                n as int,
            ) && chain_unloaded(nodes@, *old(self), *final(self), n as int) && fresh_entry(
                nodes@,
                *final(self),
                n as int,
                r as int,
            ),
        decreases n, 2int,
    {
        let cached = self.expr_map[n];
        if cached != usize::MAX {
            let uses = self.record[cached].uses;
            if uses < usize::MAX {
                self.record[cached].uses = uses + 1;
            }
            proof {
                assert(exprs(self.record@) =~= exprs(old(self).record@));
            }
            return cached;
        }
        match &nodes[n] {
            Any::Point(_) => self.load_point(nodes, n),
            Any::Line(_) => self.load_line(nodes, n),
            Any::Circle(_) => self.load_circle(nodes, n),
            Any::Scalar(sc) => match &sc.data {
                ScalarData::Free
                | ScalarData::Number(_)
                | ScalarData::Add(..)
                | ScalarData::Subtract(..)
                | ScalarData::Multiply(..)
                | ScalarData::Divide(..)
                | ScalarData::Average(_)
                | ScalarData::SetUnit(..) => self.load_arith(nodes, n),
                _ => self.load_measure(nodes, n),
            },
        }
    }

}


/// The rule kind an unrolled rule expands to, before inversion.
pub open spec fn loaded_base(rule: UnrolledRule, map: Seq<usize>) -> RuleKind {
    match rule.kind {
        UnrolledRuleKind::PointEq(a, b) => RuleKind::PointEq(map[a as int], map[b as int]),
        UnrolledRuleKind::ScalarEq(a, b) => RuleKind::NumberEq(map[a as int], map[b as int]),
        UnrolledRuleKind::Gt(a, b) => RuleKind::Gt(map[a as int], map[b as int]),
        UnrolledRuleKind::Lt(a, b) => RuleKind::Lt(map[a as int], map[b as int]),
        UnrolledRuleKind::Bias(_) => RuleKind::Bias,
    }
}

/// The rule kind an unrolled rule expands to, given the entries of its nodes.
pub open spec fn loaded_rule_kind(rule: UnrolledRule, map: Seq<usize>) -> RuleKind {
    let base = loaded_base(rule, map);
    if rule.inverted {
        RuleKind::Invert(Box::new(base))
    } else {
        base
    }
}

/// The entries an unrolled rule reads.
pub open spec fn rule_roots(rule: UnrolledRule, map: Seq<usize>) -> Seq<usize> {
    match rule.kind {
        UnrolledRuleKind::PointEq(a, b) => seq![map[a as int], map[b as int]],
        UnrolledRuleKind::ScalarEq(a, b) => seq![map[a as int], map[b as int]],
        UnrolledRuleKind::Gt(a, b) => seq![map[a as int], map[b as int]],
        UnrolledRuleKind::Lt(a, b) => seq![map[a as int], map[b as int]],
        UnrolledRuleKind::Bias(a) => seq![map[a as int]],
    }
}

/// The nodes an unrolled rule compares have entries.
pub open spec fn rule_nodes_loaded(rule: UnrolledRule, map: Seq<usize>) -> bool {
    match rule.kind {
        UnrolledRuleKind::PointEq(a, b) => map[a as int] != usize::MAX && map[b as int] != usize::MAX,
        UnrolledRuleKind::ScalarEq(a, b) => map[a as int] != usize::MAX && map[b as int]
            != usize::MAX,
        UnrolledRuleKind::Gt(a, b) => map[a as int] != usize::MAX && map[b as int] != usize::MAX,
        UnrolledRuleKind::Lt(a, b) => map[a as int] != usize::MAX && map[b as int] != usize::MAX,
        UnrolledRuleKind::Bias(a) => map[a as int] != usize::MAX,
    }
}

/// Set entries of `m1` are entries of `m2` too.
pub open spec fn map_extends(m1: Seq<usize>, m2: Seq<usize>) -> bool {
    &&& m1.len() == m2.len()
    &&& forall|n: int| 0 <= n < m1.len() && m1[n] != usize::MAX ==> #[trigger] m2[n] == m1[n]
}

proof fn lemma_rule_kind_stable(rule: UnrolledRule, m1: Seq<usize>, m2: Seq<usize>, n_nodes: int)
    requires
        rule_nodes_loaded(rule, m1),
        map_extends(m1, m2),
        m1.len() == n_nodes,
        unrolled_rule_wf_len(rule, n_nodes),
    ensures
        loaded_rule_kind(rule, m1) == loaded_rule_kind(rule, m2),
        rule_nodes_loaded(rule, m2),
{
}

/// The nodes of a rule lie below `n_nodes`.
pub open spec fn unrolled_rule_wf_len(rule: UnrolledRule, n_nodes: int) -> bool {
    match rule.kind {
        UnrolledRuleKind::PointEq(a, b) => a < n_nodes && b < n_nodes,
        UnrolledRuleKind::ScalarEq(a, b) => a < n_nodes && b < n_nodes,
        UnrolledRuleKind::Gt(a, b) => a < n_nodes && b < n_nodes,
        UnrolledRuleKind::Lt(a, b) => a < n_nodes && b < n_nodes,
        UnrolledRuleKind::Bias(a) => a < n_nodes,
    }
}

/// The operands of an expression, in order.
pub open spec fn operands(k: ExprKind) -> Seq<usize> {
    match k {
        ExprKind::LineLineIntersection { k, l } => seq![k, l],
        ExprKind::AveragePoint { items } => items@,
        ExprKind::CircleCenter { circle } => seq![circle],
        ExprKind::Entity { .. } => Seq::empty(),
        ExprKind::PointPoint { p, q } => seq![p, q],
        ExprKind::AngleBisector { p, q, r } => seq![p, q, r],
        ExprKind::ParallelThrough { point, line } => seq![point, line],
        ExprKind::PerpendicularThrough { point, line } => seq![point, line],
        ExprKind::Sum { plus, minus } => plus@ + minus@,
        ExprKind::Product { times, by } => times@ + by@,
        ExprKind::Const { .. } => Seq::empty(),
        ExprKind::Power { value, .. } => seq![value],
        ExprKind::PointPointDistance { p, q } => seq![p, q],
        ExprKind::PointLineDistance { point, line } => seq![point, line],
        ExprKind::ThreePointAngle { p, q, r } => seq![p, q, r],
        ExprKind::ThreePointAngleDir { p, q, r } => seq![p, q, r],
        ExprKind::TwoLineAngle { k, l } => seq![k, l],
        ExprKind::PointX { point } => seq![point],
        ExprKind::PointY { point } => seq![point],
        ExprKind::ConstructCircle { center, radius } => seq![center, radius],
    }
}

/// Entry `v` depends on entity `e`: it is `e`, it is an entity defined by an expression that
/// depends on `e`, or one of its operands depends on `e`.
pub open spec fn needs(vars: Seq<Expr>, ents: Seq<EntityKind>, v: int, e: usize) -> bool
    decreases v, 1int, 0int,
{
    if 0 <= v < vars.len() {
        match vars[v].kind {
            ExprKind::Entity { id } => id == e || (0 <= entity_dep(ents[id as int]) < v && needs(
                vars,
                ents,
                entity_dep(ents[id as int]),
                e,
            )),
            _ => needs_some(vars, ents, operands(vars[v].kind), v, operands(vars[v].kind).len() as int, e),
        }
    } else {
        false
    }
}

/// One of `ops[..i]`, all operands of entry `v`, depends on entity `e`.
pub open spec fn needs_some(
    vars: Seq<Expr>,
    ents: Seq<EntityKind>,
    ops: Seq<usize>,
    v: int,
    i: int,
    e: usize,
) -> bool
    decreases v, 0int, i,
{
    if i <= 0 {
        false
    } else {
        needs_some(vars, ents, ops, v, i - 1, e) || (0 <= ops[i - 1] < v && needs(
            vars,
            ents,
            ops[i - 1] as int,
            e,
        ))
    }
}

/// Some entry of `roots` depends on entity `e`.
pub open spec fn needed(vars: Seq<Expr>, ents: Seq<EntityKind>, roots: Seq<usize>, e: usize) -> bool {
    exists|k: int| 0 <= k < roots.len() && #[trigger] needs(vars, ents, roots[k] as int, e)
}

/// Some marked entry below `bound` depends on entity `e`.
pub open spec fn pending(
    vars: Seq<Expr>,
    ents: Seq<EntityKind>,
    marks: Seq<bool>,
    bound: int,
    e: usize,
) -> bool {
    exists|u: int| 0 <= u < bound && marks[u] && #[trigger] needs(vars, ents, u, e)
}

proof fn lemma_needs_some(
    vars: Seq<Expr>,
    ents: Seq<EntityKind>,
    ops: Seq<usize>,
    v: int,
    i: int,
    e: usize,
)
    requires
        0 <= i <= ops.len(),
        all_below(ops, v),
    ensures
        needs_some(vars, ents, ops, v, i, e) <==> exists|j: int|
            0 <= j < i && #[trigger] needs(vars, ents, ops[j] as int, e),
    decreases i,
{
    if i > 0 {
        lemma_needs_some(vars, ents, ops, v, i - 1, e);
        if needs_some(vars, ents, ops, v, i, e) {
            if !needs_some(vars, ents, ops, v, i - 1, e) {
                assert(needs(vars, ents, ops[i - 1] as int, e));
            }
        }
        if exists|j: int| 0 <= j < i && #[trigger] needs(vars, ents, ops[j] as int, e) {
            let j = choose|j: int| 0 <= j < i && #[trigger] needs(vars, ents, ops[j] as int, e);
            if j < i - 1 {
                assert(needs_some(vars, ents, ops, v, i - 1, e));
            }
        }
    }
}

/// A non-entity entry depends on `e` exactly when one of its operands does.
proof fn lemma_needs_operands(vars: Seq<Expr>, ents: Seq<EntityKind>, v: int, e: usize)
    requires
        0 <= v < vars.len(),
        !(vars[v].kind is Entity),
        children_below(vars[v].kind, v),
    ensures
        needs(vars, ents, v, e) <==> exists|j: int|
            0 <= j < operands(vars[v].kind).len() && #[trigger] needs(
                vars,
                ents,
                operands(vars[v].kind)[j] as int,
                e,
            ),
{
    let ops = operands(vars[v].kind);
    assert(all_below(ops, v));
    lemma_needs_some(vars, ents, ops, v, ops.len() as int, e);
}

/// The elements increase strictly.
pub open spec fn increasing(s: Seq<usize>) -> bool {
    forall|i: int, j: int| 0 <= i < j < s.len() ==> s[i] < s[j]
}

/// Marks the operands of entry `v`.
fn mark_operands(marks: &mut Vec<bool>, kind: &ExprKind, v: usize)
    requires
        old(marks).len() > v,
        children_below(*kind, v as int),
    ensures
        final(marks).len() == old(marks).len(),
        forall|w: int| v <= w < old(marks).len() ==> #[trigger] final(marks)@[w] == old(marks)@[w],
        forall|w: int| 0 <= w < old(marks).len() && #[trigger] old(marks)@[w] ==> final(marks)@[w],
        forall|j: int| 0 <= j < operands(*kind).len() ==> final(marks)@[#[trigger] operands(*kind)[j] as int],
        forall|w: int|
            0 <= w < old(marks).len() && #[trigger] final(marks)@[w] && !old(marks)@[w] ==> exists|j: int|
                0 <= j < operands(*kind).len() && operands(*kind)[j] == w,
{
    let mut ops: Vec<usize> = Vec::new();
    match kind {
        ExprKind::LineLineIntersection { k, l } => {
            ops.push(*k);
            ops.push(*l);
        },
        ExprKind::AveragePoint { items } => {
            append_all(&mut ops, items);
        },
        ExprKind::CircleCenter { circle } => ops.push(*circle),
        ExprKind::Entity { .. } => {},
        ExprKind::PointPoint { p, q } => {
            ops.push(*p);
            ops.push(*q);
        },
        ExprKind::AngleBisector { p, q, r } => {
            ops.push(*p);
            ops.push(*q);
            ops.push(*r);
        },
        ExprKind::ParallelThrough { point, line } => {
            ops.push(*point);
            ops.push(*line);
        },
        ExprKind::PerpendicularThrough { point, line } => {
            ops.push(*point);
            ops.push(*line);
        },
        ExprKind::Sum { plus, minus } => {
            append_all(&mut ops, plus);
            append_all(&mut ops, minus);
        },
        ExprKind::Product { times, by } => {
            append_all(&mut ops, times);
            append_all(&mut ops, by);
        },
        ExprKind::Const { .. } => {},
        ExprKind::Power { value, .. } => ops.push(*value),
        ExprKind::PointPointDistance { p, q } => {
            ops.push(*p);
            ops.push(*q);
        },
        ExprKind::PointLineDistance { point, line } => {
            ops.push(*point);
            ops.push(*line);
        },
        ExprKind::ThreePointAngle { p, q, r } => {
            ops.push(*p);
            ops.push(*q);
            ops.push(*r);
        },
        ExprKind::ThreePointAngleDir { p, q, r } => {
            ops.push(*p);
            ops.push(*q);
            ops.push(*r);
        },
        ExprKind::TwoLineAngle { k, l } => {
            ops.push(*k);
            ops.push(*l);
        },
        ExprKind::PointX { point } => ops.push(*point),
        ExprKind::PointY { point } => ops.push(*point),
        ExprKind::ConstructCircle { center, radius } => {
            ops.push(*center);
            ops.push(*radius);
        },
    }
    proof {
        assert(ops@ =~= operands(*kind));
    }
    let mut i: usize = 0;
    while i < ops.len()
        invariant
            ops@ == operands(*kind),
            all_below(ops@, v as int),
            i <= ops.len(),
            marks.len() == old(marks).len(),
            old(marks).len() > v,
            forall|w: int| v <= w < old(marks).len() ==> #[trigger] marks@[w] == old(marks)@[w],
            forall|w: int| 0 <= w < old(marks).len() && #[trigger] old(marks)@[w] ==> marks@[w],
            forall|j: int| 0 <= j < i ==> marks@[#[trigger] ops@[j] as int],
            forall|w: int|
                0 <= w < old(marks).len() && #[trigger] marks@[w] && !old(marks)@[w] ==> exists|j: int|
                    0 <= j < i && ops@[j] == w,
        decreases ops.len() - i,
    {
        marks.set(ops[i], true);
        i += 1;
    }
}

/// Appends `items` to `ops`.
fn append_all(ops: &mut Vec<usize>, items: &Vec<usize>)
    ensures
        final(ops)@ == old(ops)@ + items@,
{
    let mut i: usize = 0;
    while i < items.len()
        invariant
            i <= items.len(),
            ops@ == old(ops)@ + items@.take(i as int),
        decreases items.len() - i,
    {
        ops.push(items[i]);
        i += 1;
        proof {
            assert(ops@ =~= old(ops)@ + items@.take(i as int));
        }
    }
    proof {
        assert(items@.take(items.len() as int) =~= items@);
    }
}

/// The entities that the entries `roots` depend on, through operands and through the
/// expressions that define entities, in increasing order.
#[verifier::rlimit(80)]
fn rule_entities(vars: &Vec<Entry>, ents: &Vec<EntityKind>, roots: &Vec<VarIndex>) -> (r: Vec<
    EntityId,
>)
    requires
        table_wf(exprs(vars@), ents@),
        all_below(roots@, vars.len() as int),
    ensures
        increasing(r@),
        all_below(r@, ents.len() as int),
        forall|e: usize|
            e < ents.len() ==> (r@.contains(e) <==> needed(exprs(vars@), ents@, roots@, e)),
{
    let ghost xs = exprs(vars@);
    let ghost es = ents@;
    let ghost rs = roots@;
    let mut marks: Vec<bool> = Vec::new();
    let mut i: usize = 0;
    while i < vars.len()
        invariant
            i <= vars.len(),
            marks.len() == i,
            forall|w: int| 0 <= w < i ==> !#[trigger] marks@[w],
        decreases vars.len() - i,
    {
        marks.push(false);
        i += 1;
    }
    let mut k: usize = 0;
    while k < roots.len()
        invariant
            all_below(roots@, vars.len() as int),
            marks.len() == vars.len(),
            k <= roots.len(),
            forall|j: int| 0 <= j < k ==> marks@[#[trigger] roots@[j] as int],
            forall|w: int|
                0 <= w < marks.len() && #[trigger] marks@[w] ==> exists|j: int|
                    0 <= j < k && roots@[j] == w,
        decreases roots.len() - k,
    {
        marks.set(roots[k], true);
        k += 1;
    }
    proof {
        assert forall|w: int, e: usize|
            0 <= w < marks.len() && marks@[w] && #[trigger] needs(xs, es, w, e) implies needed(
            xs,
            es,
            rs,
            e,
        ) by {
            let j = choose|j: int| 0 <= j < roots.len() && roots@[j] == w;
            assert(needs(xs, es, rs[j] as int, e));
        }
    }
    let mut found: Vec<bool> = Vec::new();
    let mut e: usize = 0;
    while e < ents.len()
        invariant
            e <= ents.len(),
            found.len() == e,
            forall|x: int| 0 <= x < e ==> !#[trigger] found@[x],
        decreases ents.len() - e,
    {
        found.push(false);
        e += 1;
    }
    let mut v: usize = vars.len();
    while v > 0
        invariant
            xs == exprs(vars@),
            es == ents@,
            rs == roots@,
            xs.len() == vars.len(),
            table_wf(xs, es),
            all_below(rs, vars.len() as int),
            v <= vars.len(),
            marks.len() == vars.len(),
            found.len() == ents.len(),
            forall|j: int| 0 <= j < rs.len() ==> marks@[#[trigger] rs[j] as int],
            forall|w: int, e: usize|
                0 <= w < marks.len() && marks@[w] && #[trigger] needs(xs, es, w, e) ==> needed(
                    xs,
                    es,
                    rs,
                    e,
                ),
            forall|e: usize| e < found.len() && #[trigger] found@[e as int] ==> needed(xs, es, rs, e),
            forall|w: int, e: usize|
                v <= w < marks.len() && e < found.len() && marks@[w] && #[trigger] needs(
                    xs,
                    es,
                    w,
                    e,
                ) ==> found@[e as int] || pending(xs, es, marks@, v as int, e),
        decreases v,
    {
        v -= 1;
        let ghost before_found = found@;
        let ghost before_marks = marks@;
        proof {
            assert(xs[v as int] == vars@[v as int].expr);
            assert(children_below(xs[v as int].kind, v as int));
        }
        if marks[v] {
            if let ExprKind::Entity { id } = &vars[v].expr.kind {
                let id = *id;
                proof {
                    assert(id < ents.len() && entity_dep(es[id as int]) < v);
                }
                found.set(id, true);
                match &ents[id] {
                    EntityKind::PointOnLine { line } => marks.set(*line, true),
                    EntityKind::PointOnCircle { circle } => marks.set(*circle, true),
                    _ => {},
                }
                proof {
                    let dep = entity_dep(es[id as int]);
                    assert(needs(xs, es, v as int, id));
                    assert forall|w: int, e: usize|
                        0 <= w < marks.len() && marks@[w] && #[trigger] needs(xs, es, w, e) implies needed(
                        xs,
                        es,
                        rs,
                        e,
                    ) by {
                        if !before_marks[w] {
                            assert(w == dep);
                            assert(needs(xs, es, v as int, e));
                        }
                    }
                    assert forall|e: usize| e < found.len() && #[trigger] found@[e as int] implies needed(
                        xs,
                        es,
                        rs,
                        e,
                    ) by {
                        if e != id {
                            assert(before_found[e as int]);
                        }
                    }
                    assert forall|w: int, e: usize|
                        v <= w < marks.len() && e < found.len() && marks@[w] && #[trigger] needs(
                            xs,
                            es,
                            w,
                            e,
                        ) implies found@[e as int] || pending(xs, es, marks@, v as int, e) by {
                        if w == v {
                            if e != id {
                                assert(0 <= dep < v && needs(xs, es, dep, e));
                                assert(marks@[dep]);
                            }
                        } else {
                            assert(before_marks[w]);
                            if !before_found[e as int] {
                                assert(pending(xs, es, before_marks, v + 1, e));
                                let u = choose|u: int|
                                    0 <= u < v + 1 && before_marks[u] && #[trigger] needs(xs, es, u, e);
                                if u < v {
                                    assert(marks@[u]);
                                } else if e != id {
                                    assert(0 <= dep < v && needs(xs, es, dep, e));
                                    assert(marks@[dep]);
                                }
                            }
                        }
                    }
                }
            } else {
                mark_operands(&mut marks, &vars[v].expr.kind, v);
                proof {
                    let ops = operands(xs[v as int].kind);
                    assert forall|e: usize| #[trigger] needs(xs, es, v as int, e) <==> exists|j: int|
                        0 <= j < ops.len() && #[trigger] needs(xs, es, ops[j] as int, e) by {
                        lemma_needs_operands(xs, es, v as int, e);
                    }
                    assert forall|w: int, e: usize|
                        0 <= w < marks.len() && marks@[w] && #[trigger] needs(xs, es, w, e) implies needed(
                        xs,
                        es,
                        rs,
                        e,
                    ) by {
                        if !before_marks[w] {
                            let j = choose|j: int| 0 <= j < ops.len() && ops[j] == w;
                            assert(needs(xs, es, ops[j] as int, e));
                            assert(needs(xs, es, v as int, e));
                        }
                    }
                    assert forall|w: int, e: usize|
                        v <= w < marks.len() && e < found.len() && marks@[w] && #[trigger] needs(
                            xs,
                            es,
                            w,
                            e,
                        ) implies found@[e as int] || pending(xs, es, marks@, v as int, e) by {
                        if needs(xs, es, v as int, e) {
                            let j = choose|j: int| 0 <= j < ops.len() && #[trigger] needs(
                                xs,
                                es,
                                ops[j] as int,
                                e,
                            );
                            assert(ops[j] < v);
                            assert(marks@[ops[j] as int]);
                        }
                        if w > v {
                            assert(before_marks[w]);
                            if !before_found[e as int] {
                                assert(pending(xs, es, before_marks, v + 1, e));
                                let u = choose|u: int|
                                    0 <= u < v + 1 && before_marks[u] && #[trigger] needs(xs, es, u, e);
                                if u < v {
                                    assert(marks@[u]);
                                }
                            }
                        }
                    }
                }
            }
        } else {
            proof {
                assert forall|w: int, e: usize|
                    v <= w < marks.len() && e < found.len() && marks@[w] && #[trigger] needs(
                        xs,
                        es,
                        w,
                        e,
                    ) implies found@[e as int] || pending(xs, es, marks@, v as int, e) by {
                    if w > v && !found@[e as int] {
                        assert(pending(xs, es, marks@, v + 1, e));
                        let u = choose|u: int|
                            0 <= u < v + 1 && marks@[u] && #[trigger] needs(xs, es, u, e);
                        assert(u != v);
                    }
                }
            }
        }
    }
    let mut out: Vec<EntityId> = Vec::new();
    let mut e: usize = 0;
    while e < ents.len()
        invariant
            e <= ents.len(),
            found.len() == ents.len(),
            increasing(out@),
            all_below(out@, e as int),
            forall|x: usize| x < e ==> (out@.contains(x) <==> #[trigger] found@[x as int]),
        decreases ents.len() - e,
    {
        let ghost old_out = out@;
        if found[e] {
            out.push(e);
        }
        proof {
            assert forall|x: usize| x < e + 1 implies (out@.contains(x) <==> #[trigger] found@[x as int]) by {
                if x < e {
                    if old_out.contains(x) {
                        let k = choose|k: int| 0 <= k < old_out.len() && old_out[k] == x;
                        assert(out@[k] == x);
                    }
                    if out@.contains(x) {
                        let k = choose|k: int| 0 <= k < out@.len() && out@[k] == x;
                        if k == old_out.len() {
                            assert(out@[k] == e);
                        } else {
                            assert(old_out[k] == x);
                        }
                    }
                } else {
                    if found@[e as int] {
                        assert(out@[out@.len() - 1] == e);
                    } else {
                        assert(out@ == old_out);
                        if old_out.contains(x) {
                            let k = choose|k: int| 0 <= k < old_out.len() && old_out[k] == x;
                            assert(old_out[k] < e);
                        }
                    }
                }
            }
        }
        e += 1;
    }
    proof {
        assert forall|x: usize| x < ents.len() implies (out@.contains(x) <==> needed(xs, es, rs, x)) by {
            assert(out@.contains(x) <==> found@[x as int]);
            if found@[x as int] {
                assert(needed(xs, es, rs, x));
            }
            if needed(xs, es, rs, x) {
                let k = choose|k: int| 0 <= k < rs.len() && #[trigger] needs(xs, es, rs[k] as int, x);
                assert(marks@[rs[k] as int]);
                assert(!pending(xs, es, marks@, 0, x));
                assert(found@[x as int]);
            }
        }
    }
    out
}

/// Loads two nodes, in order.
fn load_pair(math: &mut Expand, nodes: &Vec<Any>, a: usize, b: usize) -> (r: (VarIndex, VarIndex))
    requires
        old(math).wf(nodes@),
        nodes_wf(nodes@),
        a < nodes.len(),
        b < nodes.len(),
    ensures
        final(math).wf(nodes@),
        final(math).extends(old(math)),
        r.0 == final(math).expr_map@[a as int],
        r.1 == final(math).expr_map@[b as int],
        r.0 < final(math).record.len(),
        r.1 < final(math).record.len(),
{
    let x = math.load(nodes, a);
    let ghost mid = *math;
    let y = math.load(nodes, b);
    proof {
        assert(mid.expr_map@[a as int] != usize::MAX);
    }
    (x, y)
}

/// Loads the nodes a rule compares; returns its kind before inversion and the entries it reads.
fn load_rule_base(rule: &UnrolledRule, math: &mut Expand, nodes: &Vec<Any>) -> (r: (
    RuleKind,
    Vec<VarIndex>,
))
    requires
        old(math).wf(nodes@),
        nodes_wf(nodes@),
        unrolled_rule_wf(nodes@, *rule),
    ensures
        final(math).wf(nodes@),
        final(math).extends(old(math)),
        r.0 == loaded_base(*rule, final(math).expr_map@),
        r.1@ == rule_roots(*rule, final(math).expr_map@),
        rule_nodes_loaded(*rule, final(math).expr_map@),
        rule_refs_below(r.0, final(math).record.len() as int),
        all_below(r.1@, final(math).record.len() as int),
{
    match rule.kind {
        UnrolledRuleKind::PointEq(a, b) => {
            let (x, y) = load_pair(math, nodes, a, b);
            (RuleKind::PointEq(x, y), pair_index(x, y))
        },
        UnrolledRuleKind::ScalarEq(a, b) => {
            let (x, y) = load_pair(math, nodes, a, b);
            (RuleKind::NumberEq(x, y), pair_index(x, y))
        },
        UnrolledRuleKind::Gt(a, b) => {
            let (x, y) = load_pair(math, nodes, a, b);
            (RuleKind::Gt(x, y), pair_index(x, y))
        },
        UnrolledRuleKind::Lt(a, b) => {
            let (x, y) = load_pair(math, nodes, a, b);
            (RuleKind::Lt(x, y), pair_index(x, y))
        },
        UnrolledRuleKind::Bias(a) => {
            let x = math.load(nodes, a);
            (RuleKind::Bias, single_index(x))
        },
    }
}

proof fn lemma_increasing_distinct(s: Seq<usize>)
    requires
        increasing(s),
    ensures
        distinct(s),
{
    assert forall|i: int, j: int| 0 <= i < s.len() && 0 <= j < s.len() && i != j implies s[i]
        != s[j] by {
        if i < j {
            assert(s[i] < s[j]);
        } else {
            assert(s[j] < s[i]);
        }
    }
}

impl Rule {
    /// Expands an unrolled rule, loading the nodes it compares.
    pub fn load(rule: &UnrolledRule, math: &mut Expand, nodes: &Vec<Any>) -> (r: Rule)
        requires
            old(math).wf(nodes@),
            nodes_wf(nodes@),
            unrolled_rule_wf(nodes@, *rule),
        ensures
            final(math).wf(nodes@),
            final(math).extends(old(math)),
            r.kind == loaded_rule_kind(*rule, final(math).expr_map@),
            rule_nodes_loaded(*rule, final(math).expr_map@),
            r.weight == rule.weight,
            increasing(r.entities@),
            r.wf(final(math).record.len() as int, final(math).entities.len() as int),
            forall|e: usize|
                e < final(math).entities.len() ==> (r.entities@.contains(e) <==> needed(
                    exprs(final(math).record@),
                    final(math).entities@,
                    rule_roots(*rule, final(math).expr_map@),
                    e,
                )),
    {
        let (base, roots) = load_rule_base(rule, math, nodes);
        let entities = rule_entities(&math.record, &math.entities, &roots);
        let kind = if rule.inverted {
            RuleKind::Invert(Box::new(base))
        } else {
            base
        };
        proof {
            lemma_increasing_distinct(entities@);
        }
        Rule { kind, entities, weight: rule.weight }
    }
}


/// `a` and `b` are the same expression: same variant, equal operands and equal constants.
pub open spec fn same_shape(a: ExprKind, b: ExprKind) -> bool {
    match b {
        ExprKind::AveragePoint { items } => a matches ExprKind::AveragePoint { items: x } && x@
            == items@,
        ExprKind::Sum { plus, minus } => a matches ExprKind::Sum { plus: x, minus: y } && x@
            == plus@ && y@ == minus@,
        ExprKind::Product { times, by } => a matches ExprKind::Product { times: x, by: y } && x@
            == times@ && y@ == by@,
        _ => a == b,
    }
}

proof fn lemma_copy_keeps_wf(a: Seq<Expr>, b: Seq<Expr>, ents: Seq<EntityKind>)
    requires
        a.len() == b.len(),
        forall|i: int| 0 <= i < a.len() ==> same_shape(#[trigger] a[i].kind, b[i].kind),
        table_wf(b, ents),
        no_nested_through(b),
    ensures
        table_wf(a, ents),
        no_nested_through(a),
{
    assert forall|v: int| 0 <= v < a.len() implies children_below(#[trigger] a[v].kind, v) by {
        assert(same_shape(a[v].kind, b[v].kind));
        assert(children_below(b[v].kind, v));
    }
    assert forall|v: int| #![trigger a[v]] 0 <= v < a.len() implies match a[v].kind {
        ExprKind::Entity { id } => id < ents.len() && entity_dep(ents[id as int]) < v,
        _ => true,
    } by {
        assert(same_shape(a[v].kind, b[v].kind));
        assert(b[v] == b[v]);
    }
    assert forall|v: int| #![trigger a[v]] 0 <= v < a.len() implies match a[v].kind {
        ExprKind::ParallelThrough { line, .. } => line < a.len() && !is_through(a[line as int].kind),
        ExprKind::PerpendicularThrough { line, .. } => line < a.len() && !is_through(
            a[line as int].kind,
        ),
        _ => true,
    } by {
        assert(same_shape(a[v].kind, b[v].kind));
        assert(b[v] == b[v]);
        match b[v].kind {
            ExprKind::ParallelThrough { line, .. } => {
                assert(same_shape(a[line as int].kind, b[line as int].kind));
            },
            ExprKind::PerpendicularThrough { line, .. } => {
                assert(same_shape(a[line as int].kind, b[line as int].kind));
            },
            _ => {},
        }
    }
}

/// A copy of index list `v`.
fn copy_indices(v: &Vec<usize>) -> (r: Vec<usize>)
    ensures
        r@ == v@,
{
    let mut r: Vec<usize> = Vec::new();
    let mut i: usize = 0;
    while i < v.len()
        invariant
            i <= v.len(),
            r@ == v@.take(i as int),
        decreases v.len() - i,
    {
        r.push(v[i]);
        i += 1;
        proof {
            assert(r@ =~= v@.take(i as int));
        }
    }
    proof {
        assert(r@ =~= v@);
    }
    r
}

/// A copy of expression kind `k`.
fn copy_kind(k: &ExprKind) -> (r: ExprKind)
    ensures
        same_shape(r, *k),
{
    match k {
        ExprKind::LineLineIntersection { k, l } => ExprKind::LineLineIntersection { k: *k, l: *l },
        ExprKind::AveragePoint { items } => ExprKind::AveragePoint { items: copy_indices(items) },
        ExprKind::CircleCenter { circle } => ExprKind::CircleCenter { circle: *circle },
        ExprKind::Entity { id } => ExprKind::Entity { id: *id },
        ExprKind::PointPoint { p, q } => ExprKind::PointPoint { p: *p, q: *q },
        ExprKind::AngleBisector { p, q, r } => ExprKind::AngleBisector { p: *p, q: *q, r: *r },
        ExprKind::ParallelThrough { point, line } => ExprKind::ParallelThrough { point: *point, line: *line },
        ExprKind::PerpendicularThrough { point, line } => ExprKind::PerpendicularThrough { point: *point, line: *line },
        ExprKind::Sum { plus, minus } => ExprKind::Sum { plus: copy_indices(plus), minus: copy_indices(minus) },
        ExprKind::Product { times, by } => ExprKind::Product { times: copy_indices(times), by: copy_indices(by) },
        ExprKind::Const { value } => ExprKind::Const { value: *value },
        ExprKind::Power { value, exponent } => ExprKind::Power { value: *value, exponent: *exponent },
        ExprKind::PointPointDistance { p, q } => ExprKind::PointPointDistance { p: *p, q: *q },
        ExprKind::PointLineDistance { point, line } => ExprKind::PointLineDistance { point: *point, line: *line },
        ExprKind::ThreePointAngle { p, q, r } => ExprKind::ThreePointAngle { p: *p, q: *q, r: *r },
        ExprKind::ThreePointAngleDir { p, q, r } => ExprKind::ThreePointAngleDir { p: *p, q: *q, r: *r },
        ExprKind::TwoLineAngle { k, l } => ExprKind::TwoLineAngle { k: *k, l: *l },
        ExprKind::PointX { point } => ExprKind::PointX { point: *point },
        ExprKind::PointY { point } => ExprKind::PointY { point: *point },
        ExprKind::ConstructCircle { center, radius } => ExprKind::ConstructCircle { center: *center, radius: *radius },
    }
}

/// The expressions of a record, copied.
fn copy_exprs(record: &Vec<Entry>) -> (r: Vec<Expr>)
    ensures
        r.len() == record.len(),
        forall|i: int| 0 <= i < r.len() ==> same_shape(#[trigger] r@[i].kind, record@[i].expr.kind),
{
    let mut r: Vec<Expr> = Vec::new();
    let mut i: usize = 0;
    while i < record.len()
        invariant
            i <= record.len(),
            r.len() == i,
            forall|j: int| 0 <= j < i ==> same_shape(#[trigger] r@[j].kind, record@[j].expr.kind),
        decreases record.len() - i,
    {
        r.push(Expr { kind: copy_kind(&record[i].expr.kind) });
        i += 1;
    }
    r
}

/// A copy of an entity table.
fn copy_entities(ents: &Vec<EntityKind>) -> (r: Vec<EntityKind>)
    ensures
        r@ == ents@,
{
    let mut r: Vec<EntityKind> = Vec::new();
    let mut i: usize = 0;
    while i < ents.len()
        invariant
            i <= ents.len(),
            r@ == ents@.take(i as int),
        decreases ents.len() - i,
    {
        r.push(ents[i]);
        i += 1;
        proof {
            assert(r@ =~= ents@.take(i as int));
        }
    }
    proof {
        assert(r@ =~= ents@);
    }
    r
}

proof fn lemma_rule_refs_grow(r: RuleKind, a: int, b: int)
    requires
        a <= b,
        rule_refs_below(r, a),
    ensures
        rule_refs_below(r, b),
    decreases r,
{
    match r {
        RuleKind::Alternative(items) => {
            assert forall|i: int| 0 <= i < items.len() implies rule_refs_below(
                #[trigger] items@[i],
                b,
            ) by {
                assert(decreases_to!(r => r->Alternative_0));
                assert(decreases_to!(items => items@));
                assert(decreases_to!(items@ => items@[i]));
                lemma_rule_refs_grow(items@[i], a, b);
            }
        },
        RuleKind::Invert(inner) => {
            lemma_rule_refs_grow(*inner, a, b);
        },
        _ => {},
    }
}

/// Expands a script: its rules first, then its drawn nodes, into one expression table and one
/// entity table that both views share. `distance` is the node of the adjustable distance unit,
/// when distance literals are adjusted.
pub fn load_script(
    context: &CompileContext,
    distance: Option<usize>,
    canvas_width: usize,
    canvas_height: usize,
) -> (r: Intermediate)
    requires
        context.wf(),
        distance matches Some(d) ==> d < context.nodes.len(),
    ensures
        r.wf(),
        r.adjusted.rules.len() == context.rules.len(),
        r.figure.items.len() == context.shown.len(),
        r.figure.variables.len() == r.adjusted.variables.len(),
        forall|i: int|
            0 <= i < r.figure.variables.len() ==> same_shape(
                #[trigger] r.figure.variables@[i].kind,
                r.adjusted.variables@[i].kind,
            ),
        r.figure.entities@ == r.adjusted.entities@,
        no_nested_through(r.adjusted.variables@),
        forall|i: int|
            0 <= i < r.figure.items.len() ==> #[trigger] r.figure.items@[i].label == context.shown@[i].label,
        r.figure.canvas_width == canvas_width,
        r.figure.canvas_height == canvas_height,
        exists|m: Seq<usize>|
            #![trigger m.len()]
            m.len() == context.nodes.len() && (forall|i: int|
                0 <= i < r.adjusted.rules.len() ==> #[trigger] r.adjusted.rules@[i].kind
                    == loaded_rule_kind(context.rules@[i], m) && r.adjusted.rules@[i].weight
                    == context.rules@[i].weight) && (forall|i: int|
                0 <= i < r.figure.items.len() ==> #[trigger] r.figure.items@[i].var
                    == m[context.shown@[i].node as int]),
{
    let nodes = &context.nodes;
    let mut math = Expand::new(nodes.len());
    proof {
        assert(table_wf(exprs(math.record@), math.entities@));
    }
    if let Some(d) = distance {
        let v = math.load(nodes, d);
        math.distance = Some(v);
    }
    let mut rules: Vec<Rule> = Vec::new();
    let mut i: usize = 0;
    while i < context.rules.len()
        invariant
            context.wf(),
            *nodes == context.nodes,
            math.wf(nodes@),
            i <= context.rules.len(),
            rules.len() == i,
            forall|j: int|
                0 <= j < i ==> (#[trigger] rules@[j]).wf(
                    math.record.len() as int,
                    math.entities.len() as int,
                ),
            forall|j: int|
                0 <= j < i ==> #[trigger] rules@[j].kind == loaded_rule_kind(
                    context.rules@[j],
                    math.expr_map@,
                ) && rule_nodes_loaded(context.rules@[j], math.expr_map@) && rules@[j].weight
                    == context.rules@[j].weight,
        decreases context.rules.len() - i,
    {
        let ghost before = math;
        let rule = Rule::load(&context.rules[i], &mut math, nodes);
        proof {
            assert forall|j: int| 0 <= j < i implies (#[trigger] rules@[j]).wf(
                math.record.len() as int,
                math.entities.len() as int,
            ) by {
                lemma_rule_refs_grow(rules@[j].kind, before.record.len() as int, math.record.len() as int);
            }
            assert(map_extends(before.expr_map@, math.expr_map@));
            assert forall|j: int| 0 <= j < i implies #[trigger] rules@[j].kind == loaded_rule_kind(
                context.rules@[j],
                math.expr_map@,
            ) && rule_nodes_loaded(context.rules@[j], math.expr_map@) && rules@[j].weight
                == context.rules@[j].weight by {
                assert(unrolled_rule_wf(nodes@, context.rules@[j]));
                lemma_rule_kind_stable(context.rules@[j], before.expr_map@, math.expr_map@, nodes.len() as int);
            }
        }
        rules.push(rule);
        i += 1;
    }
    let mut items: Vec<FigureItem> = Vec::new();
    let mut k: usize = 0;
    while k < context.shown.len()
        invariant
            context.wf(),
            *nodes == context.nodes,
            math.wf(nodes@),
            k <= context.shown.len(),
            items.len() == k,
            forall|j: int| 0 <= j < k ==> #[trigger] items@[j].var < math.record.len(),
            forall|j: int| 0 <= j < k ==> #[trigger] items@[j].label == context.shown@[j].label,
            forall|j: int|
                0 <= j < k ==> #[trigger] items@[j].var == math.expr_map@[context.shown@[j].node as int],
            forall|j: int|
                0 <= j < rules.len() ==> #[trigger] rules@[j].kind == loaded_rule_kind(
                    context.rules@[j],
                    math.expr_map@,
                ) && rule_nodes_loaded(context.rules@[j], math.expr_map@) && rules@[j].weight
                    == context.rules@[j].weight,
            rules.len() == context.rules.len(),
            forall|j: int|
                0 <= j < rules.len() ==> (#[trigger] rules@[j]).wf(
                    math.record.len() as int,
                    math.entities.len() as int,
                ),
        decreases context.shown.len() - k,
    {
        let ghost before = math;
        let var = math.load(nodes, context.shown[k].node);
        proof {
            assert forall|j: int| 0 <= j < rules.len() implies (#[trigger] rules@[j]).wf(
                math.record.len() as int,
                math.entities.len() as int,
            ) by {
                lemma_rule_refs_grow(rules@[j].kind, before.record.len() as int, math.record.len() as int);
            }
            assert(map_extends(before.expr_map@, math.expr_map@));
            assert forall|j: int| 0 <= j < rules.len() implies #[trigger] rules@[j].kind == loaded_rule_kind(
                context.rules@[j],
                math.expr_map@,
            ) && rule_nodes_loaded(context.rules@[j], math.expr_map@) && rules@[j].weight
                == context.rules@[j].weight by {
                assert(unrolled_rule_wf(nodes@, context.rules@[j]));
                lemma_rule_kind_stable(context.rules@[j], before.expr_map@, math.expr_map@, nodes.len() as int);
            }
            assert forall|j: int| 0 <= j < k implies #[trigger] items@[j].var == math.expr_map@[context.shown@[j].node as int] by {
                let w = context.shown@[j].node as int;
                assert(items@[j].var == before.expr_map@[w]);
                assert(before.expr_map@[w] < before.record.len());
            }
        }
        items.push(FigureItem { var, label: context.shown[k].label.clone() });
        k += 1;
        proof {
            assert forall|j: int| 0 <= j < k implies #[trigger] items@[j].var == math.expr_map@[context.shown@[j].node as int] by {
                if j < k - 1 {
                    let w = context.shown@[j].node as int;
                    assert(items@[j].var == math.expr_map@[w]);
                }
            }
        }
    }
    let fvars = copy_exprs(&math.record);
    let avars = copy_exprs(&math.record);
    proof {
        let xs = exprs(math.record@);
        assert forall|i: int| 0 <= i < fvars.len() implies same_shape(#[trigger] fvars@[i].kind, xs[i].kind) by {
            assert(xs[i] == math.record@[i].expr);
        }
        assert forall|i: int| 0 <= i < avars.len() implies same_shape(#[trigger] avars@[i].kind, xs[i].kind) by {
            assert(xs[i] == math.record@[i].expr);
        }
        lemma_copy_keeps_wf(fvars@, xs, math.entities@);
        lemma_copy_keeps_wf(avars@, xs, math.entities@);
        assert forall|i: int| 0 <= i < fvars.len() implies same_shape(#[trigger] fvars@[i].kind, avars@[i].kind) by {
            assert(same_shape(fvars@[i].kind, xs[i].kind));
            assert(same_shape(avars@[i].kind, xs[i].kind));
        }
    }
    let figure = Figure {
        variables: fvars,
        entities: copy_entities(&math.entities),
        items,
        canvas_width,
        canvas_height,
    };
    let adjusted = Adjusted {
        variables: avars,
        entities: copy_entities(&math.entities),
        rules,
    };
    let r = Intermediate { figure, adjusted };
    proof {
        let m = math.expr_map@;
        assert(m.len() == context.nodes.len());
        assert(forall|i: int|
            0 <= i < r.adjusted.rules.len() ==> #[trigger] r.adjusted.rules@[i].kind
                == loaded_rule_kind(context.rules@[i], m) && r.adjusted.rules@[i].weight
                == context.rules@[i].weight);
        assert(forall|i: int|
            0 <= i < r.figure.items.len() ==> #[trigger] r.figure.items@[i].var
                == m[context.shown@[i].node as int]);
    }
    r
}


/// Extending is transitive: a run of loads keeps what each earlier state held.
pub proof fn lemma_extends_trans(a: Expand, b: Expand, c: Expand)
    requires
        b.extends(&a),
        c.extends(&b),
    ensures
        c.extends(&a),
{
    assert forall|n: int|
        0 <= n < a.expr_map.len() && a.expr_map@[n] != usize::MAX implies #[trigger] c.expr_map@[n]
        == a.expr_map@[n] by {
        assert(b.expr_map@[n] == a.expr_map@[n]);
    }
    assert forall|i: int| 0 <= i < a.record.len() implies #[trigger] c.record@[i].expr
        == a.record@[i].expr by {
        assert(b.record@[i].expr == a.record@[i].expr);
    }
    assert forall|i: int| 0 <= i < a.entities.len() implies #[trigger] c.entities@[i]
        == a.entities@[i] by {
        assert(b.entities@[i] == a.entities@[i]);
    }
}

/// A node keeps the entry it got when first loaded: whatever is loaded later, loading the same
/// node again gives the same entry, so expressions sharing a node share an entry.
pub proof fn lemma_identity_shares_entry(first: Expand, later: Expand, n: int)
    requires
        0 <= n < first.expr_map.len(),
        first.expr_map@[n] < first.record.len(),
        later.extends(&first),
    ensures
        later.expr_map@[n] == first.expr_map@[n],
        later.record@[first.expr_map@[n] as int].expr == first.record@[first.expr_map@[n] as int].expr,
{
}




/// Whether every index of `s` is below `bound`.
fn below_all(s: &Vec<usize>, bound: usize) -> (r: bool)
    ensures
        r == all_below(s@, bound as int),
{
    let mut k: usize = 0;
    while k < s.len()
        invariant
            k <= s.len(),
            forall|x: int| 0 <= x < k ==> #[trigger] s@[x] < bound,
        decreases s.len() - k,
    {
        if s[k] >= bound {
            return false;
        }
        k += 1;
    }
    true
}

/// Whether the operands of `k` are below `v`.
fn children_ok(k: &ExprKind, v: usize) -> (r: bool)
    ensures
        r == children_below(*k, v as int),
{
    match k {
        ExprKind::LineLineIntersection { k, l } => *k < v && *l < v,
        ExprKind::AveragePoint { items } => below_all(items, v),
        ExprKind::CircleCenter { circle } => *circle < v,
        ExprKind::Entity { .. } => true,
        ExprKind::PointPoint { p, q } => *p < v && *q < v,
        ExprKind::AngleBisector { p, q, r } => *p < v && *q < v && *r < v,
        ExprKind::ParallelThrough { point, line } => *point < v && *line < v,
        ExprKind::PerpendicularThrough { point, line } => *point < v && *line < v,
        ExprKind::Sum { plus, minus } => below_all(plus, v) && below_all(minus, v),
        ExprKind::Product { times, by } => below_all(times, v) && below_all(by, v),
        ExprKind::Const { .. } => true,
        ExprKind::Power { value, .. } => *value < v,
        ExprKind::PointPointDistance { p, q } => *p < v && *q < v,
        ExprKind::PointLineDistance { point, line } => *point < v && *line < v,
        ExprKind::ThreePointAngle { p, q, r } => *p < v && *q < v && *r < v,
        ExprKind::ThreePointAngleDir { p, q, r } => *p < v && *q < v && *r < v,
        ExprKind::TwoLineAngle { k, l } => *k < v && *l < v,
        ExprKind::PointX { point } => *point < v,
        ExprKind::PointY { point } => *point < v,
        ExprKind::ConstructCircle { center, radius } => *center < v && *radius < v,
    }
}

/// Whether an expression table with its entities is a DAG listed operands first.
fn table_ok(vars: &Vec<Expr>, ents: &Vec<EntityKind>) -> (r: bool)
    ensures
        r == table_wf(vars@, ents@),
{
    let mut v: usize = 0;
    while v < vars.len()
        invariant
            v <= vars.len(),
            forall|w: int| 0 <= w < v ==> children_below(#[trigger] vars@[w].kind, w),
            forall|w: int|
                #![trigger vars@[w]]
                0 <= w < v ==> match vars@[w].kind {
                    ExprKind::Entity { id } => id < ents.len() && entity_dep(ents@[id as int]) < w,
                    _ => true,
                },
        decreases vars.len() - v,
    {
        if !children_ok(&vars[v].kind, v) {
            return false;
        }
        if let ExprKind::Entity { id } = &vars[v].kind {
            if *id >= ents.len() {
                return false;
            }
            let dep_ok = match &ents[*id] {
                EntityKind::PointOnLine { line } => *line < v,
                EntityKind::PointOnCircle { circle } => *circle < v,
                _ => true,
            };
            if !dep_ok {
                return false;
            }
        }
        v += 1;
    }
    true
}

/// Whether every expression a rule reads is below `n`.
fn rule_refs_ok(r: &RuleKind, n: usize) -> (ok: bool)
    ensures
        ok == rule_refs_below(*r, n as int),
    decreases r,
{
    match r {
        RuleKind::PointEq(a, b) => *a < n && *b < n,
        RuleKind::NumberEq(a, b) => *a < n && *b < n,
        RuleKind::Lt(a, b) => *a < n && *b < n,
        RuleKind::Gt(a, b) => *a < n && *b < n,
        RuleKind::Alternative(items) => {
            let mut i: usize = 0;
            while i < items.len()
                invariant
                    *r == RuleKind::Alternative(*items),
                    i <= items.len(),
                    forall|k: int| 0 <= k < i ==> rule_refs_below(#[trigger] items@[k], n as int),
                decreases items.len() - i,
            {
                proof {
                    assert(decreases_to!(*r => (*r)->Alternative_0));
                    assert(decreases_to!(*items => items@));
                    assert(decreases_to!(items@ => items@[i as int]));
                }
                if !rule_refs_ok(&items[i], n) {
                    return false;
                }
                i += 1;
            }
            true
        },
        RuleKind::Invert(inner) => rule_refs_ok(inner, n),
        RuleKind::Bias => true,
    }
}

/// Whether the elements are pairwise distinct.
fn distinct_ok(s: &Vec<usize>) -> (r: bool)
    ensures
        r == distinct(s@),
{
    let mut i: usize = 0;
    while i < s.len()
        invariant
            i <= s.len(),
            forall|a: int, b: int| 0 <= a < i && 0 <= b < s.len() && a != b ==> s@[a] != s@[b],
        decreases s.len() - i,
    {
        let mut j: usize = 0;
        while j < s.len()
            invariant
                i < s.len(),
                j <= s.len(),
                forall|a: int, b: int| 0 <= a < i && 0 <= b < s.len() && a != b ==> s@[a] != s@[b],
                forall|b: int| 0 <= b < j && b != i ==> s@[i as int] != s@[b],
            decreases s.len() - j,
        {
            if j != i && s[i] == s[j] {
                return false;
            }
            j += 1;
        }
        i += 1;
    }
    true
}

impl Adjusted {
    /// Whether the evaluated view is well formed.
    pub fn is_well_formed(&self) -> (r: bool)
        ensures
            r == self.wf(),
    {
        if !table_ok(&self.variables, &self.entities) {
            return false;
        }
        let mut i: usize = 0;
        while i < self.rules.len()
            invariant
                i <= self.rules.len(),
                forall|k: int|
                    0 <= k < i ==> (#[trigger] self.rules@[k]).wf(
                        self.variables.len() as int,
                        self.entities.len() as int,
                    ),
            decreases self.rules.len() - i,
        {
            let rule = &self.rules[i];
            if !rule_refs_ok(&rule.kind, self.variables.len()) || !distinct_ok(&rule.entities)
                || !below_all(&rule.entities, self.entities.len()) {
                return false;
            }
            i += 1;
        }
        true
    }
}

impl Figure {
    /// Whether the drawn view is well formed.
    pub fn is_well_formed(&self) -> (r: bool)
        ensures
            r == self.wf(),
    {
        if !table_ok(&self.variables, &self.entities) {
            return false;
        }
        let mut i: usize = 0;
        while i < self.items.len()
            invariant
                i <= self.items.len(),
                forall|k: int| 0 <= k < i ==> #[trigger] self.items@[k].var < self.variables.len(),
            decreases self.items.len() - i,
        {
            if self.items[i].var >= self.variables.len() {
                return false;
            }
            i += 1;
        }
        true
    }
}

impl Intermediate {
    /// Whether both views are well formed.
    pub fn is_well_formed(&self) -> (r: bool)
        ensures
            r == self.wf(),
    {
        self.figure.is_well_formed() && self.adjusted.is_well_formed()
    }
}

} // verus!
