use vstd::prelude::*;

use crate::number::ProcNum;

verus! {

/// An address of a slot in the flat memory of the virtual machine.
pub type Loc = usize;

/// A cursor handing out consecutive memory slots.
#[derive(Debug, Default)]
pub struct Cursor {
    pub current: Loc,
}

impl Cursor {
    /// Hands out the current slot and moves past it.
    pub fn next(&mut self) -> (r: Loc)
        requires
            old(self).current < usize::MAX,
        ensures
            r == old(self).current,
            final(self).current == old(self).current + 1,
    {
        self.current += 1;
        self.current - 1
    }
}

/// The operation an instruction performs.
///
/// The operands of an instruction are listed in `Instruction::params`, in the order given here.
#[derive(Debug, Clone, Copy, PartialEq, Eq, Structural)]
pub enum Op {
    /// `[k, l]`: the common point of two lines.
    LineLineIntersection,
    /// Any number of points: their average.
    Average,
    /// `[a, b]`: the line through two points.
    LineFromPoints,
    /// `[arm1, origin, arm2]`: the bisector of an angle.
    AngleBisector,
    /// `[point, line]`: the parallel to `line` through `point`.
    ParallelThrough,
    /// `[point, line]`: the perpendicular to `line` through `point`.
    PerpendicularThrough,
    /// Any number of values: their sum.
    Sum,
    /// `[x]`: its negation.
    Negation,
    /// Any number of values: their product.
    PartialProduct,
    /// `[value]`: the value raised to `exponent`.
    Pow { exponent: ProcNum },
    /// `[a, b]`: the distance between two points.
    PointPointDistance,
    /// `[point, line]`: the distance of a point from a line.
    PointLineDistance,
    /// `[arm1, origin, arm2]`: an angle given by three points.
    AnglePoint,
    /// `[arm1, origin, arm2]`: a directed angle given by three points.
    AnglePointDir,
    /// `[k, l]`: the angle between two lines.
    AngleLine,
    /// `[x]`: the complex number with its two components exchanged.
    SwapParts,
    /// `[center, radius]`: a circle.
    CircleConstruct,
    /// `[line, clip]`: the point of `line` given by the adjustable in `clip`.
    OnLine,
    /// `[circle, clip]`: the point of `circle` given by the adjustable in `clip`.
    OnCircle,
    /// `[a, b]`: quality of two points being equal.
    EqualComplex,
    /// `[a, b]`: quality of two reals being equal.
    EqualReal,
    /// `[a, b]`: quality of `a < b`.
    Less,
    /// `[a, b]`: quality of `a > b`.
    Greater,
    /// Any number of qualities: their maximum.
    MaxReal,
    /// `[q]`: the quality `1 - q`.
    InvertQuality,
}

/// One instruction: reads the slots in `params`, writes the slot `target`.
#[derive(Debug, Clone)]
pub struct Instruction {
    pub op: Op,
    pub params: Vec<Loc>,
    pub target: Loc,
}

/// The mathematical value of an instruction.
pub struct InstrView {
    pub op: Op,
    pub params: Seq<Loc>,
    pub target: Loc,
}

impl View for Instruction {
    type V = InstrView;

    open spec fn view(&self) -> InstrView {
        InstrView { op: self.op, params: self.params@, target: self.target }
    }
}

/// The instructions' values, in order.
pub open spec fn instrs_view(v: Seq<Instruction>) -> Seq<InstrView> {
    v.map_values(|i: Instruction| i@)
}

/// What a slot of a figure holds.
#[derive(Debug, Clone, Copy, PartialEq, Eq, Structural)]
pub enum ValueType {
    Complex,
    Real,
}

/// How the optimizer moves an adjustable.
#[derive(Debug, Clone, Copy, PartialEq, Eq, Structural)]
pub enum AdjustableTemplate {
    /// A free point.
    Point,
    /// A free real number.
    Real,
    /// A point on the line with this index in the expression table.
    OnLine(usize),
    /// A point on the circle with this index in the expression table.
    OnCircle(usize),
}

/// A straight-line program for the virtual machine.
#[derive(Debug)]
pub struct Program {
    /// How many slots the program uses.
    pub req_memory_size: usize,
    /// The initial values of the first slots.
    pub constants: Vec<ProcNum>,
    /// The instructions, run in order.
    pub instructions: Vec<Instruction>,
}

/// The program that scores a placement of the adjustables.
#[derive(Debug)]
pub struct EvaluateProgram {
    pub base: Program,
    pub adjustables: Vec<AdjustableTemplate>,
    pub rule_count: usize,
    pub biases: Vec<Loc>,
    /// Row-major, `rule_count` rows of `adjustables.len()` weights.
    pub weights: Vec<ProcNum>,
}

/// The program that computes the objects to draw.
#[derive(Debug)]
pub struct FigureProgram {
    pub base: Program,
    pub variables: Vec<(ValueType, Loc)>,
    pub entities: Vec<(ValueType, Loc)>,
}

/// Every operand and target of every instruction lies below `bound`.
pub open spec fn instructions_below(instrs: Seq<InstrView>, bound: int) -> bool {
    forall|i: int, j: int|
        0 <= i < instrs.len() && 0 <= j < instrs[i].params.len() ==> #[trigger] instrs[i].params[j]
            < bound
}

/// Every target of every instruction lies below `bound`.
pub open spec fn targets_below(instrs: Seq<InstrView>, bound: int) -> bool {
    forall|i: int| 0 <= i < instrs.len() ==> #[trigger] instrs[i].target < bound
}

} // verus!
