use vstd::prelude::*;

use crate::math::{load_script, loaded_rule_kind, Intermediate};
use crate::number::ProcNum;
use crate::unroll::{
    is_scalar, unit_of, Any, CompileContext, Scalar, ScalarData, UnrolledRule, UnrolledRuleKind,
};

verus! {

/// An error of the compilation driver.
#[derive(Debug, Clone, PartialEq, Eq)]
pub enum Error {
    /// A flag was set to a value it does not accept.
    FlagEnumInvalidValue { flag_name: String, received_value: String },
    /// The feature is reserved but not implemented.
    FeatureNotSupported { feature_name: String },
    /// The script needs a flag that is not set.
    RequiredFlagNotSet { flag_name: String },
}

/// The flags of a script as written: `distance_literals` holds the identifier it was set to.
#[derive(Debug, Clone, PartialEq, Eq)]
pub struct FlagSet {
    pub distance_literals: String,
    pub identical_expressions: bool,
    pub point_bounds: bool,
}

impl FlagSet {
    /// Distance literals off, identical expressions merged, no point bounds.
    pub fn standard() -> (r: FlagSet)
        ensures
            r.distance_literals@ == "none"@,
            r.identical_expressions,
            !r.point_bounds,
    {
        FlagSet { distance_literals: "none".to_owned(), identical_expressions: true, point_bounds: false }
    }
}


/// How distance literals are treated.
#[derive(Debug, Clone, Copy, PartialEq, Eq, Structural)]
pub enum DistanceLiterals {
    /// They are not allowed.
    Disabled,
    /// They are scaled by an adjustable unit of distance.
    Adjust,
    /// Reserved.
    Solve,
}

#[derive(Debug, Clone, Copy, PartialEq, Eq, Structural)]
pub struct Optimizations {
    pub identical_expressions: bool,
}

/// The flags of a script, read.
#[derive(Debug, Clone, Copy, PartialEq, Eq, Structural)]
pub struct Flags {
    pub optimizations: Optimizations,
    pub distance_literals: DistanceLiterals,
    pub point_bounds: bool,
}

/// The mode an identifier names, if any.
pub open spec fn distance_mode(s: Seq<char>) -> Option<DistanceLiterals> {
    if s == "none"@ {
        Some(DistanceLiterals::Disabled)
    } else if s == "adjust"@ {
        Some(DistanceLiterals::Adjust)
    } else if s == "solve"@ {
        Some(DistanceLiterals::Solve)
    } else {
        None
    }
}

/// Reads the flags; fails when `distance_literals` names no mode.
pub fn read_flags(flags: &FlagSet) -> (r: Result<Flags, Error>)
    ensures
        match distance_mode(flags.distance_literals@) {
            Some(mode) => r matches Ok(f) && f.distance_literals == mode
                && f.optimizations.identical_expressions == flags.identical_expressions
                && f.point_bounds == flags.point_bounds,
            None => r matches Err(Error::FlagEnumInvalidValue { flag_name, received_value })
                && flag_name@ == "distance_literals"@ && received_value@ == flags.distance_literals@,
        },
{
    let value = &flags.distance_literals;
    let none = "none".to_owned();
    let adjust = "adjust".to_owned();
    let solve = "solve".to_owned();
    let mode = if *value == none {
        DistanceLiterals::Disabled
    } else if *value == adjust {
        DistanceLiterals::Adjust
    } else if *value == solve {
        DistanceLiterals::Solve
    } else {
        return Err(
            Error::FlagEnumInvalidValue {
                flag_name: "distance_literals".to_owned(),
                received_value: value.clone(),
            },
        );
    };
    Ok(
        Flags {
            optimizations: Optimizations { identical_expressions: flags.identical_expressions },
            distance_literals: mode,
            point_bounds: flags.point_bounds,
        },
    )
}

/// A literal with a unit of distance.
pub open spec fn is_distance_literal(n: Any) -> bool {
    n matches Any::Scalar(sc) && sc.data is Number && (sc.unit matches Some(u) && u.distance != 0)
}

/// Whether some node is a distance literal.
pub fn has_distance_literal(nodes: &Vec<Any>) -> (r: bool)
    ensures
        r == exists|i: int| 0 <= i < nodes.len() && is_distance_literal(#[trigger] nodes@[i]),
{
    let mut i: usize = 0;
    while i < nodes.len()
        invariant
            i <= nodes.len(),
            forall|k: int| 0 <= k < i ==> !is_distance_literal(#[trigger] nodes@[k]),
        decreases nodes.len() - i,
    {
        if let Any::Scalar(sc) = &nodes[i] {
            if let ScalarData::Number(_) = &sc.data {
                if let Some(u) = sc.unit {
                    if u.distance != 0 {
                        assert(is_distance_literal(nodes@[i as int]));
                        return true;
                    }
                }
            }
        }
        i += 1;
    }
    false
}

/// Compiles an unrolled script into its expanded views.
///
/// `distance_literals = solve` is reserved and refused. With distance literals in the script,
/// `distance_literals` must be `adjust`: a free scalar then stands for the unit of distance, with
/// a bias rule on it.
pub fn compile(context: CompileContext, canvas_width: usize, canvas_height: usize) -> (r: Result<
    Intermediate,
    Error,
>)
    requires
        context.wf(),
    ensures
        ({
            let literals = exists|i: int|
                0 <= i < context.nodes.len() && is_distance_literal(#[trigger] context.nodes@[i]);
            match distance_mode(context.flags.distance_literals@) {
                None => r matches Err(Error::FlagEnumInvalidValue { flag_name, received_value })
                    && flag_name@ == "distance_literals"@ && received_value@
                    == context.flags.distance_literals@,
                Some(DistanceLiterals::Solve) => r matches Err(
                    Error::FeatureNotSupported { feature_name },
                ) && feature_name@ == "solve_distance"@,
                Some(DistanceLiterals::Disabled) if literals => r matches Err(
                    Error::RequiredFlagNotSet { flag_name },
                ) && flag_name@ == "distance_literals"@,
                _ => r matches Ok(inter) && inter.wf() && inter.adjusted.rules.len()
                    == context.rules.len() + if literals {
                    1int
                } else {
                    0int
                } && inter.figure.items.len() == context.shown.len() && exists|m: Seq<usize>|
                    #![trigger m.len()]
                    m.len() >= context.nodes.len() && forall|i: int|
                        0 <= i < context.rules.len() ==> #[trigger] inter.adjusted.rules@[i].kind
                            == loaded_rule_kind(context.rules@[i], m)
                            && inter.adjusted.rules@[i].weight == context.rules@[i].weight,
            }
        }),
{
    let flags = match read_flags(&context.flags) {
        Ok(f) => f,
        Err(e) => return Err(e),
    };
    if let DistanceLiterals::Solve = flags.distance_literals {
        return Err(Error::FeatureNotSupported { feature_name: "solve_distance".to_owned() });
    }
    let ghost original = context;
    let mut context = context;
    let present = has_distance_literal(&context.nodes);
    let distance = if present {
        match flags.distance_literals {
            DistanceLiterals::Adjust => {
                let d = context.free_scalar();
                context.push_rule(
                    UnrolledRule {
                        kind: UnrolledRuleKind::Bias(d),
                        inverted: false,
                        weight: ProcNum::from_integer(10),
                    },
                );
                Some(d)
            },
            DistanceLiterals::Solve => {
                return Err(Error::FeatureNotSupported { feature_name: "solve_distance".to_owned() });
            },
            DistanceLiterals::Disabled => {
                return Err(Error::RequiredFlagNotSet { flag_name: "distance_literals".to_owned() });
            },
        }
    } else {
        None
    };
    let inter = load_script(&context, distance, canvas_width, canvas_height);
    proof {
        assert(context.nodes.len() >= original.nodes.len());
        assert(forall|i: int|
            0 <= i < original.rules.len() ==> context.rules@[i] == original.rules@[i]);
    }
    Ok(inter)
}

/// Node `r` is node `expr` multiplied by node `dst` `power` times, or divided by it `-power`
/// times, one node per step, each in the unit of `expr`.
pub open spec fn distance_fixed(nodes: Seq<Any>, r: int, expr: int, power: int, dst: int) -> bool
    decreases (if power < 0 {
        -power
    } else {
        power
    }),
{
    if power == 0 {
        r == expr
    } else {
        let inner = if power == 1 || power == -1 {
            expr
        } else {
            r - 1
        };
        &&& 0 <= r < nodes.len()
        &&& nodes[r] == Any::Scalar(
            Scalar {
                unit: unit_of(nodes, expr),
                data: if power > 0 {
                    ScalarData::Multiply(inner as usize, dst as usize)
                } else {
                    ScalarData::Divide(inner as usize, dst as usize)
                },
            },
        )
        &&& distance_fixed(
            nodes,
            inner,
            expr,
            if power > 0 {
                power - 1
            } else {
                power + 1
            },
            dst,
        )
    }
}

proof fn lemma_distance_fixed_grow(
    nodes: Seq<Any>,
    more: Seq<Any>,
    r: int,
    expr: int,
    power: int,
    dst: int,
)
    requires
        distance_fixed(nodes, r, expr, power, dst),
        0 <= expr < nodes.len(),
        nodes.len() <= more.len(),
        forall|i: int| 0 <= i < nodes.len() ==> more[i] == nodes[i],
    ensures
        distance_fixed(more, r, expr, power, dst),
    decreases (if power < 0 {
        -power
    } else {
        power
    }),
{
    if power != 0 {
        let inner = if power == 1 || power == -1 {
            expr
        } else {
            r - 1
        };
        lemma_distance_fixed_grow(
            nodes,
            more,
            inner,
            expr,
            if power > 0 {
                power - 1
            } else {
                power + 1
            },
            dst,
        );
    }
}

/// Multiplies scalar node `expr` by the scalar node `dst` `power` times (divides for a negative
/// power), adding one node per step.
pub fn fix_distance(context: &mut CompileContext, expr: usize, power: i8, dst: usize) -> (r: usize)
    requires
        old(context).wf(),
        is_scalar(old(context).nodes@, expr as int),
        is_scalar(old(context).nodes@, dst as int),
    ensures
        final(context).wf(),
        final(context).same_rest(old(context)),
        final(context).shown@ == old(context).shown@,
        final(context).nodes.len() == old(context).nodes.len() + (if power < 0 {
            -power
        } else {
            power as int
        }),
        forall|i: int| 0 <= i < old(context).nodes.len() ==> #[trigger] final(context).nodes@[i]
            == old(context).nodes@[i],
        is_scalar(final(context).nodes@, r as int),
        power != 0 ==> r == final(context).nodes.len() - 1,
        distance_fixed(final(context).nodes@, r as int, expr as int, power as int, dst as int),
    decreases (if power < 0 {
        -power
    } else {
        power as int
    }),
{
    if power == 0 {
        return expr;
    }
    let inner = if power > 0 {
        fix_distance(context, expr, power - 1, dst)
    } else {
        fix_distance(context, expr, power + 1, dst)
    };
    let ghost mid = context.nodes@;
    let unit = context.unit_of(expr);
    let r = if power > 0 {
        context.mult(inner, dst)
    } else {
        context.div(inner, dst)
    };
    proof {
        lemma_distance_fixed_grow(
            mid,
            context.nodes@,
            inner as int,
            expr as int,
            if power > 0 {
                power - 1
            } else {
                power + 1
            },
            dst as int,
        );
        assert(context.nodes@[r as int] == mid.push(context.nodes@[r as int])[r as int]);
        assert(unit_of(context.nodes@, expr as int) == unit_of(mid, expr as int));
    }
    r
}

} // verus!
