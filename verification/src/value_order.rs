//! The total structural order on canonical values.
//!
//! Values are ordered by variant tag first, then recursively: containers
//! lexicographically over their contents, strings by character order,
//! integers numerically. The order is what keeps sets, records, functions
//! and variable assignments in canonical form.

use crate::text_order::lex_cmp;
use crate::text_order::lemma_lex_cmp_eq;
use crate::text_order::lemma_lex_cmp_flip;
use crate::text_order::lemma_lex_cmp_trans;
use crate::text_order::str_cmp;
use crate::tla_value::lemma_model_fields;
use crate::tla_value::lemma_model_list;
use crate::tla_value::lemma_model_pairs;
use crate::tla_value::model_fields;
use crate::tla_value::model_list;
use crate::tla_value::model_pairs;
use crate::tla_value::TlaValue;
use crate::tla_value::ValueModel;
use vstd::prelude::*;

verus! {

/// The rank of a value's variant in the structural order.
pub open spec fn tag_of(v: ValueModel) -> int {
    match v {
        ValueModel::SetOf(_) => 0,
        ValueModel::Record(_) => 1,
        ValueModel::Function(_) => 2,
        ValueModel::Sequence(_) => 3,
        ValueModel::Literal(_) => 4,
        ValueModel::Constant(_) => 5,
        ValueModel::Bool(_) => 6,
        ValueModel::Int(_) => 7,
        ValueModel::Variant(_, _) => 8,
    }
}

/// Three-way structural comparison of two values: -1, 0 or 1.
pub open spec fn cmp_value(a: ValueModel, b: ValueModel) -> int
    decreases a, 1nat,
{
    if tag_of(a) != tag_of(b) {
        if tag_of(a) < tag_of(b) {
            -1
        } else {
            1
        }
    } else {
        match (a, b) {
            (ValueModel::SetOf(x), ValueModel::SetOf(y)) => cmp_value_list(x, y),
            (ValueModel::Record(x), ValueModel::Record(y)) => cmp_field_list(x, y),
            (ValueModel::Function(x), ValueModel::Function(y)) => cmp_pair_list(x, y),
            (ValueModel::Sequence(x), ValueModel::Sequence(y)) => cmp_value_list(x, y),
            (ValueModel::Literal(x), ValueModel::Literal(y)) => lex_cmp(x, y),
            (ValueModel::Constant(x), ValueModel::Constant(y)) => lex_cmp(x, y),
            (ValueModel::Bool(x), ValueModel::Bool(y)) => if x == y {
                0
            } else if !x {
                -1
            } else {
                1
            },
            (ValueModel::Int(x), ValueModel::Int(y)) => if x < y {
                -1
            } else if x == y {
                0
            } else {
                1
            },
            (ValueModel::Variant(tx, vx), ValueModel::Variant(ty, vy)) => {
                let t = lex_cmp(tx, ty);
                if t != 0 {
                    t
                } else {
                    cmp_value(*vx, *vy)
                }
            },
            _ => 0,
        }
    }
}

/// Lexicographic comparison of two value sequences.
pub open spec fn cmp_value_list(x: Seq<ValueModel>, y: Seq<ValueModel>) -> int
    decreases x, x.len(),
{
    if x.len() == 0 && y.len() == 0 {
        0
    } else if x.len() == 0 {
        -1
    } else if y.len() == 0 {
        1
    } else {
        let c = cmp_value(x[0], y[0]);
        if c != 0 {
            c
        } else {
            cmp_value_list(x.drop_first(), y.drop_first())
        }
    }
}

/// Lexicographic comparison of two field sequences: key first, then value.
pub open spec fn cmp_field_list(
    x: Seq<(Seq<char>, ValueModel)>,
    y: Seq<(Seq<char>, ValueModel)>,
) -> int
    decreases x, x.len(),
{
    if x.len() == 0 && y.len() == 0 {
        0
    } else if x.len() == 0 {
        -1
    } else if y.len() == 0 {
        1
    } else {
        let ck = lex_cmp(x[0].0, y[0].0);
        if ck != 0 {
            ck
        } else {
            let cv = cmp_value(x[0].1, y[0].1);
            if cv != 0 {
                cv
            } else {
                cmp_field_list(x.drop_first(), y.drop_first())
            }
        }
    }
}

/// Lexicographic comparison of two key/value pair sequences.
pub open spec fn cmp_pair_list(
    x: Seq<(ValueModel, ValueModel)>,
    y: Seq<(ValueModel, ValueModel)>,
) -> int
    decreases x, x.len(),
{
    if x.len() == 0 && y.len() == 0 {
        0
    } else if x.len() == 0 {
        -1
    } else if y.len() == 0 {
        1
    } else {
        let ck = cmp_value(x[0].0, y[0].0);
        if ck != 0 {
            ck
        } else {
            let cv = cmp_value(x[0].1, y[0].1);
            if cv != 0 {
                cv
            } else {
                cmp_pair_list(x.drop_first(), y.drop_first())
            }
        }
    }
}

/// `cmp_value` returns 0 exactly on equal values.
pub proof fn lemma_cmp_value_eq(a: ValueModel, b: ValueModel)
    ensures
        (cmp_value(a, b) == 0) <==> (a == b),
    decreases a, 1nat,
{
    if tag_of(a) == tag_of(b) {
        match (a, b) {
            (ValueModel::SetOf(x), ValueModel::SetOf(y)) => {
                lemma_cmp_value_list_eq(x, y);
            },
            (ValueModel::Record(x), ValueModel::Record(y)) => {
                lemma_cmp_field_list_eq(x, y);
            },
            (ValueModel::Function(x), ValueModel::Function(y)) => {
                lemma_cmp_pair_list_eq(x, y);
            },
            (ValueModel::Sequence(x), ValueModel::Sequence(y)) => {
                lemma_cmp_value_list_eq(x, y);
            },
            (ValueModel::Literal(x), ValueModel::Literal(y)) => {
                lemma_lex_cmp_eq(x, y);
            },
            (ValueModel::Constant(x), ValueModel::Constant(y)) => {
                lemma_lex_cmp_eq(x, y);
            },
            (ValueModel::Variant(tx, vx), ValueModel::Variant(ty, vy)) => {
                lemma_lex_cmp_eq(tx, ty);
                if lex_cmp(tx, ty) == 0 {
                    lemma_cmp_value_eq(*vx, *vy);
                }
            },
            _ => {},
        }
    }
}

/// `cmp_value_list` returns 0 exactly on equal sequences.
pub proof fn lemma_cmp_value_list_eq(x: Seq<ValueModel>, y: Seq<ValueModel>)
    ensures
        (cmp_value_list(x, y) == 0) <==> (x == y),
    decreases x, 2nat,
{
    if x.len() == 0 && y.len() == 0 {
        assert(x =~= y);
    } else if x.len() > 0 && y.len() > 0 {
        lemma_cmp_value_eq(x[0], y[0]);
        lemma_cmp_value_list_eq(x.drop_first(), y.drop_first());
        if cmp_value_list(x, y) == 0 {
            lemma_heads_and_tails_eq::<ValueModel>(x, y);
        }
        if x == y {
            assert(x[0] == y[0]);
            assert(x.drop_first() == y.drop_first());
        }
    }
}

/// `cmp_field_list` returns 0 exactly on equal sequences.
pub proof fn lemma_cmp_field_list_eq(
    x: Seq<(Seq<char>, ValueModel)>,
    y: Seq<(Seq<char>, ValueModel)>,
)
    ensures
        (cmp_field_list(x, y) == 0) <==> (x == y),
    decreases x, 2nat,
{
    if x.len() == 0 && y.len() == 0 {
        assert(x =~= y);
    } else if x.len() > 0 && y.len() > 0 {
        lemma_lex_cmp_eq(x[0].0, y[0].0);
        if lex_cmp(x[0].0, y[0].0) == 0 {
            lemma_cmp_value_eq(x[0].1, y[0].1);
            lemma_cmp_field_list_eq(x.drop_first(), y.drop_first());
        }
        if cmp_field_list(x, y) == 0 {
            assert(x[0] == y[0]);
            lemma_heads_and_tails_eq::<(Seq<char>, ValueModel)>(x, y);
        }
        if x == y {
            assert(x[0] == y[0]);
            assert(x.drop_first() == y.drop_first());
        }
    }
}

/// `cmp_pair_list` returns 0 exactly on equal sequences.
pub proof fn lemma_cmp_pair_list_eq(
    x: Seq<(ValueModel, ValueModel)>,
    y: Seq<(ValueModel, ValueModel)>,
)
    ensures
        (cmp_pair_list(x, y) == 0) <==> (x == y),
    decreases x, 2nat,
{
    if x.len() == 0 && y.len() == 0 {
        assert(x =~= y);
    } else if x.len() > 0 && y.len() > 0 {
        lemma_cmp_value_eq(x[0].0, y[0].0);
        if cmp_value(x[0].0, y[0].0) == 0 {
            lemma_cmp_value_eq(x[0].1, y[0].1);
            lemma_cmp_pair_list_eq(x.drop_first(), y.drop_first());
        }
        if cmp_pair_list(x, y) == 0 {
            assert(x[0] == y[0]);
            lemma_heads_and_tails_eq::<(ValueModel, ValueModel)>(x, y);
        }
        if x == y {
            assert(x[0] == y[0]);
            assert(x.drop_first() == y.drop_first());
        }
    }
}

/// Two nonempty sequences with equal heads and equal tails are equal.
proof fn lemma_heads_and_tails_eq<T>(x: Seq<T>, y: Seq<T>)
    requires
        x.len() > 0,
        y.len() > 0,
        x[0] == y[0],
        x.drop_first() == y.drop_first(),
    ensures
        x == y,
{
    assert(x.drop_first().len() == x.len() - 1);
    assert(y.drop_first().len() == y.len() - 1);
    assert(x.drop_first().len() == y.drop_first().len());
    assert(x.len() == y.len());
    assert forall|i: int| 0 <= i < x.len() implies x[i] == y[i] by {
        if i > 0 {
            assert(x[i] == x.drop_first()[i - 1]);
            assert(y[i] == y.drop_first()[i - 1]);
        }
    }
    assert(x =~= y);
}

/// Swapping the arguments negates the comparison.
pub proof fn lemma_cmp_value_flip(a: ValueModel, b: ValueModel)
    ensures
        cmp_value(b, a) == -cmp_value(a, b),
    decreases a, 1nat,
{
    if tag_of(a) == tag_of(b) {
        match (a, b) {
            (ValueModel::SetOf(x), ValueModel::SetOf(y)) => {
                lemma_cmp_value_list_flip(x, y);
            },
            (ValueModel::Record(x), ValueModel::Record(y)) => {
                lemma_cmp_field_list_flip(x, y);
            },
            (ValueModel::Function(x), ValueModel::Function(y)) => {
                lemma_cmp_pair_list_flip(x, y);
            },
            (ValueModel::Sequence(x), ValueModel::Sequence(y)) => {
                lemma_cmp_value_list_flip(x, y);
            },
            (ValueModel::Literal(x), ValueModel::Literal(y)) => {
                lemma_lex_cmp_flip(x, y);
            },
            (ValueModel::Constant(x), ValueModel::Constant(y)) => {
                lemma_lex_cmp_flip(x, y);
            },
            (ValueModel::Variant(tx, vx), ValueModel::Variant(ty, vy)) => {
                lemma_lex_cmp_flip(tx, ty);
                if lex_cmp(tx, ty) == 0 {
                    lemma_cmp_value_flip(*vx, *vy);
                }
            },
            _ => {},
        }
    }
}

/// Swapping the arguments negates the list comparison.
pub proof fn lemma_cmp_value_list_flip(x: Seq<ValueModel>, y: Seq<ValueModel>)
    ensures
        cmp_value_list(y, x) == -cmp_value_list(x, y),
    decreases x, 2nat,
{
    if x.len() > 0 && y.len() > 0 {
        lemma_cmp_value_flip(x[0], y[0]);
        if cmp_value(x[0], y[0]) == 0 {
            lemma_cmp_value_list_flip(x.drop_first(), y.drop_first());
        }
    }
}

/// Swapping the arguments negates the field list comparison.
pub proof fn lemma_cmp_field_list_flip(
    x: Seq<(Seq<char>, ValueModel)>,
    y: Seq<(Seq<char>, ValueModel)>,
)
    ensures
        cmp_field_list(y, x) == -cmp_field_list(x, y),
    decreases x, 2nat,
{
    if x.len() > 0 && y.len() > 0 {
        lemma_lex_cmp_flip(x[0].0, y[0].0);
        if lex_cmp(x[0].0, y[0].0) == 0 {
            lemma_cmp_value_flip(x[0].1, y[0].1);
            if cmp_value(x[0].1, y[0].1) == 0 {
                lemma_cmp_field_list_flip(x.drop_first(), y.drop_first());
            }
        }
    }
}

/// Swapping the arguments negates the pair list comparison.
pub proof fn lemma_cmp_pair_list_flip(
    x: Seq<(ValueModel, ValueModel)>,
    y: Seq<(ValueModel, ValueModel)>,
)
    ensures
        cmp_pair_list(y, x) == -cmp_pair_list(x, y),
    decreases x, 2nat,
{
    if x.len() > 0 && y.len() > 0 {
        lemma_cmp_value_flip(x[0].0, y[0].0);
        if cmp_value(x[0].0, y[0].0) == 0 {
            lemma_cmp_value_flip(x[0].1, y[0].1);
            if cmp_value(x[0].1, y[0].1) == 0 {
                lemma_cmp_pair_list_flip(x.drop_first(), y.drop_first());
            }
        }
    }
}

/// The order is transitive, strictly so as soon as one of the two given
/// comparisons is strict.
pub proof fn lemma_cmp_value_trans(a: ValueModel, b: ValueModel, c: ValueModel)
    requires
        cmp_value(a, b) <= 0,
        cmp_value(b, c) <= 0,
    ensures
        cmp_value(a, c) <= 0,
        cmp_value(a, b) < 0 || cmp_value(b, c) < 0 ==> cmp_value(a, c) < 0,
    decreases a, 1nat,
{
    if tag_of(a) == tag_of(b) && tag_of(b) == tag_of(c) {
        match (a, b, c) {
            (ValueModel::SetOf(x), ValueModel::SetOf(y), ValueModel::SetOf(z)) => {
                lemma_cmp_value_list_trans(x, y, z);
            },
            (ValueModel::Record(x), ValueModel::Record(y), ValueModel::Record(z)) => {
                lemma_cmp_field_list_trans(x, y, z);
            },
            (ValueModel::Function(x), ValueModel::Function(y), ValueModel::Function(z)) => {
                lemma_cmp_pair_list_trans(x, y, z);
            },
            (ValueModel::Sequence(x), ValueModel::Sequence(y), ValueModel::Sequence(z)) => {
                lemma_cmp_value_list_trans(x, y, z);
            },
            (ValueModel::Literal(x), ValueModel::Literal(y), ValueModel::Literal(z)) => {
                lemma_lex_cmp_trans(x, y, z);
            },
            (ValueModel::Constant(x), ValueModel::Constant(y), ValueModel::Constant(z)) => {
                lemma_lex_cmp_trans(x, y, z);
            },
            (
                ValueModel::Variant(tx, vx),
                ValueModel::Variant(ty, vy),
                ValueModel::Variant(tz, vz),
            ) => {
                lemma_lex_cmp_trans(tx, ty, tz);
                lemma_lex_cmp_eq(tx, ty);
                lemma_lex_cmp_eq(ty, tz);
                lemma_lex_cmp_eq(tx, tz);
                if lex_cmp(tx, tz) == 0 {
                    assert(lex_cmp(tx, ty) == 0 && lex_cmp(ty, tz) == 0);
                    lemma_cmp_value_trans(*vx, *vy, *vz);
                }
            },
            _ => {},
        }
    }
}

/// Transitivity of the list comparison, with the same strictness rule.
pub proof fn lemma_cmp_value_list_trans(
    x: Seq<ValueModel>,
    y: Seq<ValueModel>,
    z: Seq<ValueModel>,
)
    requires
        cmp_value_list(x, y) <= 0,
        cmp_value_list(y, z) <= 0,
    ensures
        cmp_value_list(x, z) <= 0,
        cmp_value_list(x, y) < 0 || cmp_value_list(y, z) < 0 ==> cmp_value_list(x, z) < 0,
    decreases x, 2nat,
{
    if x.len() == 0 {
        if z.len() == 0 {
            assert(y.len() == 0);
        }
    } else {
        assert(y.len() > 0);
        assert(z.len() > 0);
        lemma_cmp_value_trans(x[0], y[0], z[0]);
        lemma_cmp_value_eq(x[0], y[0]);
        lemma_cmp_value_eq(y[0], z[0]);
        lemma_cmp_value_eq(x[0], z[0]);
        if cmp_value(x[0], z[0]) == 0 {
            assert(cmp_value(x[0], y[0]) == 0 && cmp_value(y[0], z[0]) == 0);
            lemma_cmp_value_list_trans(x.drop_first(), y.drop_first(), z.drop_first());
        }
    }
}

/// Transitivity of the field list comparison, with the same strictness rule.
pub proof fn lemma_cmp_field_list_trans(
    x: Seq<(Seq<char>, ValueModel)>,
    y: Seq<(Seq<char>, ValueModel)>,
    z: Seq<(Seq<char>, ValueModel)>,
)
    requires
        cmp_field_list(x, y) <= 0,
        cmp_field_list(y, z) <= 0,
    ensures
        cmp_field_list(x, z) <= 0,
        cmp_field_list(x, y) < 0 || cmp_field_list(y, z) < 0 ==> cmp_field_list(x, z) < 0,
    decreases x, 2nat,
{
    if x.len() == 0 {
        if z.len() == 0 {
            assert(y.len() == 0);
        }
    } else {
        assert(y.len() > 0);
        assert(z.len() > 0);
        lemma_lex_cmp_trans(x[0].0, y[0].0, z[0].0);
        lemma_lex_cmp_eq(x[0].0, y[0].0);
        lemma_lex_cmp_eq(y[0].0, z[0].0);
        lemma_lex_cmp_eq(x[0].0, z[0].0);
        if lex_cmp(x[0].0, z[0].0) == 0 {
            assert(lex_cmp(x[0].0, y[0].0) == 0 && lex_cmp(y[0].0, z[0].0) == 0);
            lemma_cmp_value_trans(x[0].1, y[0].1, z[0].1);
            lemma_cmp_value_eq(x[0].1, y[0].1);
            lemma_cmp_value_eq(y[0].1, z[0].1);
            lemma_cmp_value_eq(x[0].1, z[0].1);
            if cmp_value(x[0].1, z[0].1) == 0 {
                assert(cmp_value(x[0].1, y[0].1) == 0 && cmp_value(y[0].1, z[0].1) == 0);
                lemma_cmp_field_list_trans(x.drop_first(), y.drop_first(), z.drop_first());
            }
        }
    }
}

/// Transitivity of the pair list comparison, with the same strictness rule.
pub proof fn lemma_cmp_pair_list_trans(
    x: Seq<(ValueModel, ValueModel)>,
    y: Seq<(ValueModel, ValueModel)>,
    z: Seq<(ValueModel, ValueModel)>,
)
    requires
        cmp_pair_list(x, y) <= 0,
        cmp_pair_list(y, z) <= 0,
    ensures
        cmp_pair_list(x, z) <= 0,
        cmp_pair_list(x, y) < 0 || cmp_pair_list(y, z) < 0 ==> cmp_pair_list(x, z) < 0,
    decreases x, 2nat,
{
    if x.len() == 0 {
        if z.len() == 0 {
            assert(y.len() == 0);
        }
    } else {
        assert(y.len() > 0);
        assert(z.len() > 0);
        lemma_cmp_value_trans(x[0].0, y[0].0, z[0].0);
        lemma_cmp_value_eq(x[0].0, y[0].0);
        lemma_cmp_value_eq(y[0].0, z[0].0);
        lemma_cmp_value_eq(x[0].0, z[0].0);
        if cmp_value(x[0].0, z[0].0) == 0 {
            assert(cmp_value(x[0].0, y[0].0) == 0 && cmp_value(y[0].0, z[0].0) == 0);
            lemma_cmp_value_trans(x[0].1, y[0].1, z[0].1);
            lemma_cmp_value_eq(x[0].1, y[0].1);
            lemma_cmp_value_eq(y[0].1, z[0].1);
            lemma_cmp_value_eq(x[0].1, z[0].1);
            if cmp_value(x[0].1, z[0].1) == 0 {
                assert(cmp_value(x[0].1, y[0].1) == 0 && cmp_value(y[0].1, z[0].1) == 0);
                lemma_cmp_pair_list_trans(x.drop_first(), y.drop_first(), z.drop_first());
            }
        }
    }
}

/// The comparison never leaves {-1, 0, 1}.
pub proof fn lemma_cmp_value_range(a: ValueModel, b: ValueModel)
    ensures
        -1 <= cmp_value(a, b) <= 1,
{
    lemma_cmp_value_eq(a, b);
    lemma_cmp_value_flip(a, b);
    if cmp_value(a, b) > 1 || cmp_value(a, b) < -1 {
        lemma_cmp_range_helper(a, b);
    }
}

/// Helper: the comparison is one of the three literal outcomes.
proof fn lemma_cmp_range_helper(a: ValueModel, b: ValueModel)
    ensures
        cmp_value(a, b) == -1 || cmp_value(a, b) == 0 || cmp_value(a, b) == 1,
    decreases a, 1nat,
{
    if tag_of(a) == tag_of(b) {
        match (a, b) {
            (ValueModel::SetOf(x), ValueModel::SetOf(y)) => {
                lemma_cmp_list_range_helper(x, y);
            },
            (ValueModel::Record(x), ValueModel::Record(y)) => {
                lemma_cmp_field_range_helper(x, y);
            },
            (ValueModel::Function(x), ValueModel::Function(y)) => {
                lemma_cmp_pair_range_helper(x, y);
            },
            (ValueModel::Sequence(x), ValueModel::Sequence(y)) => {
                lemma_cmp_list_range_helper(x, y);
            },
            (ValueModel::Literal(x), ValueModel::Literal(y)) => {
                crate::text_order::lemma_lex_cmp_range(x, y);
            },
            (ValueModel::Constant(x), ValueModel::Constant(y)) => {
                crate::text_order::lemma_lex_cmp_range(x, y);
            },
            (ValueModel::Variant(tx, vx), ValueModel::Variant(ty, vy)) => {
                crate::text_order::lemma_lex_cmp_range(tx, ty);
                if lex_cmp(tx, ty) == 0 {
                    lemma_cmp_range_helper(*vx, *vy);
                }
            },
            _ => {},
        }
    }
}

/// Helper: list comparison stays within the three outcomes.
proof fn lemma_cmp_list_range_helper(x: Seq<ValueModel>, y: Seq<ValueModel>)
    ensures
        cmp_value_list(x, y) == -1 || cmp_value_list(x, y) == 0 || cmp_value_list(x, y) == 1,
    decreases x, 2nat,
{
    if x.len() > 0 && y.len() > 0 {
        lemma_cmp_range_helper(x[0], y[0]);
        if cmp_value(x[0], y[0]) == 0 {
            lemma_cmp_list_range_helper(x.drop_first(), y.drop_first());
        }
    }
}

/// Helper: field list comparison stays within the three outcomes.
proof fn lemma_cmp_field_range_helper(
    x: Seq<(Seq<char>, ValueModel)>,
    y: Seq<(Seq<char>, ValueModel)>,
)
    ensures
        cmp_field_list(x, y) == -1 || cmp_field_list(x, y) == 0 || cmp_field_list(x, y) == 1,
    decreases x, 2nat,
{
    if x.len() > 0 && y.len() > 0 {
        crate::text_order::lemma_lex_cmp_range(x[0].0, y[0].0);
        if lex_cmp(x[0].0, y[0].0) == 0 {
            lemma_cmp_range_helper(x[0].1, y[0].1);
            if cmp_value(x[0].1, y[0].1) == 0 {
                lemma_cmp_field_range_helper(x.drop_first(), y.drop_first());
            }
        }
    }
}

/// Helper: pair list comparison stays within the three outcomes.
proof fn lemma_cmp_pair_range_helper(
    x: Seq<(ValueModel, ValueModel)>,
    y: Seq<(ValueModel, ValueModel)>,
)
    ensures
        cmp_pair_list(x, y) == -1 || cmp_pair_list(x, y) == 0 || cmp_pair_list(x, y) == 1,
    decreases x, 2nat,
{
    if x.len() > 0 && y.len() > 0 {
        lemma_cmp_range_helper(x[0].0, y[0].0);
        if cmp_value(x[0].0, y[0].0) == 0 {
            lemma_cmp_range_helper(x[0].1, y[0].1);
            if cmp_value(x[0].1, y[0].1) == 0 {
                lemma_cmp_pair_range_helper(x.drop_first(), y.drop_first());
            }
        }
    }
}

/// The rank of a run-time value's variant.
fn tag_exec(v: &TlaValue) -> (t: u8)
    ensures
        t as int == tag_of(v@),
{
    match v {
        TlaValue::SetOf(_) => 0,
        TlaValue::Record(_) => 1,
        TlaValue::Function(_) => 2,
        TlaValue::Sequence(_) => 3,
        TlaValue::Literal(_) => 4,
        TlaValue::Constant(_) => 5,
        TlaValue::Bool(_) => 6,
        TlaValue::Int(_) => 7,
        TlaValue::Variant { .. } => 8,
    }
}

/// Executable three-way structural comparison, agreeing with `cmp_value`
/// on the models.
pub fn value_cmp(a: &TlaValue, b: &TlaValue) -> (o: i8)
    ensures
        o as int == cmp_value(a@, b@),
    decreases *a, 1nat,
{
    let ta = tag_exec(a);
    let tb = tag_exec(b);
    if ta < tb {
        return -1;
    }
    if tb < ta {
        return 1;
    }
    match (a, b) {
        (TlaValue::SetOf(x), TlaValue::SetOf(y)) => {
            proof {
                assert(model_list(x@).skip(0) =~= model_list(x@));
                assert(model_list(y@).skip(0) =~= model_list(y@));
            }
            value_list_cmp(x, y, 0)
        },
        (TlaValue::Record(x), TlaValue::Record(y)) => {
            proof {
                assert(model_fields(x@).skip(0) =~= model_fields(x@));
                assert(model_fields(y@).skip(0) =~= model_fields(y@));
            }
            field_list_cmp(x, y, 0)
        },
        (TlaValue::Function(x), TlaValue::Function(y)) => {
            proof {
                assert(model_pairs(x@).skip(0) =~= model_pairs(x@));
                assert(model_pairs(y@).skip(0) =~= model_pairs(y@));
            }
            pair_list_cmp(x, y, 0)
        },
        (TlaValue::Sequence(x), TlaValue::Sequence(y)) => {
            proof {
                assert(model_list(x@).skip(0) =~= model_list(x@));
                assert(model_list(y@).skip(0) =~= model_list(y@));
            }
            value_list_cmp(x, y, 0)
        },
        (TlaValue::Literal(x), TlaValue::Literal(y)) => str_cmp(x.as_str(), y.as_str()),
        (TlaValue::Constant(x), TlaValue::Constant(y)) => str_cmp(x.as_str(), y.as_str()),
        (TlaValue::Bool(x), TlaValue::Bool(y)) => {
            if x == y {
                0
            } else if !*x {
                -1
            } else {
                1
            }
        },
        (TlaValue::Int(x), TlaValue::Int(y)) => {
            if *x < *y {
                -1
            } else if *x == *y {
                0
            } else {
                1
            }
        },
        (TlaValue::Variant { tag: tx, value: vx }, TlaValue::Variant { tag: ty, value: vy }) => {
            let t = str_cmp(tx.as_str(), ty.as_str());
            if t != 0 {
                t
            } else {
                value_cmp(vx, vy)
            }
        },
        _ => {
            proof {
                assert(false);
            }
            0
        },
    }
}

/// Compares the suffixes of two value vectors starting at index `i`.
fn value_list_cmp(x: &Vec<TlaValue>, y: &Vec<TlaValue>, i: usize) -> (o: i8)
    requires
        i <= x@.len(),
        i <= y@.len(),
    ensures
        o as int == cmp_value_list(
            model_list(x@).skip(i as int),
            model_list(y@).skip(i as int),
        ),
    decreases x@, x@.len() - i,
{
    proof {
        lemma_model_list(x@);
        lemma_model_list(y@);
    }
    let ghost mx = model_list(x@).skip(i as int);
    let ghost my = model_list(y@).skip(i as int);
    if i == x.len() && i == y.len() {
        return 0;
    }
    if i == x.len() {
        return -1;
    }
    if i == y.len() {
        return 1;
    }
    proof {
        assert(mx[0] == model_list(x@)[i as int]);
        assert(my[0] == model_list(y@)[i as int]);
    }
    let c = value_cmp(&x[i], &y[i]);
    if c != 0 {
        return c;
    }
    proof {
        assert(mx.drop_first() =~= model_list(x@).skip(i + 1));
        assert(my.drop_first() =~= model_list(y@).skip(i + 1));
    }
    value_list_cmp(x, y, i + 1)
}

/// Compares the suffixes of two field vectors starting at index `i`.
fn field_list_cmp(x: &Vec<(String, TlaValue)>, y: &Vec<(String, TlaValue)>, i: usize) -> (o: i8)
    requires
        i <= x@.len(),
        i <= y@.len(),
    ensures
        o as int == cmp_field_list(
            model_fields(x@).skip(i as int),
            model_fields(y@).skip(i as int),
        ),
    decreases x@, x@.len() - i,
{
    proof {
        lemma_model_fields(x@);
        lemma_model_fields(y@);
    }
    let ghost mx = model_fields(x@).skip(i as int);
    let ghost my = model_fields(y@).skip(i as int);
    if i == x.len() && i == y.len() {
        return 0;
    }
    if i == x.len() {
        return -1;
    }
    if i == y.len() {
        return 1;
    }
    proof {
        assert(mx[0] == model_fields(x@)[i as int]);
        assert(my[0] == model_fields(y@)[i as int]);
    }
    let ck = str_cmp(x[i].0.as_str(), y[i].0.as_str());
    if ck != 0 {
        return ck;
    }
    let cv = value_cmp(&x[i].1, &y[i].1);
    if cv != 0 {
        return cv;
    }
    proof {
        assert(mx.drop_first() =~= model_fields(x@).skip(i + 1));
        assert(my.drop_first() =~= model_fields(y@).skip(i + 1));
    }
    field_list_cmp(x, y, i + 1)
}

/// Compares the suffixes of two pair vectors starting at index `i`.
fn pair_list_cmp(x: &Vec<(TlaValue, TlaValue)>, y: &Vec<(TlaValue, TlaValue)>, i: usize) -> (o:
    i8)
    requires
        i <= x@.len(),
        i <= y@.len(),
    ensures
        o as int == cmp_pair_list(
            model_pairs(x@).skip(i as int),
            model_pairs(y@).skip(i as int),
        ),
    decreases x@, x@.len() - i,
{
    proof {
        lemma_model_pairs(x@);
        lemma_model_pairs(y@);
    }
    let ghost mx = model_pairs(x@).skip(i as int);
    let ghost my = model_pairs(y@).skip(i as int);
    if i == x.len() && i == y.len() {
        return 0;
    }
    if i == x.len() {
        return -1;
    }
    if i == y.len() {
        return 1;
    }
    proof {
        assert(mx[0] == model_pairs(x@)[i as int]);
        assert(my[0] == model_pairs(y@)[i as int]);
    }
    let ck = value_cmp(&x[i].0, &y[i].0);
    if ck != 0 {
        return ck;
    }
    let cv = value_cmp(&x[i].1, &y[i].1);
    if cv != 0 {
        return cv;
    }
    proof {
        assert(mx.drop_first() =~= model_pairs(x@).skip(i + 1));
        assert(my.drop_first() =~= model_pairs(y@).skip(i + 1));
    }
    pair_list_cmp(x, y, i + 1)
}

} // verus!
