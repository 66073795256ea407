//! The canonical textual form of values.
//!
//! This text is the system's only externally bit-exact artifact: set
//! braces, record arrow notation (`|->`), function composition
//! (`:>`/`@@`), sequence angle brackets, quoted string literals, bare
//! symbols, `TRUE`/`FALSE`, decimal integers, and a tagged-variant
//! wrapper notation. The executable renderer is proved to produce
//! exactly the specified character sequence.

use crate::tla_value::lemma_model_fields;
use crate::tla_value::lemma_model_list;
use crate::tla_value::lemma_model_pairs;
use crate::tla_value::model_fields;
use crate::tla_value::model_list;
use crate::tla_value::model_pairs;
use crate::tla_value::TlaValue;
use crate::tla_value::ValueModel;
use vstd::prelude::*;
use vstd::string::StringExecFns;

verus! {

/// The decimal digit character for `d` in 0..=9.
pub open spec fn dec_digit(d: int) -> char {
    if d == 0 {
        '0'
    } else if d == 1 {
        '1'
    } else if d == 2 {
        '2'
    } else if d == 3 {
        '3'
    } else if d == 4 {
        '4'
    } else if d == 5 {
        '5'
    } else if d == 6 {
        '6'
    } else if d == 7 {
        '7'
    } else if d == 8 {
        '8'
    } else {
        '9'
    }
}

/// The decimal notation of a non-negative integer, no sign and no
/// separators.
pub open spec fn dec_nat(n: int) -> Seq<char>
    decreases n,
{
    if n < 10 {
        seq![dec_digit(n)]
    } else {
        dec_nat(n / 10) + seq![dec_digit(n % 10)]
    }
}

/// The canonical text of a value.
pub open spec fn render(v: ValueModel) -> Seq<char>
    decreases v, 1nat,
{
    match v {
        ValueModel::SetOf(xs) => "{"@ + render_list(xs) + "}"@,
        ValueModel::Record(fs) => "["@ + render_fields(fs) + "]"@,
        ValueModel::Function(ps) => render_pairs(ps),
        ValueModel::Sequence(xs) => "<<"@ + render_list(xs) + ">>"@,
        ValueModel::Literal(s) => "\""@ + s + "\""@,
        ValueModel::Constant(s) => s,
        ValueModel::Bool(b) => if b {
            "TRUE"@
        } else {
            "FALSE"@
        },
        ValueModel::Int(n) => dec_nat(n),
        ValueModel::Variant(tag, payload) => "Variant(\""@ + tag + "\", "@ + render(*payload)
            + ")"@,
    }
}

/// Element texts joined by a comma and a space.
pub open spec fn render_list(xs: Seq<ValueModel>) -> Seq<char>
    decreases xs, xs.len(),
{
    if xs.len() == 0 {
        Seq::empty()
    } else if xs.len() == 1 {
        render(xs[0])
    } else {
        render(xs[0]) + ", "@ + render_list(xs.drop_first())
    }
}

/// Field texts `key |-> value` joined by a comma and a space.
pub open spec fn render_fields(fs: Seq<(Seq<char>, ValueModel)>) -> Seq<char>
    decreases fs, fs.len(),
{
    if fs.len() == 0 {
        Seq::empty()
    } else if fs.len() == 1 {
        fs[0].0 + " |-> "@ + render(fs[0].1)
    } else {
        fs[0].0 + " |-> "@ + render(fs[0].1) + ", "@ + render_fields(fs.drop_first())
    }
}

/// Pair texts `key :> value` joined by `@@`; an empty function renders
/// as empty text.
pub open spec fn render_pairs(ps: Seq<(ValueModel, ValueModel)>) -> Seq<char>
    decreases ps, ps.len(),
{
    if ps.len() == 0 {
        Seq::empty()
    } else if ps.len() == 1 {
        render(ps[0].0) + " :> "@ + render(ps[0].1)
    } else {
        render(ps[0].0) + " :> "@ + render(ps[0].1) + " @@ "@ + render_pairs(ps.drop_first())
    }
}

/// The one-character string for a decimal digit.
fn digit_str(d: u64) -> (r: &'static str)
    requires
        d < 10,
    ensures
        r@ == seq![dec_digit(d as int)],
{
    if d == 0 {
        proof {
            reveal_strlit("0");
        }
        "0"
    } else if d == 1 {
        proof {
            reveal_strlit("1");
        }
        "1"
    } else if d == 2 {
        proof {
            reveal_strlit("2");
        }
        "2"
    } else if d == 3 {
        proof {
            reveal_strlit("3");
        }
        "3"
    } else if d == 4 {
        proof {
            reveal_strlit("4");
        }
        "4"
    } else if d == 5 {
        proof {
            reveal_strlit("5");
        reveal_strlit("6");
        }
        "5"
    } else if d == 6 {
        proof {
            reveal_strlit("6");
        }
        "6"
    } else if d == 7 {
        proof {
            reveal_strlit("7");
        }
        "7"
    } else if d == 8 {
        proof {
            reveal_strlit("8");
        }
        "8"
    } else {
        proof {
            reveal_strlit("9");
        }
        "9"
    }
}

/// Appends the decimal notation of `n`.
fn push_dec(out: &mut String, n: u64)
    ensures
        final(out)@ == old(out)@ + dec_nat(n as int),
    decreases n,
{
    if n < 10 {
        out.append(digit_str(n));
    } else {
        push_dec(out, n / 10);
        out.append(digit_str(n % 10));
        proof {
            assert(out@ =~= old(out)@ + dec_nat(n as int));
        }
    }
}

/// Appends the canonical text of a value.
fn push_value(v: &TlaValue, out: &mut String)
    ensures
        final(out)@ == old(out)@ + render(v@),
    decreases *v, 1nat,
{
    match v {
        TlaValue::SetOf(xs) => {
            out.append("{");
            proof {
                assert(model_list(xs@).skip(0) =~= model_list(xs@));
            }
            push_list(xs, 0, out);
            out.append("}");
            proof {
                assert(out@ =~= old(out)@ + render(v@));
            }
        },
        TlaValue::Record(fs) => {
            out.append("[");
            proof {
                assert(model_fields(fs@).skip(0) =~= model_fields(fs@));
            }
            push_fields(fs, 0, out);
            out.append("]");
            proof {
                assert(out@ =~= old(out)@ + render(v@));
            }
        },
        TlaValue::Function(ps) => {
            proof {
                assert(model_pairs(ps@).skip(0) =~= model_pairs(ps@));
            }
            push_pairs(ps, 0, out);
            proof {
                assert(out@ =~= old(out)@ + render(v@));
            }
        },
        TlaValue::Sequence(xs) => {
            out.append("<<");
            proof {
                assert(model_list(xs@).skip(0) =~= model_list(xs@));
            }
            push_list(xs, 0, out);
            out.append(">>");
            proof {
                assert(out@ =~= old(out)@ + render(v@));
            }
        },
        TlaValue::Literal(s) => {
            out.append("\"");
            out.append(s.as_str());
            out.append("\"");
            proof {
                assert(out@ =~= old(out)@ + render(v@));
            }
        },
        TlaValue::Constant(s) => {
            out.append(s.as_str());
        },
        TlaValue::Bool(b) => {
            if *b {
                out.append("TRUE");
            } else {
                out.append("FALSE");
            }
        },
        TlaValue::Int(n) => {
            push_dec(out, *n);
        },
        TlaValue::Variant { tag, value } => {
            out.append("Variant(\"");
            out.append(tag.as_str());
            out.append("\", ");
            push_value(value, out);
            out.append(")");
            proof {
                assert(out@ =~= old(out)@ + render(v@));
            }
        },
    }
}

/// Appends the texts of the elements from index `i` on, comma-separated.
fn push_list(xs: &Vec<TlaValue>, i: usize, out: &mut String)
    requires
        i <= xs@.len(),
    ensures
        final(out)@ == old(out)@ + render_list(model_list(xs@).skip(i as int)),
    decreases xs@, xs@.len() - i,
{
    proof {
        lemma_model_list(xs@);
    }
    let ghost m = model_list(xs@).skip(i as int);
    if i == xs.len() {
        proof {
            assert(out@ =~= old(out)@ + render_list(m));
        }
        return ;
    }
    proof {
        assert(m[0] == model_list(xs@)[i as int]);
    }
    push_value(&xs[i], out);
    if i + 1 < xs.len() {
        out.append(", ");
    }
    proof {
        assert(m.drop_first() =~= model_list(xs@).skip(i + 1));
    }
    push_list(xs, i + 1, out);
    proof {
        if i + 1 == xs@.len() {
            assert(m.len() == 1);
            assert(out@ =~= old(out)@ + render_list(m));
        } else {
            assert(m.len() >= 2);
            assert(out@ =~= old(out)@ + render_list(m));
        }
    }
}

/// Appends the texts of the fields from index `i` on, comma-separated.
fn push_fields(fs: &Vec<(String, TlaValue)>, i: usize, out: &mut String)
    requires
        i <= fs@.len(),
    ensures
        final(out)@ == old(out)@ + render_fields(model_fields(fs@).skip(i as int)),
    decreases fs@, fs@.len() - i,
{
    proof {
        lemma_model_fields(fs@);
    }
    let ghost m = model_fields(fs@).skip(i as int);
    if i == fs.len() {
        proof {
            assert(out@ =~= old(out)@ + render_fields(m));
        }
        return ;
    }
    proof {
        assert(m[0] == model_fields(fs@)[i as int]);
    }
    out.append(fs[i].0.as_str());
    out.append(" |-> ");
    push_value(&fs[i].1, out);
    if i + 1 < fs.len() {
        out.append(", ");
    }
    proof {
        assert(m.drop_first() =~= model_fields(fs@).skip(i + 1));
    }
    push_fields(fs, i + 1, out);
    proof {
        if i + 1 == fs@.len() {
            assert(m.len() == 1);
            assert(out@ =~= old(out)@ + render_fields(m));
        } else {
            assert(m.len() >= 2);
            assert(out@ =~= old(out)@ + render_fields(m));
        }
    }
}

/// Appends the texts of the pairs from index `i` on, `@@`-separated.
fn push_pairs(ps: &Vec<(TlaValue, TlaValue)>, i: usize, out: &mut String)
    requires
        i <= ps@.len(),
    ensures
        final(out)@ == old(out)@ + render_pairs(model_pairs(ps@).skip(i as int)),
    decreases ps@, ps@.len() - i,
{
    proof {
        lemma_model_pairs(ps@);
    }
    let ghost m = model_pairs(ps@).skip(i as int);
    if i == ps.len() {
        proof {
            assert(out@ =~= old(out)@ + render_pairs(m));
        }
        return ;
    }
    proof {
        assert(m[0] == model_pairs(ps@)[i as int]);
    }
    push_value(&ps[i].0, out);
    out.append(" :> ");
    push_value(&ps[i].1, out);
    if i + 1 < ps.len() {
        out.append(" @@ ");
    }
    proof {
        assert(m.drop_first() =~= model_pairs(ps@).skip(i + 1));
    }
    push_pairs(ps, i + 1, out);
    proof {
        if i + 1 == ps@.len() {
            assert(m.len() == 1);
            assert(out@ =~= old(out)@ + render_pairs(m));
        } else {
            assert(m.len() >= 2);
            assert(out@ =~= old(out)@ + render_pairs(m));
        }
    }
}

impl TlaValue {
    /// The canonical text of this value; the concrete syntax the
    /// downstream formal-model consumer reads.
    pub fn to_tla_string(&self) -> (r: String)
        ensures
            r@ == render(self@),
    {
        let mut out = String::new();
        push_value(self, &mut out);
        proof {
            assert(out@ =~= render(self@));
        }
        out
    }
}

} // verus!
