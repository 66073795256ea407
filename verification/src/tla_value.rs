//! The canonical value type used for all snapshot data.
//!
//! A value is one of: a set of unique, ordered elements; a record with
//! ordered string keys; a function given as ordered key/value pairs; a
//! sequence; a string literal; a bare symbolic constant; a boolean; an
//! integer; or a tagged variant. Values carry a total structural order
//! (by variant tag, then recursively) so that sets and functions can be
//! stored in canonical order and compared.

use crate::sorted_entries::elems_sorted;
use crate::sorted_entries::entries_sorted_by;
use crate::sorted_entries::insert_elem;
use crate::sorted_entries::insert_field;
use crate::sorted_entries::insert_pair;
use crate::sorted_entries::map_of_entries;
use crate::sorted_entries::text_order_fn;
use crate::sorted_entries::value_order_fn;
use vstd::prelude::*;

verus! {

/// The mathematical model of a canonical value: containers become
/// sequences, strings become character sequences, integers are unbounded.
#[verifier::ext_equal]
pub enum ValueModel {
    SetOf(Seq<ValueModel>),
    Record(Seq<(Seq<char>, ValueModel)>),
    Function(Seq<(ValueModel, ValueModel)>),
    Sequence(Seq<ValueModel>),
    Literal(Seq<char>),
    Constant(Seq<char>),
    Bool(bool),
    Int(int),
    Variant(Seq<char>, Box<ValueModel>),
}

/// A canonical value as held at run time. The `SetOf`, `Record` and
/// `Function` variants keep their elements sorted by the structural
/// order; use [`TlaValue::set_of`], [`TlaValue::record_of`] and
/// [`TlaValue::function_of`] to build them from arbitrary input.
#[derive(Debug, PartialEq, Eq, Hash)]
pub enum TlaValue {
    SetOf(Vec<TlaValue>),
    Record(Vec<(String, TlaValue)>),
    Function(Vec<(TlaValue, TlaValue)>),
    Sequence(Vec<TlaValue>),
    Literal(String),
    Constant(String),
    Bool(bool),
    Int(u64),
    Variant { tag: String, value: Box<TlaValue> },
}

/// Models of a sequence of values, elementwise.
pub open spec fn model_list(s: Seq<TlaValue>) -> Seq<ValueModel>
    decreases s, s.len(),
{
    if s.len() == 0 {
        Seq::empty()
    } else {
        seq![s[0].model()] + model_list(s.drop_first())
    }
}

/// Models of a sequence of string-keyed fields, elementwise.
pub open spec fn model_fields(s: Seq<(String, TlaValue)>) -> Seq<(Seq<char>, ValueModel)>
    decreases s, s.len(),
{
    if s.len() == 0 {
        Seq::empty()
    } else {
        seq![(s[0].0@, s[0].1.model())] + model_fields(s.drop_first())
    }
}

/// Models of a sequence of key/value pairs, elementwise.
pub open spec fn model_pairs(s: Seq<(TlaValue, TlaValue)>) -> Seq<(ValueModel, ValueModel)>
    decreases s, s.len(),
{
    if s.len() == 0 {
        Seq::empty()
    } else {
        seq![(s[0].0.model(), s[0].1.model())] + model_pairs(s.drop_first())
    }
}

impl TlaValue {
    /// The mathematical model of this value.
    pub open spec fn model(self) -> ValueModel
        decreases self, 0nat,
    {
        match self {
            TlaValue::SetOf(xs) => ValueModel::SetOf(model_list(xs@)),
            TlaValue::Record(fs) => ValueModel::Record(model_fields(fs@)),
            TlaValue::Function(ps) => ValueModel::Function(model_pairs(ps@)),
            TlaValue::Sequence(xs) => ValueModel::Sequence(model_list(xs@)),
            TlaValue::Literal(s) => ValueModel::Literal(s@),
            TlaValue::Constant(s) => ValueModel::Constant(s@),
            TlaValue::Bool(b) => ValueModel::Bool(b),
            TlaValue::Int(n) => ValueModel::Int(n as int),
            TlaValue::Variant { tag, value } => ValueModel::Variant(
                tag@,
                Box::new((*value).model()),
            ),
        }
    }
}

impl View for TlaValue {
    type V = ValueModel;

    open spec fn view(&self) -> ValueModel {
        self.model()
    }
}

/// `model_list` keeps length and maps elementwise.
pub proof fn lemma_model_list(s: Seq<TlaValue>)
    ensures
        model_list(s).len() == s.len(),
        forall|i: int| 0 <= i < s.len() ==> #[trigger] model_list(s)[i] == s[i].model(),
    decreases s.len(),
{
    if s.len() > 0 {
        lemma_model_list(s.drop_first());
        assert forall|i: int| 0 <= i < s.len() implies #[trigger] model_list(s)[i] == s[i].model()
            by {
            if i > 0 {
                assert(model_list(s)[i] == model_list(s.drop_first())[i - 1]);
                assert(s.drop_first()[i - 1] == s[i]);
            }
        }
    }
}

/// `model_fields` keeps length and maps elementwise.
pub proof fn lemma_model_fields(s: Seq<(String, TlaValue)>)
    ensures
        model_fields(s).len() == s.len(),
        forall|i: int|
            0 <= i < s.len() ==> #[trigger] model_fields(s)[i] == (s[i].0@, s[i].1.model()),
    decreases s.len(),
{
    if s.len() > 0 {
        lemma_model_fields(s.drop_first());
        assert forall|i: int|
            0 <= i < s.len() implies #[trigger] model_fields(s)[i] == (s[i].0@, s[i].1.model())
            by {
            if i > 0 {
                assert(model_fields(s)[i] == model_fields(s.drop_first())[i - 1]);
                assert(s.drop_first()[i - 1] == s[i]);
            }
        }
    }
}

/// `model_pairs` keeps length and maps elementwise.
pub proof fn lemma_model_pairs(s: Seq<(TlaValue, TlaValue)>)
    ensures
        model_pairs(s).len() == s.len(),
        forall|i: int|
            0 <= i < s.len() ==> #[trigger] model_pairs(s)[i] == (
                s[i].0.model(),
                s[i].1.model(),
            ),
    decreases s.len(),
{
    if s.len() > 0 {
        lemma_model_pairs(s.drop_first());
        assert forall|i: int|
            0 <= i < s.len() implies #[trigger] model_pairs(s)[i] == (
            s[i].0.model(),
            s[i].1.model(),
        ) by {
            if i > 0 {
                assert(model_pairs(s)[i] == model_pairs(s.drop_first())[i - 1]);
                assert(s.drop_first()[i - 1] == s[i]);
            }
        }
    }
}

/// Pushing an element onto a sequence adds it to the element set.
pub proof fn lemma_push_to_set<T>(s: Seq<T>, x: T)
    ensures
        s.push(x).to_set() == s.to_set().insert(x),
{
    let t = s.push(x);
    assert forall|m: T| #[trigger] t.to_set().contains(m) implies s.to_set().insert(x).contains(
        m,
    ) by {
        let j = choose|j: int| 0 <= j < t.len() && t[j] == m;
        if j < s.len() {
            assert(s[j] == m);
        }
    }
    assert forall|m: T| s.to_set().insert(x).contains(m) implies #[trigger] t.to_set().contains(
        m,
    ) by {
        if m == x {
            assert(t[s.len() as int] == m);
        } else {
            let j = choose|j: int| 0 <= j < s.len() && s[j] == m;
            assert(t[j] == m);
        }
    }
    assert(t.to_set() =~= s.to_set().insert(x));
}

impl TlaValue {
    /// Builds a set value: the elements are sorted into the structural
    /// order and duplicates are dropped, preserving the element set.
    pub fn set_of(elems: Vec<TlaValue>) -> (r: TlaValue)
        ensures
            (r@ matches ValueModel::SetOf(m) && elems_sorted(m) && m.to_set() == model_list(
                elems@,
            ).to_set() && forall|i: int, j: int|
                0 <= i < j < m.len() ==> #[trigger] m[i] != #[trigger] m[j]),
    {
        let ghost ml = model_list(elems@);
        let mut out: Vec<TlaValue> = Vec::new();
        let mut i: usize = 0;
        proof {
            assert(model_list(out@).to_set() =~= ml.take(0).to_set());
        }
        while i < elems.len()
            invariant
                i <= elems@.len(),
                ml == model_list(elems@),
                elems_sorted(model_list(out@)),
                model_list(out@).to_set() == ml.take(i as int).to_set(),
            decreases elems@.len() - i,
        {
            proof {
                lemma_model_list(elems@);
            }
            insert_elem(&mut out, elems[i].clone());
            proof {
                assert(ml.take(i + 1) =~= ml.take(i as int).push(ml[i as int]));
                lemma_push_to_set(ml.take(i as int), ml[i as int]);
            }
            i = i + 1;
        }
        proof {
            lemma_model_list(elems@);
            assert(ml.take(elems@.len() as int) =~= ml);
            let m = model_list(out@);
            crate::sorted_entries::lemma_elems_sorted_pairwise(m);
            assert forall|i: int, j: int|
                0 <= i < j < m.len() implies #[trigger] m[i] != #[trigger] m[j] by {
                crate::value_order::lemma_cmp_value_eq(m[i], m[j]);
            }
        }
        TlaValue::SetOf(out)
    }

    /// Builds a record value: the fields are sorted by name; a later field
    /// with the same name overrides an earlier one.
    pub fn record_of(fields: Vec<(String, TlaValue)>) -> (r: TlaValue)
        ensures
            (r@ matches ValueModel::Record(m) && entries_sorted_by(m, text_order_fn())
                && map_of_entries(m) == map_of_entries(model_fields(fields@))),
    {
        let ghost mf = model_fields(fields@);
        let mut out: Vec<(String, TlaValue)> = Vec::new();
        let mut i: usize = 0;
        proof {
            assert(mf.take(0) =~= model_fields(Seq::<(String, TlaValue)>::empty()));
        }
        while i < fields.len()
            invariant
                i <= fields@.len(),
                mf == model_fields(fields@),
                entries_sorted_by(model_fields(out@), text_order_fn()),
                map_of_entries(model_fields(out@)) == map_of_entries(mf.take(i as int)),
            decreases fields@.len() - i,
        {
            proof {
                lemma_model_fields(fields@);
            }
            let name = fields[i].0.clone();
            let value = fields[i].1.clone();
            insert_field(&mut out, name, value);
            proof {
                assert(mf.take(i + 1).drop_last() =~= mf.take(i as int));
                assert(mf.take(i + 1).last() == mf[i as int]);
            }
            i = i + 1;
        }
        proof {
            lemma_model_fields(fields@);
            assert(mf.take(fields@.len() as int) =~= mf);
        }
        TlaValue::Record(out)
    }

    /// Builds a function value: the pairs are sorted by key; a later pair
    /// with the same key overrides an earlier one.
    pub fn function_of(pairs: Vec<(TlaValue, TlaValue)>) -> (r: TlaValue)
        ensures
            (r@ matches ValueModel::Function(m) && entries_sorted_by(m, value_order_fn())
                && map_of_entries(m) == map_of_entries(model_pairs(pairs@))),
    {
        let ghost mp = model_pairs(pairs@);
        let mut out: Vec<(TlaValue, TlaValue)> = Vec::new();
        let mut i: usize = 0;
        proof {
            assert(mp.take(0) =~= model_pairs(Seq::<(TlaValue, TlaValue)>::empty()));
        }
        while i < pairs.len()
            invariant
                i <= pairs@.len(),
                mp == model_pairs(pairs@),
                entries_sorted_by(model_pairs(out@), value_order_fn()),
                map_of_entries(model_pairs(out@)) == map_of_entries(mp.take(i as int)),
            decreases pairs@.len() - i,
        {
            proof {
                lemma_model_pairs(pairs@);
            }
            let key = pairs[i].0.clone();
            let value = pairs[i].1.clone();
            insert_pair(&mut out, key, value);
            proof {
                assert(mp.take(i + 1).drop_last() =~= mp.take(i as int));
                assert(mp.take(i + 1).last() == mp[i as int]);
            }
            i = i + 1;
        }
        proof {
            lemma_model_pairs(pairs@);
            assert(mp.take(pairs@.len() as int) =~= mp);
        }
        TlaValue::Function(out)
    }
}

impl Clone for TlaValue {
    /// Cloning preserves the model.
    fn clone(&self) -> (r: Self)
        ensures
            r@ == self@,
        decreases *self, 1nat,
    {
        match self {
            TlaValue::SetOf(xs) => TlaValue::SetOf(clone_value_vec(xs)),
            TlaValue::Record(fs) => TlaValue::Record(clone_field_vec(fs)),
            TlaValue::Function(ps) => TlaValue::Function(clone_pair_vec(ps)),
            TlaValue::Sequence(xs) => TlaValue::Sequence(clone_value_vec(xs)),
            TlaValue::Literal(s) => TlaValue::Literal(s.clone()),
            TlaValue::Constant(s) => TlaValue::Constant(s.clone()),
            TlaValue::Bool(b) => TlaValue::Bool(*b),
            TlaValue::Int(n) => TlaValue::Int(*n),
            TlaValue::Variant { tag, value } => TlaValue::Variant {
                tag: tag.clone(),
                value: Box::new((**value).clone()),
            },
        }
    }
}

/// Clones a vector of values, preserving the models elementwise.
pub(crate) fn clone_value_vec(xs: &Vec<TlaValue>) -> (r: Vec<TlaValue>)
    ensures
        model_list(r@) == model_list(xs@),
    decreases xs@, 0nat,
{
    let mut r: Vec<TlaValue> = Vec::new();
    let n = xs.len();
    let mut i: usize = 0;
    while i < n
        invariant
            i <= n,
            n == xs@.len(),
            r@.len() == i,
            forall|j: int| 0 <= j < i ==> r@[j]@ == #[trigger] xs@[j]@,
        decreases n - i,
    {
        r.push(xs[i].clone());
        i = i + 1;
    }
    proof {
        lemma_model_list(r@);
        lemma_model_list(xs@);
        assert forall|j: int| 0 <= j < xs@.len() implies model_list(r@)[j] == model_list(xs@)[j]
            by {
            assert(r@[j]@ == xs@[j]@);
        }
        assert(model_list(r@) =~= model_list(xs@));
    }
    r
}

/// Clones a vector of string-keyed fields, preserving the models.
pub(crate) fn clone_field_vec(fs: &Vec<(String, TlaValue)>) -> (r: Vec<(String, TlaValue)>)
    ensures
        model_fields(r@) == model_fields(fs@),
    decreases fs@, 0nat,
{
    let mut r: Vec<(String, TlaValue)> = Vec::new();
    let n = fs.len();
    let mut i: usize = 0;
    while i < n
        invariant
            i <= n,
            n == fs@.len(),
            r@.len() == i,
            forall|j: int|
                0 <= j < i ==> (#[trigger] r@[j]).0@ == fs@[j].0@ && r@[j].1@ == fs@[j].1@,
        decreases n - i,
    {
        let name = fs[i].0.clone();
        let value = fs[i].1.clone();
        r.push((name, value));
        i = i + 1;
    }
    proof {
        lemma_model_fields(r@);
        lemma_model_fields(fs@);
        assert forall|j: int|
            0 <= j < fs@.len() implies model_fields(r@)[j] == model_fields(fs@)[j] by {
            assert(r@[j].0@ == fs@[j].0@ && r@[j].1@ == fs@[j].1@);
        }
        assert(model_fields(r@) =~= model_fields(fs@));
    }
    r
}

/// Clones a vector of key/value pairs, preserving the models.
pub(crate) fn clone_pair_vec(ps: &Vec<(TlaValue, TlaValue)>) -> (r: Vec<(TlaValue, TlaValue)>)
    ensures
        model_pairs(r@) == model_pairs(ps@),
    decreases ps@, 0nat,
{
    let mut r: Vec<(TlaValue, TlaValue)> = Vec::new();
    let n = ps.len();
    let mut i: usize = 0;
    while i < n
        invariant
            i <= n,
            n == ps@.len(),
            r@.len() == i,
            forall|j: int|
                0 <= j < i ==> (#[trigger] r@[j]).0@ == ps@[j].0@ && r@[j].1@ == ps@[j].1@,
        decreases n - i,
    {
        let key = ps[i].0.clone();
        let value = ps[i].1.clone();
        r.push((key, value));
        i = i + 1;
    }
    proof {
        lemma_model_pairs(r@);
        lemma_model_pairs(ps@);
        assert forall|j: int| 0 <= j < ps@.len() implies model_pairs(r@)[j] == model_pairs(ps@)[j]
            by {
            assert(r@[j].0@ == ps@[j].0@ && r@[j].1@ == ps@[j].1@);
        }
        assert(model_pairs(r@) =~= model_pairs(ps@));
    }
    r
}

/// A binding of model constants to values, used to parameterize the
/// formal model.
#[derive(Debug, PartialEq, Eq)]
pub struct TlaConstantAssignment {
    pub constants: crate::tla_state::VarAssignment,
}

impl TlaConstantAssignment {
    /// Each constant with its canonical text, in name order.
    pub fn to_map(&self) -> (r: Vec<(String, String)>)
        ensures
            r@.len() == self.constants.entries().len(),
            forall|i: int|
                0 <= i < r@.len() ==> (#[trigger] r@[i]).0@ == self.constants.entries()[i].0
                    && r@[i].1@ == crate::render::render(self.constants.entries()[i].1),
    {
        proof {
            lemma_model_fields(self.constants.0@);
        }
        let ghost ce = self.constants.entries();
        let mut out: Vec<(String, String)> = Vec::new();
        let mut i: usize = 0;
        while i < self.constants.0.len()
            invariant
                i <= self.constants.0@.len(),
                ce == self.constants.entries(),
                ce.len() == self.constants.0@.len(),
                forall|x: int|
                    0 <= x < ce.len() ==> #[trigger] ce[x] == (
                        self.constants.0@[x].0@,
                        self.constants.0@[x].1@,
                    ),
                out@.len() == i,
                forall|x: int|
                    0 <= x < i ==> (#[trigger] out@[x]).0@ == ce[x].0 && out@[x].1@
                        == crate::render::render(ce[x].1),
            decreases self.constants.0@.len() - i,
        {
            let name = self.constants.0[i].0.clone();
            let text = self.constants.0[i].1.to_tla_string();
            out.push((name, text));
            i = i + 1;
        }
        out
    }
}

/// Conversion of a native value into its canonical form. The engine
/// provides implementations for common scalars and containers;
/// instrumented applications implement it for their own types. The
/// conversion is total: it never fails and preserves the source's
/// ordering and uniqueness.
pub trait ToTla {
    /// The canonical form of this value.
    fn to_tla_value(&self) -> TlaValue;
}

impl ToTla for u32 {
    fn to_tla_value(&self) -> (r: TlaValue)
        ensures
            r@ == ValueModel::Int(*self as int),
    {
        TlaValue::Int(*self as u64)
    }
}

impl ToTla for u64 {
    fn to_tla_value(&self) -> (r: TlaValue)
        ensures
            r@ == ValueModel::Int(*self as int),
    {
        TlaValue::Int(*self)
    }
}

impl ToTla for bool {
    fn to_tla_value(&self) -> (r: TlaValue)
        ensures
            r@ == ValueModel::Bool(*self),
    {
        TlaValue::Bool(*self)
    }
}

impl ToTla for &str {
    fn to_tla_value(&self) -> (r: TlaValue)
        ensures
            r@ == ValueModel::Literal((*self)@),
    {
        TlaValue::Literal((*self).to_owned())
    }
}

/// `m` is what some result of `V::to_tla_value` on `src` denotes.
pub open spec fn converted_elem<V: ToTla>(src: V, m: ValueModel) -> bool {
    exists|t: TlaValue| #[trigger] call_ensures(V::to_tla_value, (&src,), t) && m == t@
}

/// The models `m` are, elementwise, models of converted elements of
/// `src`.
pub open spec fn converted_list_spec<V: ToTla>(src: Seq<V>, m: Seq<ValueModel>) -> bool {
    &&& m.len() == src.len()
    &&& forall|i: int| 0 <= i < m.len() ==> #[trigger] converted_elem(src[i], m[i])
}

impl<V: ToTla> ToTla for Vec<V> {
    fn to_tla_value(&self) -> (r: TlaValue)
        ensures
            (r@ matches ValueModel::Sequence(m) && converted_list_spec(self@, m)),
    {
        let mut elems: Vec<TlaValue> = Vec::new();
        let mut i: usize = 0;
        while i < self.len()
            invariant
                i <= self@.len(),
                elems@.len() == i,
                forall|j: int|
                    0 <= j < i ==> #[trigger] call_ensures(
                        V::to_tla_value,
                        (&self@[j],),
                        elems@[j],
                    ),
            decreases self@.len() - i,
        {
            let converted = self[i].to_tla_value();
            proof {
                assert(call_ensures(V::to_tla_value, (&self@[i as int],), converted));
            }
            elems.push(converted);
            i = i + 1;
        }
        let result = TlaValue::Sequence(elems);
        proof {
            let m = result@->Sequence_0;
            lemma_model_list(elems@);
            assert(m == model_list(elems@));
            assert forall|j: int|
                0 <= j < m.len() implies #[trigger] converted_elem(self@[j], m[j]) by {
                assert(call_ensures(V::to_tla_value, (&self@[j],), elems@[j]));
                assert(m[j] == elems@[j]@);
            }
            assert(converted_list_spec(self@, m));
        }
        result
    }
}

/// The principal type of the host platform, treated as an opaque value;
/// only its canonical text enters the model.
#[verifier::external_type_specification]
#[verifier::external_body]
pub struct ExPrincipal(candid::Principal);

/// Relies on candid's `Display` for `Principal`: the canonical textual
/// encoding of the principal. The encoding is a pure function of the
/// principal's bytes; nothing further is assumed of its shape.
#[verifier::external_body]
fn principal_text(p: &candid::Principal) -> String {
    format!("{}", p)
}

impl ToTla for candid::Principal {
    fn to_tla_value(&self) -> (r: TlaValue)
        ensures
            (r@ matches ValueModel::Literal(_)),
    {
        TlaValue::Literal(principal_text(self))
    }
}

} // verus!
