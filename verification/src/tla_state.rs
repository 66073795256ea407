//! Variable assignments, location labels and state snapshots.
//!
//! A variable assignment is an ordered name-to-value mapping with unique
//! names; merging two assignments is defined only when their name sets are
//! disjoint, and fails loudly otherwise — every variable must be finalized
//! by exactly one contributor per step. Labels identify where in the
//! nested call structure a snapshot was taken; snapshots pair a start and
//! an end state around one atomic step.

use crate::errors::TlaError;
use crate::sorted_entries::entries_sorted_by;
use crate::sorted_entries::insert_field;
use crate::sorted_entries::lemma_map_of_entries;
use crate::sorted_entries::lemma_sorted_distinct;
use crate::sorted_entries::lemma_text_order_total;
use crate::sorted_entries::lookup_field;
use crate::sorted_entries::map_of_entries;
use crate::sorted_entries::text_order_fn;
use crate::tla_value::clone_field_vec;
use crate::tla_value::lemma_model_fields;
use crate::tla_value::model_fields;
use crate::tla_value::TlaValue;
use crate::tla_value::ValueModel;
use vstd::prelude::*;
use vstd::string::StringExecFns;

verus! {

/// The names bound by a vector of string values, as character sequences.
pub open spec fn names_of(s: Seq<String>) -> Set<Seq<char>> {
    Set::new(|k: Seq<char>| exists|i: int| 0 <= i < s.len() && (#[trigger] s[i])@ == k)
}

/// The duplicate list holds exactly the names bound both in `self_names`
/// and among the first `j` entries of `oe`.
pub open spec fn dups_match(
    dups: Seq<String>,
    self_names: Set<Seq<char>>,
    oe: Seq<(Seq<char>, ValueModel)>,
    j: int,
) -> bool {
    forall|k: Seq<char>|
        #[trigger] names_of(dups).contains(k) <==> self_names.contains(k) && exists|i: int|
            0 <= i < j && (#[trigger] oe[i]).0 == k
}

/// Inserting into the right operand commutes with a right-preferring union.
pub proof fn lemma_union_insert<K, V>(a: Map<K, V>, b: Map<K, V>, k: K, v: V)
    ensures
        a.union_prefer_right(b).insert(k, v) == a.union_prefer_right(b.insert(k, v)),
{
    assert(a.union_prefer_right(b).insert(k, v) =~= a.union_prefer_right(b.insert(k, v)));
}

/// An ordered mapping from variable names to canonical values, with
/// unique names kept in lexicographic order.
#[derive(Debug, PartialEq, Eq)]
pub struct VarAssignment(pub Vec<(String, TlaValue)>);

impl VarAssignment {
    /// The entries as (name, value model) pairs, in storage order.
    pub open spec fn entries(self) -> Seq<(Seq<char>, ValueModel)> {
        model_fields(self.0@)
    }

    /// The mapping denoted by the entries.
    pub open spec fn as_map(self) -> Map<Seq<char>, ValueModel> {
        map_of_entries(self.entries())
    }

    /// The set of bound names.
    pub open spec fn names(self) -> Set<Seq<char>> {
        self.as_map().dom()
    }

    /// The entries are strictly sorted by name, so names are unique.
    pub open spec fn wf(self) -> bool {
        entries_sorted_by(self.entries(), text_order_fn())
    }

    /// An assignment with no entries.
    pub fn new() -> (r: Self)
        ensures
            r.wf(),
            r.as_map() == Map::<Seq<char>, ValueModel>::empty(),
            r.entries().len() == 0,
    {
        VarAssignment(Vec::new())
    }

    /// Binds `name` to `value`, overwriting any previous binding.
    pub fn push(&mut self, name: &str, value: TlaValue)
        requires
            old(self).wf(),
        ensures
            final(self).wf(),
            final(self).as_map() == old(self).as_map().insert(name@, value@),
    {
        insert_field(&mut self.0, name.to_owned(), value);
    }

    /// Binds each given pair in order; later pairs win, and they all
    /// overwrite existing bindings.
    pub fn update(&mut self, locals: Vec<(String, TlaValue)>)
        requires
            old(self).wf(),
        ensures
            final(self).wf(),
            final(self).as_map() == old(self).as_map().union_prefer_right(
                map_of_entries(model_fields(locals@)),
            ),
    {
        let ghost m0 = self.as_map();
        let ghost lf = model_fields(locals@);
        proof {
            assert(m0.union_prefer_right(map_of_entries(lf.take(0))) =~= m0);
        }
        let mut i: usize = 0;
        while i < locals.len()
            invariant
                i <= locals@.len(),
                lf == model_fields(locals@),
                self.wf(),
                self.as_map() == m0.union_prefer_right(map_of_entries(lf.take(i as int))),
            decreases locals@.len() - i,
        {
            proof {
                lemma_model_fields(locals@);
            }
            let name = locals[i].0.clone();
            let value = locals[i].1.clone();
            insert_field(&mut self.0, name, value);
            proof {
                assert(lf.take(i + 1).drop_last() =~= lf.take(i as int));
                assert(lf.take(i + 1).last() == lf[i as int]);
                lemma_union_insert(
                    m0,
                    map_of_entries(lf.take(i as int)),
                    lf[i as int].0,
                    lf[i as int].1,
                );
            }
            i = i + 1;
        }
        proof {
            lemma_model_fields(locals@);
            assert(lf.take(locals@.len() as int) =~= lf);
        }
    }

    /// A copy of this assignment with `name` bound to `value`.
    pub fn add(&self, name: &str, value: TlaValue) -> (r: VarAssignment)
        requires
            self.wf(),
        ensures
            r.wf(),
            r.as_map() == self.as_map().insert(name@, value@),
    {
        let mut new_locals = self.clone();
        new_locals.push(name, value);
        new_locals
    }

    /// Binds all of `other`'s entries in order, overwriting existing
    /// bindings.
    pub fn extend(&mut self, other: VarAssignment)
        requires
            old(self).wf(),
        ensures
            final(self).wf(),
            final(self).as_map() == old(self).as_map().union_prefer_right(other.as_map()),
    {
        self.update(other.0);
    }

    /// The disjoint merge: the union of the two assignments when their
    /// name sets are disjoint, and `DuplicateVariable` naming exactly the
    /// common names otherwise. This is the sole mechanism for combining
    /// contributions from different frames or steps.
    pub fn merge(&self, other: VarAssignment) -> (r: Result<VarAssignment, TlaError>)
        requires
            self.wf(),
            other.wf(),
        ensures
            match r {
                Ok(m) => {
                    &&& self.names().disjoint(other.names())
                    &&& m.wf()
                    &&& m.as_map() == self.as_map().union_prefer_right(other.as_map())
                },
                Err(e) => {
                    &&& !self.names().disjoint(other.names())
                    &&& (e matches TlaError::DuplicateVariable { keys } && names_of(keys@)
                        == self.names().intersect(other.names()))
                },
            },
    {
        proof {
            lemma_text_order_total();
            lemma_sorted_distinct(other.entries(), text_order_fn());
            lemma_map_of_entries(other.entries());
            lemma_model_fields(other.0@);
        }
        let ghost oe = other.entries();
        let mut dups: Vec<String> = Vec::new();
        let mut j: usize = 0;
        while j < other.0.len()
            invariant
                j <= other.0@.len(),
                oe == other.entries(),
                oe.len() == other.0@.len(),
                self.wf(),
                forall|i: int| 0 <= i < oe.len() ==> #[trigger] oe[i] == (other.0@[i].0@,
                    other.0@[i].1@),
                dups_match(dups@, self.names(), oe, j as int),
            decreases other.0@.len() - j,
        {
            let found = lookup_field(&self.0, other.0[j].0.as_str()).is_some();
            let ghost old_dups = dups@;
            if found {
                dups.push(other.0[j].0.clone());
            }
            proof {
                assert forall|k: Seq<char>|
                    #[trigger] names_of(dups@).contains(k) <==> self.names().contains(k)
                        && exists|i: int| 0 <= i < j + 1 && (#[trigger] oe[i]).0 == k by {
                    if found {
                        assert(dups@ == old_dups.push(other.0[j as int].0));
                        if names_of(dups@).contains(k) {
                            let w = choose|w: int|
                                0 <= w < dups@.len() && (#[trigger] dups@[w])@ == k;
                            if w < old_dups.len() {
                                assert(old_dups[w]@ == k);
                                assert(names_of(old_dups).contains(k));
                            } else {
                                assert(oe[j as int].0 == k);
                            }
                        }
                        if self.names().contains(k) && exists|i: int|
                            0 <= i < j + 1 && (#[trigger] oe[i]).0 == k {
                            let i = choose|i: int| 0 <= i < j + 1 && (#[trigger] oe[i]).0 == k;
                            if i < j {
                                assert(names_of(old_dups).contains(k));
                                let w = choose|w: int|
                                    0 <= w < old_dups.len() && (#[trigger] old_dups[w])@ == k;
                                assert(dups@[w]@ == k);
                            } else {
                                assert(dups@[dups@.len() - 1]@ == k);
                            }
                        }
                    } else {
                        assert(!self.names().contains(oe[j as int].0));
                        if self.names().contains(k) && exists|i: int|
                            0 <= i < j + 1 && (#[trigger] oe[i]).0 == k {
                            let i = choose|i: int| 0 <= i < j + 1 && (#[trigger] oe[i]).0 == k;
                            assert(i < j);
                        }
                    }
                }
                assert(dups_match(dups@, self.names(), oe, j + 1));
            }
            j = j + 1;
        }
        proof {
            assert forall|k: Seq<char>|
                names_of(dups@).contains(k) <==> self.names().intersect(other.names()).contains(
                k,
            ) by {
                if self.names().contains(k) && other.names().contains(k) {
                    let i = choose|i: int| 0 <= i < oe.len() && (#[trigger] oe[i]).0 == k;
                }
            }
        }
        if dups.len() > 0 {
            proof {
                let k = dups@[0]@;
                assert(names_of(dups@).contains(k));
                assert(self.names().contains(k) && other.names().contains(k));
                assert(names_of(dups@) =~= self.names().intersect(other.names()));
            }
            return Err(TlaError::DuplicateVariable { keys: dups });
        }
        proof {
            assert forall|k: Seq<char>| !(self.names().contains(k) && other.names().contains(
                k,
            )) by {
                if self.names().contains(k) && other.names().contains(k) {
                    assert(self.names().intersect(other.names()).contains(k));
                    assert(names_of(dups@).contains(k));
                    let w = choose|w: int| 0 <= w < dups@.len() && (#[trigger] dups@[w])@ == k;
                }
            }
        }
        let mut out = self.clone();
        out.extend(other);
        Ok(out)
    }
}

impl Clone for VarAssignment {
    /// Cloning preserves the entries.
    fn clone(&self) -> (r: Self)
        ensures
            r.entries() == self.entries(),
    {
        VarAssignment(clone_field_vec(&self.0))
    }
}

/// For assignments with disjoint name sets, merging is the same mapping
/// in either order: the merged entries agree as sets of entries.
pub proof fn lemma_merge_commutes(a: VarAssignment, b: VarAssignment)
    requires
        a.names().disjoint(b.names()),
    ensures
        a.as_map().union_prefer_right(b.as_map()) == b.as_map().union_prefer_right(a.as_map()),
{
    let ab = a.as_map().union_prefer_right(b.as_map());
    let ba = b.as_map().union_prefer_right(a.as_map());
    assert forall|k: Seq<char>| ab.dom().contains(k) implies ba.dom().contains(k) && ab[k]
        == ba[k] by {
        if a.as_map().dom().contains(k) {
            assert(!b.as_map().dom().contains(k));
        }
    }
    assert forall|k: Seq<char>| ba.dom().contains(k) implies ab.dom().contains(k) by {}
    assert(ab =~= ba);
}

/// Well-formed assignments denoting the same mapping hold the very same
/// entries: the canonical representation is unique. Together with
/// [`lemma_merge_commutes`] and `merge`'s contract, merging assignments
/// with disjoint names yields the same entries in either order.
pub proof fn lemma_assignment_canonical(a: VarAssignment, b: VarAssignment)
    requires
        a.wf(),
        b.wf(),
        a.as_map() == b.as_map(),
    ensures
        a.entries() == b.entries(),
{
    lemma_text_order_total();
    crate::sorted_entries::lemma_canonical_unique(a.entries(), b.entries(), text_order_fn());
}

/// The state of all global variables reported so far, as one assignment.
#[derive(Debug, PartialEq, Eq)]
pub struct GlobalState(pub VarAssignment);

impl GlobalState {
    /// The mapping denoted by the contained assignment.
    pub open spec fn as_map(self) -> Map<Seq<char>, ValueModel> {
        self.0.as_map()
    }

    /// The contained assignment is well formed.
    pub open spec fn wf(self) -> bool {
        self.0.wf()
    }

    /// A global state with no variables.
    pub fn new() -> (r: Self)
        ensures
            r.wf(),
            r.as_map() == Map::<Seq<char>, ValueModel>::empty(),
    {
        GlobalState(VarAssignment::new())
    }

    /// The disjoint merge of two global states; see
    /// [`VarAssignment::merge`].
    pub fn merge(&self, other: GlobalState) -> (r: Result<GlobalState, TlaError>)
        requires
            self.wf(),
            other.wf(),
        ensures
            match r {
                Ok(m) => {
                    &&& self.0.names().disjoint(other.0.names())
                    &&& m.wf()
                    &&& m.as_map() == self.as_map().union_prefer_right(other.as_map())
                },
                Err(e) => {
                    &&& !self.0.names().disjoint(other.0.names())
                    &&& (e matches TlaError::DuplicateVariable { keys } && names_of(keys@)
                        == self.0.names().intersect(other.0.names()))
                },
            },
    {
        match self.0.merge(other.0) {
            Ok(m) => Ok(GlobalState(m)),
            Err(e) => Err(e),
        }
    }

    /// Binds all of `other`'s variables, overwriting existing bindings.
    pub fn extend(&mut self, other: GlobalState)
        requires
            old(self).wf(),
        ensures
            final(self).wf(),
            final(self).as_map() == old(self).as_map().union_prefer_right(other.as_map()),
    {
        self.0.extend(other.0);
    }

    /// Binds one variable, overwriting any previous binding.
    pub fn add(&mut self, name: &str, value: TlaValue)
        requires
            old(self).wf(),
        ensures
            final(self).wf(),
            final(self).as_map() == old(self).as_map().insert(name@, value@),
    {
        self.0.push(name, value);
    }

    /// Looks a variable up by name.
    pub fn get(&self, name: &str) -> (r: Option<&TlaValue>)
        requires
            self.wf(),
        ensures
            match r {
                Some(value) => self.as_map().contains_key(name@) && value@
                    == self.as_map()[name@],
                None => !self.as_map().contains_key(name@),
            },
    {
        lookup_field(&self.0.0, name)
    }
}

impl Clone for GlobalState {
    /// Cloning preserves the entries.
    fn clone(&self) -> (r: Self)
        ensures
            r.0.entries() == self.0.entries(),
    {
        GlobalState(self.0.clone())
    }
}

/// The text of a merged label: the parts joined by an underscore.
pub open spec fn label_merge(a: Seq<char>, b: Seq<char>) -> Seq<char> {
    a + "_"@ + b
}

/// An opaque location tag naming where in the nested call structure a
/// snapshot was taken.
#[derive(Debug, PartialEq, Eq)]
pub struct Label(pub String);

impl View for Label {
    type V = Seq<char>;

    open spec fn view(&self) -> Seq<char> {
        self.0@
    }
}

impl Label {
    /// A label with the given text.
    pub fn new(name: &str) -> (r: Self)
        ensures
            r@ == name@,
    {
        Label(name.to_owned())
    }

    /// Concatenates two labels in call order, outer before inner.
    pub fn merge(&self, other: &Label) -> (r: Label)
        ensures
            r@ == label_merge(self@, other@),
    {
        let mut s = self.0.clone();
        s.append("_");
        s.append(other.0.as_str());
        Label(s)
    }
}

impl Clone for Label {
    /// Cloning preserves the text.
    fn clone(&self) -> (r: Self)
        ensures
            r@ == self@,
    {
        Label(self.0.clone())
    }
}

/// Label merging is associative: composing three nested labels gives the
/// same text regardless of grouping.
pub proof fn lemma_label_merge_assoc(l1: Seq<char>, l2: Seq<char>, l3: Seq<char>)
    ensures
        label_merge(label_merge(l1, l2), l3) == label_merge(l1, label_merge(l2, l3)),
{
    assert(label_merge(label_merge(l1, l2), l3) =~= label_merge(l1, label_merge(l2, l3)));
}

/// The local variables and label of one position within a step.
#[derive(Debug)]
pub struct LocalState {
    pub locals: VarAssignment,
    pub label: Label,
}

impl Clone for LocalState {
    /// Cloning preserves locals and label.
    fn clone(&self) -> (r: Self)
        ensures
            r.locals.entries() == self.locals.entries(),
            r.label@ == self.label@,
    {
        LocalState { locals: self.locals.clone(), label: self.label.clone() }
    }
}

/// The peer a message goes to or came from.
#[derive(Debug, PartialEq, Eq)]
pub struct Destination(pub String);

impl Destination {
    /// A destination with the given name.
    pub fn new(name: &str) -> (r: Self)
        ensures
            r.0@ == name@,
    {
        Destination(name.to_owned())
    }
}

impl Clone for Destination {
    /// Cloning preserves the name.
    fn clone(&self) -> (r: Self)
        ensures
            r.0@ == self.0@,
    {
        Destination(self.0.clone())
    }
}

/// An outgoing message recorded at a send.
#[derive(Debug)]
pub struct RequestBuffer {
    pub to: Destination,
    pub message: TlaValue,
}

/// An incoming message recorded at a receive.
#[derive(Debug)]
pub struct ResponseBuffer {
    pub from: Destination,
    pub message: TlaValue,
}

impl Clone for ResponseBuffer {
    /// Cloning preserves source and message.
    fn clone(&self) -> (r: Self)
        ensures
            r.from.0@ == self.from.0@,
            r.message@ == self.message@,
    {
        ResponseBuffer { from: self.from.clone(), message: self.message.clone() }
    }
}

/// The snapshot a step or message handler starts from.
#[derive(Debug)]
pub struct StartState {
    pub global: GlobalState,
    pub local: LocalState,
    pub responses: Vec<ResponseBuffer>,
}

/// The snapshot a step or message handler ends in.
#[derive(Debug)]
pub struct EndState {
    pub global: GlobalState,
    pub local: LocalState,
    pub requests: Vec<RequestBuffer>,
}

/// A raw (start, end) snapshot pair, produced once per message-boundary
/// or step-boundary event.
#[derive(Debug)]
pub struct StatePair {
    pub start: StartState,
    pub end: EndState,
}

impl StatePair {
    /// All assignments inside the pair are well formed.
    pub open spec fn wf(self) -> bool {
        &&& self.start.global.wf()
        &&& self.start.local.locals.wf()
        &&& self.end.global.wf()
        &&& self.end.local.locals.wf()
    }
}

/// A snapshot pair with local variables resolved to per-process functions
/// and message buffers resolved to named shared variables; the engine's
/// output record.
#[derive(Debug, PartialEq, Eq)]
pub struct ResolvedStatePair {
    pub start: GlobalState,
    pub end: GlobalState,
}

/// The name of the shared buffer variable for messages from `src` to
/// `dst`.
pub open spec fn buffer_name(src: Seq<char>, dst: Seq<char>) -> Seq<char> {
    src + "_to_"@ + dst
}

/// A local variable's resolved value: a one-entry function keyed by the
/// process id.
pub open spec fn resolved_local(pid: Seq<char>, v: ValueModel) -> ValueModel {
    ValueModel::Function(seq![(ValueModel::Literal(pid), v)])
}

/// A whole assignment of locals, resolved variable by variable.
pub open spec fn resolved_locals_map(
    m: Map<Seq<char>, ValueModel>,
    pid: Seq<char>,
) -> Map<Seq<char>, ValueModel> {
    Map::new(|k: Seq<char>| m.contains_key(k), |k: Seq<char>| resolved_local(pid, m[k]))
}

/// The buffer variables denoting outgoing requests: each message becomes
/// a one-element sequence under `"{canister}_to_{destination}"`.
pub open spec fn requests_map(rs: Seq<RequestBuffer>, can: Seq<char>) -> Map<
    Seq<char>,
    ValueModel,
>
    decreases rs.len(),
{
    if rs.len() == 0 {
        Map::empty()
    } else {
        requests_map(rs.drop_last(), can).insert(
            buffer_name(can, rs.last().to.0@),
            ValueModel::Sequence(seq![rs.last().message@]),
        )
    }
}

/// The buffer variables denoting incoming responses: each message becomes
/// a one-element set under `"{source}_to_{canister}"`.
pub open spec fn responses_map(rs: Seq<ResponseBuffer>, can: Seq<char>) -> Map<
    Seq<char>,
    ValueModel,
>
    decreases rs.len(),
{
    if rs.len() == 0 {
        Map::empty()
    } else {
        responses_map(rs.drop_last(), can).insert(
            buffer_name(rs.last().from.0@, can),
            ValueModel::SetOf(seq![rs.last().message@]),
        )
    }
}

/// Resolves one local variable into a one-entry function keyed by the
/// process id.
pub fn resolve_local_variable(name: &str, value: &TlaValue, process_id: &str) -> (r:
    VarAssignment)
    ensures
        r.wf(),
        r.as_map() == Map::<Seq<char>, ValueModel>::empty().insert(
            name@,
            resolved_local(process_id@, value@),
        ),
{
    let mut assignment = VarAssignment::new();
    let pid_value = TlaValue::Literal(process_id.to_owned());
    let one_entry = TlaValue::Function(vec![(pid_value, value.clone())]);
    proof {
        let ps = one_entry->Function_0@;
        assert(crate::tla_value::model_pairs(ps).len() == 1 && crate::tla_value::model_pairs(
            ps,
        )[0] == (ValueModel::Literal(process_id@), value@)) by {
            crate::tla_value::lemma_model_pairs(ps);
        }
        assert(crate::tla_value::model_pairs(ps) =~= seq![
            (ValueModel::Literal(process_id@), value@),
        ]);
        assert(one_entry@ == resolved_local(process_id@, value@));
    }
    assignment.push(name, one_entry);
    assignment
}

/// Resolves every local variable in the assignment.
pub fn resolve_locals(locals: VarAssignment, process_id: &str) -> (r: VarAssignment)
    requires
        locals.wf(),
    ensures
        r.wf(),
        r.as_map() == resolved_locals_map(locals.as_map(), process_id@),
{
    proof {
        lemma_text_order_total();
        lemma_sorted_distinct(locals.entries(), text_order_fn());
        lemma_map_of_entries(locals.entries());
        lemma_model_fields(locals.0@);
    }
    let ghost le = locals.entries();
    let mut resolved = VarAssignment::new();
    proof {
        assert(resolved.as_map() =~= resolved_locals_map(
            map_of_entries(le.take(0)),
            process_id@,
        ));
    }
    let mut i: usize = 0;
    while i < locals.0.len()
        invariant
            i <= locals.0@.len(),
            le == locals.entries(),
            le.len() == locals.0@.len(),
            locals.wf(),
            forall|x: int|
                0 <= x < le.len() ==> #[trigger] le[x] == (locals.0@[x].0@, locals.0@[x].1@),
            resolved.wf(),
            resolved.as_map() == resolved_locals_map(
                map_of_entries(le.take(i as int)),
                process_id@,
            ),
        decreases locals.0@.len() - i,
    {
        let one = resolve_local_variable(locals.0[i].0.as_str(), &locals.0[i].1, process_id);
        resolved.extend(one);
        proof {
            assert(le.take(i + 1).drop_last() =~= le.take(i as int));
            assert(le.take(i + 1).last() == le[i as int]);
            let m = map_of_entries(le.take(i as int));
            let k = le[i as int].0;
            let v = le[i as int].1;
            assert(map_of_entries(one.entries()) =~= Map::<Seq<char>, ValueModel>::empty(
            ).insert(k, resolved_local(process_id@, v)));
            assert(resolved.as_map() =~= resolved_locals_map(m, process_id@).insert(
                k,
                resolved_local(process_id@, v),
            ));
            assert(resolved_locals_map(m, process_id@).insert(
                k,
                resolved_local(process_id@, v),
            ) =~= resolved_locals_map(m.insert(k, v), process_id@));
        }
        i = i + 1;
    }
    proof {
        assert(le.take(locals.0@.len() as int) =~= le);
    }
    resolved
}

/// Resolves outgoing requests into sequence-valued buffer variables.
pub fn resolve_request_buffers(requests: Vec<RequestBuffer>, canister_name: &str) -> (r:
    VarAssignment)
    ensures
        r.wf(),
        r.as_map() == requests_map(requests@, canister_name@),
{
    let mut resolved = VarAssignment::new();
    let mut i: usize = 0;
    while i < requests.len()
        invariant
            i <= requests@.len(),
            resolved.wf(),
            resolved.as_map() == requests_map(requests@.take(i as int), canister_name@),
        decreases requests@.len() - i,
    {
        let mut buffer_global = canister_name.to_owned();
        buffer_global.append("_to_");
        buffer_global.append(requests[i].to.0.as_str());
        let buffer_contents = TlaValue::Sequence(vec![requests[i].message.clone()]);
        proof {
            let xs = buffer_contents->Sequence_0@;
            crate::tla_value::lemma_model_list(xs);
            assert(crate::tla_value::model_list(xs) =~= seq![requests@[i as int].message@]);
            assert(buffer_contents@ == ValueModel::Sequence(seq![requests@[i as int].message@]));
            assert(buffer_global@ == buffer_name(canister_name@, requests@[i as int].to.0@));
        }
        resolved.push(buffer_global.as_str(), buffer_contents);
        proof {
            assert(requests@.take(i + 1).drop_last() =~= requests@.take(i as int));
            assert(requests@.take(i + 1).last() == requests@[i as int]);
        }
        i = i + 1;
    }
    proof {
        assert(requests@.take(requests@.len() as int) =~= requests@);
    }
    resolved
}

/// Resolves incoming responses into set-valued buffer variables.
pub fn resolve_response_buffers(responses: Vec<ResponseBuffer>, canister_name: &str) -> (r:
    VarAssignment)
    ensures
        r.wf(),
        r.as_map() == responses_map(responses@, canister_name@),
{
    let mut resolved = VarAssignment::new();
    let mut i: usize = 0;
    while i < responses.len()
        invariant
            i <= responses@.len(),
            resolved.wf(),
            resolved.as_map() == responses_map(responses@.take(i as int), canister_name@),
        decreases responses@.len() - i,
    {
        let mut buffer_global = responses[i].from.0.clone();
        buffer_global.append("_to_");
        buffer_global.append(canister_name);
        let buffer_contents = TlaValue::SetOf(vec![responses[i].message.clone()]);
        proof {
            let xs = buffer_contents->SetOf_0@;
            crate::tla_value::lemma_model_list(xs);
            assert(crate::tla_value::model_list(xs) =~= seq![responses@[i as int].message@]);
            assert(buffer_contents@ == ValueModel::SetOf(seq![responses@[i as int].message@]));
            assert(buffer_global@ == buffer_name(responses@[i as int].from.0@, canister_name@));
        }
        resolved.push(buffer_global.as_str(), buffer_contents);
        proof {
            assert(responses@.take(i + 1).drop_last() =~= responses@.take(i as int));
            assert(responses@.take(i + 1).last() == responses@[i as int]);
        }
        i = i + 1;
    }
    proof {
        assert(responses@.take(responses@.len() as int) =~= responses@);
    }
    resolved
}

/// The start side of a pair resolves without collisions: logged globals,
/// resolved locals and response buffers bind pairwise distinct names.
pub open spec fn start_resolution_ok(s: StartState, pid: Seq<char>, can: Seq<char>) -> bool {
    let g = s.global.as_map();
    let l = resolved_locals_map(s.local.locals.as_map(), pid);
    let b = responses_map(s.responses@, can);
    g.dom().disjoint(l.dom()) && g.union_prefer_right(l).dom().disjoint(b.dom())
}

/// The map the start side resolves to when it resolves cleanly.
pub open spec fn resolved_start_map(s: StartState, pid: Seq<char>, can: Seq<char>) -> Map<
    Seq<char>,
    ValueModel,
> {
    s.global.as_map().union_prefer_right(
        resolved_locals_map(s.local.locals.as_map(), pid),
    ).union_prefer_right(responses_map(s.responses@, can))
}

/// The end side of a pair resolves without collisions: logged globals,
/// resolved locals and request buffers bind pairwise distinct names.
pub open spec fn end_resolution_ok(e: EndState, pid: Seq<char>, can: Seq<char>) -> bool {
    let g = e.global.as_map();
    let l = resolved_locals_map(e.local.locals.as_map(), pid);
    let b = requests_map(e.requests@, can);
    g.dom().disjoint(l.dom()) && g.union_prefer_right(l).dom().disjoint(b.dom())
}

/// The map the end side resolves to when it resolves cleanly.
pub open spec fn resolved_end_map(e: EndState, pid: Seq<char>, can: Seq<char>) -> Map<
    Seq<char>,
    ValueModel,
> {
    e.global.as_map().union_prefer_right(
        resolved_locals_map(e.local.locals.as_map(), pid),
    ).union_prefer_right(requests_map(e.requests@, can))
}

impl ResolvedStatePair {
    /// Projects a raw snapshot pair into a process-indexed record: locals
    /// become one-entry functions keyed by the process id, outgoing
    /// messages become sequence-valued buffers, incoming messages become
    /// set-valued buffers, and each side is combined by the disjoint
    /// merge. A name collision fails with `DuplicateVariable` and no
    /// record is produced.
    pub fn resolve(unresolved: StatePair, process_id: &str, canister_name: &str) -> (r: Result<
        ResolvedStatePair,
        TlaError,
    >)
        requires
            unresolved.wf(),
        ensures
            match r {
                Ok(p) => {
                    &&& start_resolution_ok(unresolved.start, process_id@, canister_name@)
                    &&& end_resolution_ok(unresolved.end, process_id@, canister_name@)
                    &&& p.start.wf() && p.end.wf()
                    &&& p.start.as_map() == resolved_start_map(
                        unresolved.start,
                        process_id@,
                        canister_name@,
                    )
                    &&& p.end.as_map() == resolved_end_map(
                        unresolved.end,
                        process_id@,
                        canister_name@,
                    )
                },
                Err(e) => {
                    &&& (e matches TlaError::DuplicateVariable { .. })
                    &&& !(start_resolution_ok(unresolved.start, process_id@, canister_name@)
                        && end_resolution_ok(unresolved.end, process_id@, canister_name@))
                },
            },
    {
        let ghost u = unresolved;
        let StatePair { start, end } = unresolved;
        let StartState { global: start_global, local: start_local, responses } = start;
        let EndState { global: end_global, local: end_local, requests } = end;
        let resolved_start_locals = resolve_locals(start_local.locals, process_id);
        let resolved_end_locals = resolve_locals(end_local.locals, process_id);
        let resolved_responses = resolve_response_buffers(responses, canister_name);
        let resolved_requests = resolve_request_buffers(requests, canister_name);
        let start_inner = match start_global.0.merge(resolved_start_locals) {
            Ok(m) => m,
            Err(e) => {
                return Err(e);
            },
        };
        let start_map = match start_inner.merge(resolved_responses) {
            Ok(m) => m,
            Err(e) => {
                return Err(e);
            },
        };
        let end_inner = match end_global.0.merge(resolved_end_locals) {
            Ok(m) => m,
            Err(e) => {
                return Err(e);
            },
        };
        let end_map = match end_inner.merge(resolved_requests) {
            Ok(m) => m,
            Err(e) => {
                return Err(e);
            },
        };
        Ok(ResolvedStatePair { start: GlobalState(start_map), end: GlobalState(end_map) })
    }
}

} // verus!
