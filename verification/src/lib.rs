//! State-tracking and resolution engine for validating an instrumented
//! implementation against a formally specified process model.
//!
//! Instrumented call sites report local/global variable values and
//! inter-process message sends and receipts; this crate turns those
//! reports into well-formed (start-state, end-state) snapshot pairs, one
//! per atomic step of a modeled process, ready for a model checker.
//!
//! The engine is invoked at call, return, send, receive and step-boundary
//! points. A step context tracks nested calls within one step of one
//! process; the stage state machine enforces the run/await-reply
//! alternation; the resolver projects each raw snapshot pair into a
//! process-indexed record.

pub mod errors;
pub mod render;
pub mod sorted_entries;
pub mod text_order;
pub mod tla_state;
pub mod tla_value;
pub mod value_order;

pub use crate::errors::StageAction;
pub use crate::errors::StageKind;
pub use crate::errors::TlaError;
use crate::sorted_entries::map_of_entries;
use crate::tla_state::buffer_name;
use crate::tla_state::label_merge;
use crate::tla_state::names_of;
use crate::tla_state::resolved_locals_map;
use crate::tla_state::resolved_start_map;
use crate::tla_state::start_resolution_ok;
pub use crate::tla_state::Destination;
pub use crate::tla_state::EndState;
pub use crate::tla_state::GlobalState;
pub use crate::tla_state::Label;
pub use crate::tla_state::LocalState;
pub use crate::tla_state::RequestBuffer;
pub use crate::tla_state::ResolvedStatePair;
pub use crate::tla_state::ResponseBuffer;
pub use crate::tla_state::StartState;
pub use crate::tla_state::StatePair;
pub use crate::tla_state::VarAssignment;
pub use crate::tla_value::TlaConstantAssignment;
pub use crate::tla_value::TlaValue;
pub use crate::tla_value::ToTla;
use crate::tla_value::model_fields;
use crate::tla_value::ValueModel;
use vstd::prelude::*;

verus! {

/// Descriptor of one top-level instrumented method: its default locals,
/// its start and end labels, the process it runs as, and the name used
/// for its message buffers.
#[derive(Debug)]
pub struct Update {
    pub default_start_locals: VarAssignment,
    pub default_end_locals: VarAssignment,
    /// Label of the step's start state; only top-level methods carry one.
    pub start_label: Label,
    /// Label of the step's end state.
    pub end_label: Label,
    pub process_id: String,
    /// Used for naming the buffers; the convention is
    /// `"{canister_name}_to_{destination}"` for requests and
    /// `"{destination}_to_{canister_name}"` for responses.
    pub canister_name: String,
}

impl Update {
    /// Both default assignments are well formed.
    pub open spec fn wf(self) -> bool {
        self.default_start_locals.wf() && self.default_end_locals.wf()
    }
}

impl Clone for Update {
    /// Cloning preserves every field's contents.
    fn clone(&self) -> (r: Self)
        ensures
            r.default_start_locals.entries() == self.default_start_locals.entries(),
            r.default_end_locals.entries() == self.default_end_locals.entries(),
            r.start_label@ == self.start_label@,
            r.end_label@ == self.end_label@,
            r.process_id == self.process_id,
            r.canister_name == self.canister_name,
    {
        Update {
            default_start_locals: self.default_start_locals.clone(),
            default_end_locals: self.default_end_locals.clone(),
            start_label: self.start_label.clone(),
            end_label: self.end_label.clone(),
            process_id: self.process_id.clone(),
            canister_name: self.canister_name.clone(),
        }
    }
}

/// One call-stack entry: the label of a top-level frame, or a label-less
/// placeholder for an instrumented inner function, which contributes only
/// locals.
#[derive(Debug)]
pub enum LocationStackElem {
    Label(Label),
    Placeholder,
}

/// The labels present in a stack, outermost first; placeholders
/// contribute nothing.
pub open spec fn labels_of(s: Seq<LocationStackElem>) -> Seq<Seq<char>>
    decreases s.len(),
{
    if s.len() == 0 {
        Seq::empty()
    } else {
        let rest = labels_of(s.drop_last());
        match s.last() {
            LocationStackElem::Label(l) => rest.push(l@),
            LocationStackElem::Placeholder => rest,
        }
    }
}

/// A list of label texts joined in order by the label separator.
pub open spec fn join_labels(parts: Seq<Seq<char>>) -> Seq<char>
    decreases parts.len(),
{
    if parts.len() == 0 {
        Seq::empty()
    } else if parts.len() == 1 {
        parts[0]
    } else {
        label_merge(join_labels(parts.drop_last()), parts.last())
    }
}

/// The single label text a whole stack merges to.
pub open spec fn merged_labels(s: Seq<LocationStackElem>) -> Seq<char> {
    join_labels(labels_of(s))
}

/// The stack of call-stack entries of one step context.
#[derive(Debug)]
pub struct LocationStack(pub Vec<LocationStackElem>);

impl LocationStack {
    /// Merges all labels on the stack in call order, outermost first,
    /// skipping label-less placeholders.
    pub fn merge_labels(&self) -> (r: Label)
        ensures
            r@ == merged_labels(self.0@),
    {
        let ghost s = self.0@;
        let mut label: Option<Label> = None;
        let mut i: usize = 0;
        proof {
            assert(s.take(0) =~= Seq::<LocationStackElem>::empty());
        }
        while i < self.0.len()
            invariant
                i <= s.len(),
                s == self.0@,
                match label {
                    Some(l) => labels_of(s.take(i as int)).len() > 0 && l@ == join_labels(
                        labels_of(s.take(i as int)),
                    ),
                    None => labels_of(s.take(i as int)).len() == 0,
                },
            decreases s.len() - i,
        {
            proof {
                assert(s.take(i + 1).drop_last() =~= s.take(i as int));
                assert(s.take(i + 1).last() == s[i as int]);
            }
            match &self.0[i] {
                LocationStackElem::Label(l) => {
                    proof {
                        let parts = labels_of(s.take(i as int));
                        assert(labels_of(s.take(i + 1)) == parts.push((*l)@));
                        assert(parts.push((*l)@).drop_last() =~= parts);
                    }
                    label = match label {
                        None => Some(l.clone()),
                        Some(acc) => Some(acc.merge(l)),
                    };
                },
                LocationStackElem::Placeholder => {},
            }
            i = i + 1;
        }
        proof {
            assert(s.take(s.len() as int) =~= s);
        }
        match label {
            None => {
                proof {
                    reveal_strlit("");
                    assert(""@ =~= Seq::<char>::empty());
                }
                Label::new("")
            },
            Some(l) => l,
        }
    }
}

/// A call immediately followed by a return leaves the composite state
/// unchanged: the placeholder frame contributes no label text, popping it
/// restores the stack, and the locals are never touched.
pub proof fn lemma_call_return_composite(stack: Seq<LocationStackElem>)
    ensures
        stack.push(LocationStackElem::Placeholder).drop_last() == stack,
        merged_labels(stack.push(LocationStackElem::Placeholder)) == merged_labels(stack),
{
    let t = stack.push(LocationStackElem::Placeholder);
    assert(t.drop_last() =~= stack);
    assert(labels_of(t) == labels_of(stack));
}

/// After an inner frame logs locals disjoint from the outer ones and
/// returns, the composite state holds both contributions — each name
/// keeps the value its contributor gave it — under a label equal to the
/// outer one.
pub proof fn lemma_inner_frame_contribution(
    stack: Seq<LocationStackElem>,
    outer: Map<Seq<char>, ValueModel>,
    inner: Map<Seq<char>, ValueModel>,
)
    requires
        outer.dom().disjoint(inner.dom()),
    ensures
        merged_labels(stack.push(LocationStackElem::Placeholder).drop_last()) == merged_labels(
            stack,
        ),
        outer.union_prefer_right(inner).dom() == outer.dom().union(inner.dom()),
        forall|k: Seq<char>|
            #[trigger] inner.dom().contains(k) ==> outer.union_prefer_right(inner)[k] == inner[k],
        forall|k: Seq<char>|
            #[trigger] outer.dom().contains(k) ==> outer.union_prefer_right(inner)[k] == outer[k],
{
    lemma_call_return_composite(stack);
    assert(outer.union_prefer_right(inner).dom() =~= outer.dom().union(inner.dom()));
    assert forall|k: Seq<char>|
        #[trigger] outer.dom().contains(k) implies outer.union_prefer_right(inner)[k]
        == outer[k] by {
        assert(!inner.dom().contains(k));
    }
}

/// The per-step call and location tracker: the step's descriptor, the
/// global and local contributions logged so far, and the location stack.
#[derive(Debug)]
pub struct Context {
    pub update: Update,
    pub global: GlobalState,
    pub locals: VarAssignment,
    pub location: LocationStack,
}

impl Context {
    /// Every assignment held by the context is well formed.
    pub open spec fn wf(self) -> bool {
        self.update.wf() && self.global.wf() && self.locals.wf()
    }

    /// A fresh context for one step: empty contributions, and the step's
    /// start label as the only stack entry.
    pub fn new(update: Update) -> (r: Self)
        requires
            update.wf(),
        ensures
            r.wf(),
            r.update == update,
            r.global.as_map() == Map::<Seq<char>, ValueModel>::empty(),
            r.locals.as_map() == Map::<Seq<char>, ValueModel>::empty(),
            merged_labels(r.location.0@) == update.start_label@,
    {
        let start = update.start_label.clone();
        let mut elems: Vec<LocationStackElem> = Vec::new();
        elems.push(LocationStackElem::Label(start));
        let location = LocationStack(elems);
        proof {
            let s = location.0@;
            assert(s.drop_last() =~= Seq::<LocationStackElem>::empty());
            assert(labels_of(Seq::<LocationStackElem>::empty()) =~= Seq::<Seq<char>>::empty());
            assert(labels_of(s) =~= seq![update.start_label@]);
        }
        Context { update, global: GlobalState::new(), locals: VarAssignment::new(), location }
    }

    /// Pushes a placeholder frame for an instrumented inner function.
    pub fn call_function(&mut self)
        ensures
            final(self).location.0@ == old(self).location.0@.push(
                LocationStackElem::Placeholder,
            ),
            final(self).update == old(self).update,
            final(self).global == old(self).global,
            final(self).locals == old(self).locals,
    {
        self.location.0.push(LocationStackElem::Placeholder);
    }

    /// Pops the innermost frame; underflow on an empty stack is a
    /// contract violation by the instrumented code.
    pub fn return_from_function(&mut self) -> (r: Result<(), TlaError>)
        ensures
            match r {
                Ok(_) => {
                    &&& old(self).location.0@.len() > 0
                    &&& final(self).location.0@ == old(self).location.0@.drop_last()
                    &&& final(self).update == old(self).update
                    &&& final(self).global == old(self).global
                    &&& final(self).locals == old(self).locals
                },
                Err(e) => {
                    &&& old(self).location.0@.len() == 0
                    &&& e matches TlaError::StackUnderflow
                    &&& *final(self) == *old(self)
                },
            },
    {
        if self.location.0.len() == 0 {
            return Err(TlaError::StackUnderflow);
        }
        let _ = self.location.0.pop();
        proof {
            assert(self.location.0@ =~= old(self).location.0@.drop_last());
        }
        Ok(())
    }

    /// The step's declared end state: its default end locals merged,
    /// disjointly, with everything logged during the step, under the
    /// declared end label. The disjoint-merge rule applies here as
    /// everywhere: a name both declared as a default and logged
    /// explicitly is a `DuplicateVariable` error.
    pub fn end_update(&self) -> (r: Result<LocalState, TlaError>)
        requires
            self.wf(),
        ensures
            match r {
                Ok(ls) => {
                    &&& self.update.default_end_locals.names().disjoint(self.locals.names())
                    &&& ls.locals.wf()
                    &&& ls.locals.as_map() == self.update.default_end_locals.as_map(
                    ).union_prefer_right(self.locals.as_map())
                    &&& ls.label@ == self.update.end_label@
                },
                Err(e) => {
                    &&& !self.update.default_end_locals.names().disjoint(self.locals.names())
                    &&& (e matches TlaError::DuplicateVariable { keys } && names_of(keys@)
                        == self.update.default_end_locals.names().intersect(self.locals.names()))
                },
            },
    {
        match self.update.default_end_locals.merge(self.locals.clone()) {
            Ok(locals) => Ok(LocalState { locals, label: self.update.end_label.clone() }),
            Err(e) => Err(e),
        }
    }

    /// The composite state at the current position: all logged locals,
    /// under the concatenation of all labels on the stack. Callable at
    /// any point without consuming the stack.
    pub fn get_state(&self) -> (r: LocalState)
        requires
            self.wf(),
        ensures
            r.locals.wf(),
            r.locals.entries() == self.locals.entries(),
            r.label@ == merged_labels(self.location.0@),
    {
        let label = self.location.merge_labels();
        LocalState { locals: self.locals.clone(), label }
    }

    /// Merges reported locals into the step's logged locals; a name
    /// reported twice is a `DuplicateVariable` error.
    pub fn log_locals(&mut self, locals: VarAssignment) -> (r: Result<(), TlaError>)
        requires
            old(self).wf(),
            locals.wf(),
        ensures
            match r {
                Ok(_) => {
                    &&& old(self).locals.names().disjoint(locals.names())
                    &&& final(self).wf()
                    &&& final(self).locals.as_map() == old(self).locals.as_map(
                    ).union_prefer_right(locals.as_map())
                    &&& final(self).update == old(self).update
                    &&& final(self).global == old(self).global
                    &&& final(self).location == old(self).location
                },
                Err(e) => {
                    &&& !old(self).locals.names().disjoint(locals.names())
                    &&& (e matches TlaError::DuplicateVariable { keys } && names_of(keys@)
                        == old(self).locals.names().intersect(locals.names()))
                    &&& *final(self) == *old(self)
                },
            },
    {
        match self.locals.merge(locals) {
            Ok(m) => {
                self.locals = m;
                Ok(())
            },
            Err(e) => Err(e),
        }
    }
}

/// The stage of one step: `Running` holds the snapshot the next record
/// will start from and accepts edits; `AwaitingReply` means the snapshot
/// was consumed by a send and nothing may change until a reply arrives.
#[derive(Debug)]
pub enum Stage {
    Running(StartState),
    AwaitingReply,
}

impl Stage {
    /// The snapshot held in the running stage, if any, is well formed.
    pub open spec fn wf(self) -> bool {
        match self {
            Stage::Running(ss) => ss.global.wf() && ss.local.locals.wf(),
            Stage::AwaitingReply => true,
        }
    }
}

/// The full per-step engine state: the call tracker and the stage
/// machine, created at step entry and destroyed at step exit.
#[derive(Debug)]
pub struct InstrumentationState {
    pub context: Context,
    pub stage: Stage,
}

/// What a freshly begun step looks like: empty contributions, the stack
/// holding the start label, and a running snapshot made of the initial
/// globals, the default start locals and the start label.
pub open spec fn fresh_state_spec(
    update: Update,
    global: GlobalState,
    r: InstrumentationState,
) -> bool {
    &&& r.context.update == update
    &&& r.context.global.as_map() == Map::<Seq<char>, ValueModel>::empty()
    &&& r.context.locals.as_map() == Map::<Seq<char>, ValueModel>::empty()
    &&& merged_labels(r.context.location.0@) == update.start_label@
    &&& (r.stage matches Stage::Running(ss) && {
        &&& ss.global == global
        &&& ss.local.locals.entries() == update.default_start_locals.entries()
        &&& ss.local.label@ == update.start_label@
        &&& ss.responses@.len() == 0
    })
}

impl InstrumentationState {
    /// Every assignment held anywhere in the state is well formed.
    pub open spec fn wf(self) -> bool {
        self.context.wf() && self.stage.wf()
    }

    /// Begins a step: a fresh context plus a running snapshot of the
    /// initial globals under the step's start label and default locals.
    pub fn new(update: Update, global: GlobalState) -> (r: Self)
        requires
            update.wf(),
            global.wf(),
        ensures
            r.wf(),
            fresh_state_spec(update, global, r),
    {
        let locals = update.default_start_locals.clone();
        let label = update.start_label.clone();
        InstrumentationState {
            context: Context::new(update),
            stage: Stage::Running(
                StartState { global, local: LocalState { locals, label }, responses: Vec::new() },
            ),
        }
    }
}

/// The buffer contribution of a single outgoing message.
pub open spec fn request_buffer_map(can: Seq<char>, to: Seq<char>, message: ValueModel) -> Map<
    Seq<char>,
    ValueModel,
> {
    Map::<Seq<char>, ValueModel>::empty().insert(
        buffer_name(can, to),
        ValueModel::Sequence(seq![message]),
    )
}

/// What a successful send ensures: the stored running snapshot becomes
/// the record's start state; the current globals, the composite locals
/// and the one outgoing message form its end state; the machine is left
/// awaiting the reply with the context untouched.
pub open spec fn send_ok_spec(
    s0: InstrumentationState,
    s1: InstrumentationState,
    to: Destination,
    message: TlaValue,
    global: GlobalState,
    p: ResolvedStatePair,
) -> bool {
    let pid = s0.context.update.process_id@;
    let can = s0.context.update.canister_name@;
    let g = global.as_map();
    let l = resolved_locals_map(s0.context.locals.as_map(), pid);
    let b = request_buffer_map(can, to.0@, message@);
    &&& (s0.stage matches Stage::Running(ss) && {
        &&& start_resolution_ok(ss, pid, can)
        &&& p.start.as_map() == resolved_start_map(ss, pid, can)
    })
    &&& g.dom().disjoint(l.dom())
    &&& g.union_prefer_right(l).dom().disjoint(b.dom())
    &&& p.end.as_map() == g.union_prefer_right(l).union_prefer_right(b)
    &&& p.start.wf() && p.end.wf()
    &&& s1.context == s0.context
    &&& s1.stage matches Stage::AwaitingReply
}

/// What a failed send ensures: a send while awaiting a reply is a stage
/// violation and changes nothing; a name collision during resolution is
/// a `DuplicateVariable`, and the consumed snapshot leaves the machine
/// awaiting — the step must be abandoned.
pub open spec fn send_err_spec(
    s0: InstrumentationState,
    s1: InstrumentationState,
    to: Destination,
    message: TlaValue,
    global: GlobalState,
    e: TlaError,
) -> bool {
    match s0.stage {
        Stage::AwaitingReply => {
            &&& (e matches TlaError::StageViolation { attempted, actual } && attempted
                == StageAction::Send && actual == StageKind::AwaitingReply)
            &&& s1 == s0
        },
        Stage::Running(ss) => {
            let pid = s0.context.update.process_id@;
            let can = s0.context.update.canister_name@;
            let g = global.as_map();
            let l = resolved_locals_map(s0.context.locals.as_map(), pid);
            let b = request_buffer_map(can, to.0@, message@);
            &&& (e matches TlaError::DuplicateVariable { .. })
            &&& !(start_resolution_ok(ss, pid, can) && g.dom().disjoint(l.dom())
                && g.union_prefer_right(l).dom().disjoint(b.dom()))
            &&& s1.context == s0.context
            &&& s1.stage matches Stage::AwaitingReply
        },
    }
}

/// What a successful receive ensures: the current composite state plus
/// the one incoming message become a fresh running snapshot, and the
/// context's logged contributions are reset for the next handler.
pub open spec fn receive_ok_spec(
    s0: InstrumentationState,
    s1: InstrumentationState,
    from: Destination,
    message: TlaValue,
    global: GlobalState,
) -> bool {
    &&& s0.stage matches Stage::AwaitingReply
    &&& s1.context.update == s0.context.update
    &&& s1.context.location == s0.context.location
    &&& s1.context.global.as_map() == Map::<Seq<char>, ValueModel>::empty()
    &&& s1.context.locals.as_map() == Map::<Seq<char>, ValueModel>::empty()
    &&& (s1.stage matches Stage::Running(ss) && {
        &&& ss.global == global
        &&& ss.local.locals.entries() == s0.context.locals.entries()
        &&& ss.local.label@ == merged_labels(s0.context.location.0@)
        &&& ss.responses@.len() == 1
        &&& ss.responses@[0].from.0@ == from.0@
        &&& ss.responses@[0].message == message
    })
}

/// What a failed receive ensures: a receive without a pending send is a
/// stage violation and changes nothing.
pub open spec fn receive_err_spec(
    s0: InstrumentationState,
    s1: InstrumentationState,
    e: TlaError,
) -> bool {
    &&& s0.stage matches Stage::Running(_)
    &&& (e matches TlaError::StageViolation { attempted, actual } && attempted
        == StageAction::Receive && actual == StageKind::Running)
    &&& s1 == s0
}

/// What a successful step end ensures: the stored running snapshot
/// becomes the final record's start state; the end state holds the
/// current globals and the default end locals merged with everything
/// logged; the machine is left consumed, with the context untouched.
pub open spec fn end_step_pair_spec(
    s0: InstrumentationState,
    global: GlobalState,
    p: ResolvedStatePair,
) -> bool {
    let pid = s0.context.update.process_id@;
    let can = s0.context.update.canister_name@;
    let lmap = s0.context.update.default_end_locals.as_map().union_prefer_right(
        s0.context.locals.as_map(),
    );
    let g = global.as_map();
    let l = resolved_locals_map(lmap, pid);
    &&& (s0.stage matches Stage::Running(ss) && {
        &&& start_resolution_ok(ss, pid, can)
        &&& p.start.as_map() == resolved_start_map(ss, pid, can)
    })
    &&& s0.context.update.default_end_locals.names().disjoint(s0.context.locals.names())
    &&& g.dom().disjoint(l.dom())
    &&& p.end.as_map() == g.union_prefer_right(l)
    &&& p.start.wf() && p.end.wf()
}

/// `end_step_pair_spec`, plus how the machine itself is left.
pub open spec fn end_step_ok_spec(
    s0: InstrumentationState,
    s1: InstrumentationState,
    global: GlobalState,
    p: ResolvedStatePair,
) -> bool {
    &&& end_step_pair_spec(s0, global, p)
    &&& s1.context == s0.context
    &&& s1.stage matches Stage::AwaitingReply
}

/// What a failed step end ensures: ending while awaiting a reply is a
/// stage violation and changes nothing; a default end local colliding
/// with a logged one is a `DuplicateVariable` and changes nothing; a
/// collision during resolution is a `DuplicateVariable` with the
/// snapshot consumed.
pub open spec fn end_step_err_cause(
    s0: InstrumentationState,
    global: GlobalState,
    e: TlaError,
) -> bool {
    match s0.stage {
        Stage::AwaitingReply => (e matches TlaError::StageViolation { attempted, actual }
            && attempted == StageAction::EndStep && actual == StageKind::AwaitingReply),
        Stage::Running(ss) => {
            let pid = s0.context.update.process_id@;
            let can = s0.context.update.canister_name@;
            let d = s0.context.update.default_end_locals;
            let lo = s0.context.locals;
            let lmap = d.as_map().union_prefer_right(lo.as_map());
            let g = global.as_map();
            let l = resolved_locals_map(lmap, pid);
            if !d.names().disjoint(lo.names()) {
                (e matches TlaError::DuplicateVariable { keys } && names_of(keys@)
                    == d.names().intersect(lo.names()))
            } else {
                &&& (e matches TlaError::DuplicateVariable { .. })
                &&& !(start_resolution_ok(ss, pid, can) && g.dom().disjoint(l.dom()))
            }
        },
    }
}

/// `end_step_err_cause`, plus how the machine itself is left: a stage
/// violation or a default-local collision changes nothing; a collision
/// during resolution leaves the consumed snapshot behind.
pub open spec fn end_step_err_spec(
    s0: InstrumentationState,
    s1: InstrumentationState,
    global: GlobalState,
    e: TlaError,
) -> bool {
    &&& end_step_err_cause(s0, global, e)
    &&& match s0.stage {
        Stage::AwaitingReply => s1 == s0,
        Stage::Running(_) => {
            if !s0.context.update.default_end_locals.names().disjoint(
                s0.context.locals.names(),
            ) {
                s1 == s0
            } else {
                s1.context == s0.context && s1.stage matches Stage::AwaitingReply
            }
        },
    }
}

/// What a successful locals report ensures: the pairs, bound in order
/// with later pairs winning, joined the step's logged locals and were
/// disjoint from them; nothing else moved.
pub open spec fn locals_ok_spec(
    s0: InstrumentationState,
    s1: InstrumentationState,
    locals: Seq<(String, TlaValue)>,
) -> bool {
    &&& s0.context.locals.names().disjoint(map_of_entries(model_fields(locals)).dom())
    &&& s1.context.locals.as_map() == s0.context.locals.as_map().union_prefer_right(
        map_of_entries(model_fields(locals)),
    )
    &&& s1.context.update == s0.context.update
    &&& s1.context.global == s0.context.global
    &&& s1.context.location == s0.context.location
    &&& s1.stage == s0.stage
}

/// What a failed locals report ensures: some reported name was already
/// logged, and the error names exactly the collisions.
pub open spec fn locals_err_spec(
    s0: InstrumentationState,
    locals: Seq<(String, TlaValue)>,
    e: TlaError,
) -> bool {
    &&& !s0.context.locals.names().disjoint(map_of_entries(model_fields(locals)).dom())
    &&& (e matches TlaError::DuplicateVariable { keys } && names_of(keys@)
        == s0.context.locals.names().intersect(map_of_entries(model_fields(locals)).dom()))
}

/// What a globals report ensures: the reported variables joined the
/// step's global contribution, overwriting earlier reports of the same
/// names; nothing else moved.
pub open spec fn globals_spec(
    s0: InstrumentationState,
    s1: InstrumentationState,
    global: GlobalState,
) -> bool {
    &&& s1.context.global.as_map() == s0.context.global.as_map().union_prefer_right(
        global.as_map(),
    )
    &&& s1.context.update == s0.context.update
    &&& s1.context.locals == s0.context.locals
    &&& s1.context.location == s0.context.location
    &&& s1.stage == s0.stage
}

/// Reports locals for the current position; the pairs are bound in
/// order, later pairs winning, then merged disjointly into the step's
/// logged locals.
pub fn log_locals(state: &mut InstrumentationState, locals: Vec<(String, TlaValue)>) -> (r:
    Result<(), TlaError>)
    requires
        old(state).wf(),
    ensures
        final(state).wf(),
        match r {
            Ok(_) => locals_ok_spec(*old(state), *final(state), locals@),
            Err(e) => locals_err_spec(*old(state), locals@, e) && *final(state) == *old(state),
        },
{
    let mut assignment = VarAssignment::new();
    assignment.update(locals);
    proof {
        assert(assignment.as_map() =~= map_of_entries(model_fields(locals@)));
    }
    state.context.log_locals(assignment)
}

/// Reports globals for the current position, overwriting earlier reports
/// of the same names: different parts of a handler may each see only
/// part of the global state.
pub fn log_globals(state: &mut InstrumentationState, global: GlobalState)
    requires
        old(state).wf(),
    ensures
        final(state).wf(),
        globals_spec(*old(state), *final(state), global),
{
    state.context.global.extend(global);
}

/// Records the sending of a request, producing the resolved record for
/// the step fragment that ends at this suspension point.
pub fn log_tla_request(
    state: &mut InstrumentationState,
    to: Destination,
    message: TlaValue,
    global: GlobalState,
) -> (r: Result<ResolvedStatePair, TlaError>)
    requires
        old(state).wf(),
        global.wf(),
    ensures
        final(state).wf(),
        match r {
            Ok(p) => send_ok_spec(*old(state), *final(state), to, message, global, p),
            Err(e) => send_err_spec(*old(state), *final(state), to, message, global, e),
        },
{
    match &state.stage {
        Stage::AwaitingReply => {
            return Err(
                TlaError::StageViolation {
                    attempted: StageAction::Send,
                    actual: StageKind::AwaitingReply,
                },
            );
        },
        Stage::Running(_) => {},
    }
    let ghost to_name = to.0@;
    let ghost msg_model = message@;
    let mut taken = Stage::AwaitingReply;
    core::mem::swap(&mut state.stage, &mut taken);
    let start_state = match taken {
        Stage::Running(ss) => ss,
        Stage::AwaitingReply => vstd::pervasive::unreached(),
    };
    let local = state.context.get_state();
    let requests = vec![RequestBuffer { to, message }];
    let unresolved = StatePair { start: start_state, end: EndState { global, local, requests } };
    proof {
        let can = state.context.update.canister_name@;
        let rs = unresolved.end.requests@;
        assert(rs.len() == 1);
        assert(rs.drop_last() =~= Seq::<RequestBuffer>::empty());
        assert(crate::tla_state::requests_map(Seq::<RequestBuffer>::empty(), can) =~= Map::<
            Seq<char>,
            ValueModel,
        >::empty());
        assert(rs.last().to.0@ == to_name && rs.last().message@ == msg_model);
        assert(crate::tla_state::requests_map(rs, can) =~= request_buffer_map(
            can,
            to_name,
            msg_model,
        ));
    }
    ResolvedStatePair::resolve(
        unresolved,
        state.context.update.process_id.as_str(),
        state.context.update.canister_name.as_str(),
    )
}

/// Records the receipt of a response, which starts a new message
/// handler: the composite state plus the incoming message become the
/// fresh running snapshot, and the context's contributions are reset.
pub fn log_tla_response(
    state: &mut InstrumentationState,
    from: Destination,
    message: TlaValue,
    global: GlobalState,
) -> (r: Result<(), TlaError>)
    requires
        old(state).wf(),
        global.wf(),
    ensures
        final(state).wf(),
        match r {
            Ok(_) => receive_ok_spec(*old(state), *final(state), from, message, global),
            Err(e) => receive_err_spec(*old(state), *final(state), e),
        },
{
    match &state.stage {
        Stage::Running(_) => {
            return Err(
                TlaError::StageViolation {
                    attempted: StageAction::Receive,
                    actual: StageKind::Running,
                },
            );
        },
        Stage::AwaitingReply => {},
    }
    let local = state.context.get_state();
    state.stage = Stage::Running(
        StartState { global, local, responses: vec![ResponseBuffer { from, message }] },
    );
    state.context.global = GlobalState::new();
    state.context.locals = VarAssignment::new();
    Ok(())
}

/// Records entry into an instrumented inner function.
pub fn log_fn_call(state: &mut InstrumentationState)
    requires
        old(state).wf(),
    ensures
        final(state).wf(),
        final(state).context.location.0@ == old(state).context.location.0@.push(
            LocationStackElem::Placeholder,
        ),
        final(state).context.update == old(state).context.update,
        final(state).context.global == old(state).context.global,
        final(state).context.locals == old(state).context.locals,
        final(state).stage == old(state).stage,
{
    state.context.call_function();
}

/// Records the return from an instrumented inner function.
pub fn log_fn_return(state: &mut InstrumentationState) -> (r: Result<(), TlaError>)
    requires
        old(state).wf(),
    ensures
        final(state).wf(),
        match r {
            Ok(_) => {
                &&& old(state).context.location.0@.len() > 0
                &&& final(state).context.location.0@ == old(
                    state,
                ).context.location.0@.drop_last()
                &&& final(state).context.update == old(state).context.update
                &&& final(state).context.global == old(state).context.global
                &&& final(state).context.locals == old(state).context.locals
                &&& final(state).stage == old(state).stage
            },
            Err(e) => {
                &&& old(state).context.location.0@.len() == 0
                &&& e matches TlaError::StackUnderflow
                &&& *final(state) == *old(state)
            },
        },
{
    state.context.return_from_function()
}

/// Begins a step for a top-level method; equivalent to
/// [`InstrumentationState::new`].
pub fn log_method_call(function: Update, global: GlobalState) -> (r: InstrumentationState)
    requires
        function.wf(),
        global.wf(),
    ensures
        r.wf(),
        fresh_state_spec(function, global, r),
{
    InstrumentationState::new(function, global)
}

/// Records the return from the top-level method, ending the step and
/// producing its final resolved record.
pub fn log_method_return(state: &mut InstrumentationState, global: GlobalState) -> (r: Result<
    ResolvedStatePair,
    TlaError,
>)
    requires
        old(state).wf(),
        global.wf(),
    ensures
        final(state).wf(),
        match r {
            Ok(p) => end_step_ok_spec(*old(state), *final(state), global, p),
            Err(e) => end_step_err_spec(*old(state), *final(state), global, e),
        },
{
    match &state.stage {
        Stage::AwaitingReply => {
            return Err(
                TlaError::StageViolation {
                    attempted: StageAction::EndStep,
                    actual: StageKind::AwaitingReply,
                },
            );
        },
        Stage::Running(_) => {},
    }
    let local = match state.context.end_update() {
        Ok(l) => l,
        Err(e) => {
            return Err(e);
        },
    };
    let mut taken = Stage::AwaitingReply;
    core::mem::swap(&mut state.stage, &mut taken);
    let start_state = match taken {
        Stage::Running(ss) => ss,
        Stage::AwaitingReply => vstd::pervasive::unreached(),
    };
    let unresolved = StatePair {
        start: start_state,
        end: EndState { global, local, requests: Vec::new() },
    };
    proof {
        let can = state.context.update.canister_name@;
        let pid = state.context.update.process_id@;
        assert(crate::tla_state::requests_map(unresolved.end.requests@, can) =~= Map::<
            Seq<char>,
            ValueModel,
        >::empty());
        let g = global.as_map();
        let l = resolved_locals_map(unresolved.end.local.locals.as_map(), pid);
        assert(g.union_prefer_right(l).union_prefer_right(
            Map::<Seq<char>, ValueModel>::empty(),
        ) =~= g.union_prefer_right(l));
    }
    ResolvedStatePair::resolve(
        unresolved,
        state.context.update.process_id.as_str(),
        state.context.update.canister_name.as_str(),
    )
}

/// A handle owning at most one live step context, as handed to
/// instrumentation call sites. Exactly one step may be live per logical
/// process; any operation before `begin_step` or after `end_step` fails
/// with `UninitializedContext`.
pub struct ContextHandle {
    state: Option<InstrumentationState>,
}

impl ContextHandle {
    /// The engine state held, if a step is live.
    pub closed spec fn inner(self) -> Option<InstrumentationState> {
        self.state
    }

    /// Any held state is well formed.
    pub open spec fn wf(self) -> bool {
        match self.inner() {
            Some(s) => s.wf(),
            None => true,
        }
    }

    /// A handle with no live step.
    pub fn idle() -> (h: Self)
        ensures
            h.inner() is None,
    {
        ContextHandle { state: None }
    }

    /// Begins a step for the given method descriptor, with the globals
    /// as they stand at step entry.
    pub fn begin_step(update: Update, initial_globals: GlobalState) -> (h: Self)
        requires
            update.wf(),
            initial_globals.wf(),
        ensures
            h.wf(),
            (h.inner() matches Some(s) && fresh_state_spec(update, initial_globals, s)),
    {
        ContextHandle { state: Some(InstrumentationState::new(update, initial_globals)) }
    }

    /// Records entry into an instrumented inner function.
    pub fn enter_call(&mut self) -> (r: Result<(), TlaError>)
        requires
            old(self).wf(),
        ensures
            final(self).wf(),
            match r {
                Ok(_) => (old(self).inner() matches Some(s0) && (final(self).inner()
                    matches Some(s1) && {
                    &&& s1.context.location.0@ == s0.context.location.0@.push(
                        LocationStackElem::Placeholder,
                    )
                    &&& s1.context.update == s0.context.update
                    &&& s1.context.global == s0.context.global
                    &&& s1.context.locals == s0.context.locals
                    &&& s1.stage == s0.stage
                })),
                Err(e) => {
                    &&& old(self).inner() is None
                    &&& e matches TlaError::UninitializedContext
                    &&& *final(self) == *old(self)
                },
            },
    {
        match &mut self.state {
            None => Err(TlaError::UninitializedContext),
            Some(s) => {
                log_fn_call(s);
                Ok(())
            },
        }
    }

    /// Records the return from an instrumented inner function.
    pub fn exit_call(&mut self) -> (r: Result<(), TlaError>)
        requires
            old(self).wf(),
        ensures
            final(self).wf(),
            match r {
                Ok(_) => (old(self).inner() matches Some(s0) && (final(self).inner()
                    matches Some(s1) && {
                    &&& s0.context.location.0@.len() > 0
                    &&& s1.context.location.0@ == s0.context.location.0@.drop_last()
                    &&& s1.context.update == s0.context.update
                    &&& s1.context.global == s0.context.global
                    &&& s1.context.locals == s0.context.locals
                    &&& s1.stage == s0.stage
                })),
                Err(e) => {
                    &&& *final(self) == *old(self)
                    &&& match old(self).inner() {
                        None => e matches TlaError::UninitializedContext,
                        Some(s0) => s0.context.location.0@.len() == 0 && (e
                            matches TlaError::StackUnderflow),
                    }
                },
            },
    {
        match &mut self.state {
            None => Err(TlaError::UninitializedContext),
            Some(s) => log_fn_return(s),
        }
    }

    /// Reports locals for the current position.
    pub fn log_locals(&mut self, locals: Vec<(String, TlaValue)>) -> (r: Result<(), TlaError>)
        requires
            old(self).wf(),
        ensures
            final(self).wf(),
            match r {
                Ok(_) => (old(self).inner() matches Some(s0) && (final(self).inner()
                    matches Some(s1) && locals_ok_spec(s0, s1, locals@))),
                Err(e) => {
                    &&& *final(self) == *old(self)
                    &&& match old(self).inner() {
                        None => e matches TlaError::UninitializedContext,
                        Some(s0) => locals_err_spec(s0, locals@, e),
                    }
                },
            },
    {
        match &mut self.state {
            None => Err(TlaError::UninitializedContext),
            Some(s) => log_locals(s, locals),
        }
    }

    /// Reports globals for the current position.
    pub fn log_globals(&mut self, global: GlobalState) -> (r: Result<(), TlaError>)
        requires
            old(self).wf(),
        ensures
            final(self).wf(),
            match r {
                Ok(_) => (old(self).inner() matches Some(s0) && (final(self).inner()
                    matches Some(s1) && globals_spec(s0, s1, global))),
                Err(e) => {
                    &&& old(self).inner() is None
                    &&& e matches TlaError::UninitializedContext
                    &&& *final(self) == *old(self)
                },
            },
    {
        match &mut self.state {
            None => Err(TlaError::UninitializedContext),
            Some(s) => {
                log_globals(s, global);
                Ok(())
            },
        }
    }

    /// Records the sending of a request; the step suspends awaiting the
    /// reply and the record for the fragment so far is produced.
    pub fn send_message(
        &mut self,
        to: Destination,
        payload: TlaValue,
        current_globals: GlobalState,
    ) -> (r: Result<ResolvedStatePair, TlaError>)
        requires
            old(self).wf(),
            current_globals.wf(),
        ensures
            final(self).wf(),
            match r {
                Ok(p) => (old(self).inner() matches Some(s0) && (final(self).inner()
                    matches Some(s1) && send_ok_spec(s0, s1, to, payload, current_globals, p))),
                Err(e) => match old(self).inner() {
                    None => e matches TlaError::UninitializedContext && *final(self) == *old(
                        self,
                    ),
                    Some(s0) => (final(self).inner() matches Some(s1) && send_err_spec(
                        s0,
                        s1,
                        to,
                        payload,
                        current_globals,
                        e,
                    )),
                },
            },
    {
        match &mut self.state {
            None => Err(TlaError::UninitializedContext),
            Some(s) => log_tla_request(s, to, payload, current_globals),
        }
    }

    /// Records the receipt of a reply; the step resumes running.
    pub fn receive_message(
        &mut self,
        from: Destination,
        payload: TlaValue,
        current_globals: GlobalState,
    ) -> (r: Result<(), TlaError>)
        requires
            old(self).wf(),
            current_globals.wf(),
        ensures
            final(self).wf(),
            match r {
                Ok(_) => (old(self).inner() matches Some(s0) && (final(self).inner()
                    matches Some(s1) && receive_ok_spec(s0, s1, from, payload, current_globals))),
                Err(e) => {
                    &&& *final(self) == *old(self)
                    &&& match old(self).inner() {
                        None => e matches TlaError::UninitializedContext,
                        Some(s0) => (final(self).inner() matches Some(s1) && receive_err_spec(
                            s0,
                            s1,
                            e,
                        )),
                    }
                },
            },
    {
        match &mut self.state {
            None => Err(TlaError::UninitializedContext),
            Some(s) => log_tla_response(s, from, payload, current_globals),
        }
    }

    /// Ends the step and produces its final record. The context is
    /// consumed whether or not the step ends cleanly: a failed end
    /// aborts the step.
    pub fn end_step(&mut self, final_globals: GlobalState) -> (r: Result<
        ResolvedStatePair,
        TlaError,
    >)
        requires
            old(self).wf(),
            final_globals.wf(),
        ensures
            final(self).inner() is None,
            match r {
                Ok(p) => (old(self).inner() matches Some(s0) && end_step_pair_spec(
                    s0,
                    final_globals,
                    p,
                )),
                Err(e) => match old(self).inner() {
                    None => e matches TlaError::UninitializedContext,
                    Some(s0) => end_step_err_cause(s0, final_globals, e),
                },
            },
    {
        let mut taken: Option<InstrumentationState> = None;
        core::mem::swap(&mut self.state, &mut taken);
        match taken {
            None => Err(TlaError::UninitializedContext),
            Some(mut s) => log_method_return(&mut s, final_globals),
        }
    }
}

} // verus!
