//! The engine's decisions around the state machine: which Mozc operations a
//! keystroke's actions issue, and how the answers (or their absence) become
//! the result for the input method framework. Running the operations on the
//! worker is left to the caller, who hands the outcome back.
use vstd::prelude::*;
use crate::client::{MozcError, MozcErrorV, MozcOutput, MozcOutputV};
use crate::config::{Layout, OnFocusChange, PreeditFallback, SensitiveFieldBehavior};
use crate::machine::{ActionV, SmState, notify_conversion, layout_ok};
use crate::proto::{Candidate, CandidateV};
use crate::statemachine::{InputEvent, KeyEventKind, OutputAction, StateMachine, MOD_SUPER, time_ok};
use crate::worker::{Op, OpV, BatchResult};
use vstd::slice::slice_to_vec;
use vstd::utf8::encode_utf8;
use vstd::string::StringSliceAdditionalSpecFns;

verus! {

// ── Candidates for the C ABI ─────────────────────────────────────────────────

/// A candidate prepared for the C ABI: NUL-terminated UTF-8 buffers plus
/// Mozc's id. The trailing NUL is not counted in the length handed out.
pub struct FfiCandidate {
    /// Value bytes followed by one NUL.
    pub value: Vec<u8>,
    /// Annotation bytes followed by one NUL, or `None` when absent.
    pub annotation: Option<Vec<u8>>,
    /// Mozc's candidate id, or `None` when it cannot be selected by id.
    pub id: Option<i32>,
}

pub struct FfiCandidateV {
    pub value: Seq<u8>,
    pub annotation: Option<Seq<u8>>,
    pub id: Option<i32>,
}

impl View for FfiCandidate {
    type V = FfiCandidateV;

    open spec fn view(&self) -> FfiCandidateV {
        FfiCandidateV {
            value: self.value@,
            annotation: match self.annotation {
                Some(a) => Some(a@),
                None => None,
            },
            id: self.id,
        }
    }
}

impl DeepView for FfiCandidate {
    type V = FfiCandidateV;

    open spec fn deep_view(&self) -> FfiCandidateV {
        self@
    }
}

/// The UTF-8 bytes of a text followed by a NUL.
pub open spec fn nul_terminated(s: Seq<char>) -> Seq<u8> {
    encode_utf8(s).push(0)
}

pub open spec fn ffi_candidate(c: CandidateV) -> FfiCandidateV {
    FfiCandidateV {
        value: nul_terminated(c.value),
        annotation: match c.annotation {
            Some(a) => Some(nul_terminated(a)),
            None => None,
        },
        id: c.id,
    }
}

fn with_nul(s: &String) -> (r: Vec<u8>)
    ensures
        r@ == nul_terminated(s@),
{
    let mut b = slice_to_vec(s.as_str().as_bytes());
    b.push(0);
    b
}

impl FfiCandidate {
    pub fn from_core(c: Candidate) -> (f: Self)
        ensures
            f@ == ffi_candidate(c@),
    {
        FfiCandidate {
            value: with_nul(&c.value),
            annotation: match &c.annotation {
                Some(a) => Some(with_nul(a)),
                None => None,
            },
            id: c.id,
        }
    }
}

// ── Results ──────────────────────────────────────────────────────────────────

/// What the engine tells the input method framework after an event.
pub struct ProcessResult {
    pub consumed: bool,
    pub preedit: String,
    pub commit: Option<String>,
    pub passthrough_key: Option<String>,
    /// Set when a modifier+key token was not consumed by Mozc: the framework
    /// forwards this key with the modifier mask `forward_mods`.
    pub forward_key: Option<String>,
    pub forward_mods: u8,
}

pub struct ProcessResultV {
    pub consumed: bool,
    pub preedit: Seq<char>,
    pub commit: Option<Seq<char>>,
    pub passthrough_key: Option<Seq<char>>,
    pub forward_key: Option<Seq<char>>,
    pub forward_mods: u8,
}

pub open spec fn opt_chars(o: Option<String>) -> Option<Seq<char>> {
    match o {
        Some(s) => Some(s@),
        None => None,
    }
}

impl View for ProcessResult {
    type V = ProcessResultV;

    open spec fn view(&self) -> ProcessResultV {
        ProcessResultV {
            consumed: self.consumed,
            preedit: self.preedit@,
            commit: opt_chars(self.commit),
            passthrough_key: opt_chars(self.passthrough_key),
            forward_key: opt_chars(self.forward_key),
            forward_mods: self.forward_mods,
        }
    }
}

/// What became of a keystroke's batch of Mozc operations.
pub enum BatchOutcome {
    /// Not run: no operation, or no worker.
    Skipped,
    /// The worker did not answer in time.
    Dead,
    /// The worker's answers, one per operation.
    Results(BatchResult),
}

pub enum OutcomeV {
    Skipped,
    Dead,
    Results(Seq<Result<MozcOutputV, MozcErrorV>>),
}

pub open spec fn answer_view(r: Result<MozcOutput, MozcError>) -> Result<MozcOutputV, MozcErrorV> {
    match r {
        Ok(o) => Ok(o@),
        Err(e) => Err(e@),
    }
}

impl View for BatchOutcome {
    type V = OutcomeV;

    open spec fn view(&self) -> OutcomeV {
        match self {
            BatchOutcome::Skipped => OutcomeV::Skipped,
            BatchOutcome::Dead => OutcomeV::Dead,
            BatchOutcome::Results(rs) => OutcomeV::Results(Seq::new(rs@.len(), |i: int| answer_view(rs@[i]))),
        }
    }
}

// ── Model of the engine ──────────────────────────────────────────────────────

/// Model of the engine: the state machine and the UI state last shown.
pub struct EngineV {
    pub sm: SmState,
    pub preedit: Seq<char>,
    pub candidates: Seq<FfiCandidateV>,
    pub focused_index: Option<u32>,
}

pub open spec fn append_text(c: Option<Seq<char>>, s: Seq<char>) -> Option<Seq<char>> {
    match c {
        Some(x) => Some(x + s),
        None => Some(s),
    }
}

/// The state machine as the engine hands it a key: when no preedit is
/// shown, no kana stand in the preedit.
pub open spec fn known_preedit(e: EngineV) -> SmState {
    if e.preedit.len() == 0 {
        SmState { preedit_kept: false, ..e.sm }
    } else {
        e.sm
    }
}

/// Take a Mozc output: show its preedit and candidates, add its committed
/// text, and tell the state machine whether Mozc is converting and whether
/// its preedit is empty.
pub open spec fn apply_output(e: EngineV, out: MozcOutputV, commit: Option<Seq<char>>) -> (EngineV, Option<Seq<char>>) {
    (
        EngineV {
            sm: if out.is_converting {
                notify_conversion(e.sm)
            } else {
                SmState { converting: false, preedit_kept: e.sm.preedit_kept && out.preedit.len() > 0, ..e.sm }
            },
            preedit: out.preedit,
            candidates: Seq::new(out.candidates.len(), |i: int| ffi_candidate(out.candidates[i])),
            focused_index: out.focused_index,
        },
        match out.result {
            Some(r) => append_text(commit, r),
            None => commit,
        },
    )
}

/// The Mozc operation an action issues, if any. A modified key with Super
/// has no Mozc counterpart.
pub open spec fn action_op(a: ActionV) -> Option<OpV> {
    match a {
        ActionV::SendKana(s) => Some(OpV::SendKana(s)),
        ActionV::Backspace => Some(OpV::Backspace),
        ActionV::MozcSubmit => Some(OpV::Submit),
        ActionV::SendFunctionKey(n) => Some(OpV::SendFunctionKey(n)),
        ActionV::SendModifiedKey { key, mods } => if mods & MOD_SUPER != 0 {
            None
        } else {
            Some(OpV::SendModified { key, mods })
        },
        ActionV::SubmitAndCommit(_) => Some(OpV::Submit),
        ActionV::SubmitThenPassthrough(_) => Some(OpV::Submit),
        ActionV::Passthrough(_) => None,
        ActionV::CommitDirect(_) => None,
    }
}

pub open spec fn action_ops(acts: Seq<ActionV>) -> Seq<OpV>
    decreases acts.len(),
{
    if acts.len() == 0 {
        Seq::empty()
    } else {
        let r = action_ops(acts.drop_last());
        match action_op(acts.last()) {
            Some(op) => r.push(op),
            None => r,
        }
    }
}

/// The key passed to the application when Mozc is absent or did not
/// consume an action.
pub open spec fn fallback_key(a: ActionV) -> Option<Seq<char>> {
    match a {
        ActionV::Backspace => Some("BackSpace"@),
        ActionV::MozcSubmit => Some("Return"@),
        ActionV::SendFunctionKey(n) => Some(n),
        ActionV::SubmitThenPassthrough(k) => Some(k),
        _ => None,
    }
}

/// What an event's actions have decided so far.
pub struct AccV {
    pub commit: Option<Seq<char>>,
    pub passthrough_key: Option<Seq<char>>,
    pub forward_key: Option<Seq<char>>,
    pub forward_mods: u8,
    pub any_consumed: bool,
}

/// State while the actions are worked through: the engine, the Mozc
/// outputs not yet taken, and the decisions so far.
pub struct RunV {
    pub e: EngineV,
    pub queue: Seq<MozcOutputV>,
    pub acc: AccV,
}

/// Take the next Mozc output, if any, into the engine.
pub open spec fn take_output(r: RunV) -> (RunV, Option<MozcOutputV>) {
    if r.queue.len() > 0 {
        let out = r.queue[0];
        let (e, c) = apply_output(r.e, out, r.acc.commit);
        (RunV { e, queue: r.queue.drop_first(), acc: AccV { commit: c, ..r.acc } }, Some(out))
    } else {
        (r, None)
    }
}

/// Work one action. `alive` says whether the worker answered the batch.
pub open spec fn step(r: RunV, alive: bool, a: ActionV) -> RunV {
    match a {
        ActionV::Passthrough(k) => RunV { acc: AccV { passthrough_key: Some(k), ..r.acc }, ..r },
        ActionV::CommitDirect(s) => RunV { acc: AccV { commit: Some(s), any_consumed: true, ..r.acc }, ..r },
        ActionV::SubmitAndCommit(s) => {
            let t = take_output(r).0;
            RunV { acc: AccV { commit: append_text(t.acc.commit, s), any_consumed: true, ..t.acc }, ..t }
        },
        ActionV::SubmitThenPassthrough(k) => {
            let t = take_output(r).0;
            RunV { acc: AccV { passthrough_key: Some(k), ..t.acc }, ..t }
        },
        ActionV::SendModifiedKey { key, mods } => {
            let (t, out) = take_output(r);
            let consumed = match out {
                Some(o) => o.consumed,
                None => false,
            };
            if !consumed {
                RunV { acc: AccV { forward_key: Some(key), forward_mods: mods, any_consumed: true, ..t.acc }, ..t }
            } else {
                RunV { acc: AccV { any_consumed: true, ..t.acc }, ..t }
            }
        },
        _ => {
            let (t, out) = take_output(r);
            match out {
                Some(o) => if o.consumed {
                    RunV { acc: AccV { any_consumed: true, ..t.acc }, ..t }
                } else {
                    match fallback_key(a) {
                        Some(pt) => RunV { acc: AccV { passthrough_key: Some(pt), ..t.acc }, ..t },
                        None => RunV { acc: AccV { any_consumed: true, ..t.acc }, ..t },
                    }
                },
                None => if alive {
                    RunV { acc: AccV { any_consumed: true, ..t.acc }, ..t }
                } else {
                    match a {
                        ActionV::SendKana(s) => RunV {
                            acc: AccV { commit: append_text(t.acc.commit, s), any_consumed: true, ..t.acc },
                            ..t
                        },
                        _ => match fallback_key(a) {
                            Some(pt) => RunV { acc: AccV { passthrough_key: Some(pt), ..t.acc }, ..t },
                            None => t,
                        },
                    }
                },
            }
        },
    }
}

pub open spec fn run(r0: RunV, alive: bool, acts: Seq<ActionV>) -> RunV
    decreases acts.len(),
{
    if acts.len() == 0 {
        r0
    } else {
        step(run(r0, alive, acts.drop_last()), alive, acts.last())
    }
}

/// Whether every answer of a batch is an output.
pub open spec fn all_answered(rs: Seq<Result<MozcOutputV, MozcErrorV>>) -> bool {
    forall|i: int| 0 <= i < rs.len() ==> (#[trigger] rs[i]) is Ok
}

/// The outputs of a batch whose answers are all outputs.
pub open spec fn batch_outputs(rs: Seq<Result<MozcOutputV, MozcErrorV>>) -> Seq<MozcOutputV> {
    Seq::new(
        rs.len(),
        |i: int|
            match rs[i] {
                Ok(o) => o,
                Err(_) => arbitrary(),
            },
    )
}

/// The Mozc outputs the actions take, whether the worker answered, and
/// whether it is kept: an error in any answer drops the worker and all
/// outputs; a dead worker is dropped.
pub open spec fn outcome_outputs(o: OutcomeV) -> (Seq<MozcOutputV>, bool, bool) {
    match o {
        OutcomeV::Skipped => (Seq::empty(), false, true),
        OutcomeV::Dead => (Seq::empty(), false, false),
        OutcomeV::Results(rs) => if all_answered(rs) {
            (batch_outputs(rs), true, true)
        } else {
            (Seq::empty(), false, false)
        },
    }
}

/// The engine, the result and whether the worker is kept, after the actions
/// of an event with the batch outcome `o`.
pub open spec fn dispatch(e: EngineV, acts: Seq<ActionV>, o: OutcomeV, is_key_down: bool) -> (EngineV, ProcessResultV, bool) {
    if acts.len() == 0 {
        (
            e,
            ProcessResultV {
                consumed: is_key_down,
                preedit: e.preedit,
                commit: None,
                passthrough_key: None,
                forward_key: None,
                forward_mods: 0,
            },
            true,
        )
    } else {
        let (queue, alive, keep) = outcome_outputs(o);
        let r = run(
            RunV {
                e,
                queue,
                acc: AccV {
                    commit: None,
                    passthrough_key: None,
                    forward_key: None,
                    forward_mods: 0,
                    any_consumed: false,
                },
            },
            alive,
            acts,
        );
        (
            r.e,
            ProcessResultV {
                consumed: r.acc.any_consumed || r.acc.passthrough_key is None,
                preedit: r.e.preedit,
                commit: r.acc.commit,
                passthrough_key: r.acc.passthrough_key,
                forward_key: r.acc.forward_key,
                forward_mods: r.acc.forward_mods,
            },
            keep,
        )
    }
}

} // verus!

verus! {

// ── The engine ───────────────────────────────────────────────────────────────

fn copy_string_opt(o: &Option<String>) -> (r: Option<String>)
    ensures
        opt_chars(r) == opt_chars(*o),
{
    match o {
        Some(s) => Some(s.clone()),
        None => None,
    }
}

fn copy_candidate(c: &Candidate) -> (r: Candidate)
    ensures
        r@ == c@,
{
    Candidate { index: c.index, value: c.value.clone(), id: c.id, annotation: copy_string_opt(&c.annotation) }
}

/// Whether every answer of a batch is an output.
fn all_ok(rs: &BatchResult) -> (b: bool)
    ensures
        b == all_answered(Seq::new(rs@.len(), |i: int| answer_view(rs@[i]))),
{
    let ghost v = Seq::new(rs@.len(), |i: int| answer_view(rs@[i]));
    let mut i: usize = 0;
    while i < rs.len()
        invariant
            i <= rs.len(),
            v == Seq::new(rs@.len(), |i: int| answer_view(rs@[i])),
            forall|j: int| 0 <= j < i ==> (#[trigger] v[j]) is Ok,
        decreases rs.len() - i,
    {
        if rs[i].is_err() {
            assert(!(v[i as int] is Ok));
            return false;
        }
        i = i + 1;
    }
    true
}

/// The outputs of a batch whose answers are all outputs.
fn outputs_of(rs: &BatchResult) -> (r: Vec<MozcOutput>)
    requires
        all_answered(Seq::new(rs@.len(), |i: int| answer_view(rs@[i]))),
    ensures
        r.deep_view() == batch_outputs(Seq::new(rs@.len(), |i: int| answer_view(rs@[i]))),
{
    let ghost v = Seq::new(rs@.len(), |i: int| answer_view(rs@[i]));
    let mut r: Vec<MozcOutput> = Vec::new();
    let mut i: usize = 0;
    while i < rs.len()
        invariant
            i <= rs.len(),
            v == Seq::new(rs@.len(), |i: int| answer_view(rs@[i])),
            all_answered(v),
            r@.len() == i,
            forall|j: int| 0 <= j < i ==> (#[trigger] r@[j])@ == batch_outputs(v)[j],
        decreases rs.len() - i,
    {
        assert(v[i as int] is Ok);
        match &rs[i] {
            Ok(out) => {
                let c = MozcOutput {
                    preedit: out.preedit.clone(),
                    result: copy_string_opt(&out.result),
                    is_converting: out.is_converting,
                    mode: out.mode,
                    consumed: out.consumed,
                    candidates: copy_candidates(&out.candidates),
                    focused_index: out.focused_index,
                    candidate_size: out.candidate_size,
                };
                r.push(c);
            },
            Err(_) => {},
        }
        i = i + 1;
    }
    assert(r.deep_view() =~= batch_outputs(v));
    r
}

fn copy_candidates(cs: &Vec<Candidate>) -> (r: Vec<Candidate>)
    ensures
        r.deep_view() == cs.deep_view(),
{
    let mut r: Vec<Candidate> = Vec::new();
    let mut i: usize = 0;
    while i < cs.len()
        invariant
            i <= cs.len(),
            r@.len() == i,
            forall|j: int| 0 <= j < i ==> (#[trigger] r@[j])@ == cs@[j]@,
        decreases cs.len() - i,
    {
        r.push(copy_candidate(&cs[i]));
        i = i + 1;
    }
    assert(r.deep_view() =~= cs.deep_view());
    r
}

fn append_string(c: Option<String>, s: &String) -> (r: Option<String>)
    ensures
        opt_chars(r) == append_text(opt_chars(c), s@),
{
    match c {
        Some(x) => Some(x.concat(s.as_str())),
        None => Some(s.clone()),
    }
}

/// The engine's own state: the state machine and the UI state last shown.
pub struct EngineCore {
    sm: StateMachine,
    preedit: String,
    /// The candidate window of the last Mozc output, ready for the C ABI.
    candidates: Vec<FfiCandidate>,
    /// Focused candidate during conversion.
    focused_index: Option<u32>,
}

impl View for EngineCore {
    type V = EngineV;

    closed spec fn view(&self) -> EngineV {
        EngineV {
            sm: self.sm@,
            preedit: self.preedit@,
            candidates: self.candidates.deep_view(),
            focused_index: self.focused_index,
        }
    }
}

impl EngineCore {
    pub closed spec fn wf(&self) -> bool {
        self.sm.wf()
    }

    /// The layout the engine runs on.
    pub closed spec fn layout_view(&self) -> crate::config::LayoutV {
        self.sm.layout_view()
    }

    /// An engine on `layout` with nothing shown.
    pub fn new(layout: Layout) -> (e: Self)
        requires
            layout_ok(layout@),
        ensures
            e.wf(),
            e.layout_view() == layout@,
            e@ == (EngineV {
                sm: crate::machine::initial_state(layout@),
                preedit: Seq::empty(),
                candidates: Seq::empty(),
                focused_index: None,
            }),
    {
        let e = EngineCore {
            sm: StateMachine::new(layout),
            preedit: String::new(),
            candidates: Vec::new(),
            focused_index: None,
        };
        assert(e.candidates.deep_view() =~= Seq::<FfiCandidateV>::empty());
        e
    }

    /// The Mozc operation an action issues, if any.
    pub fn action_op(action: &OutputAction) -> (r: Option<Op>)
        ensures
            match action_op(action@) {
                Some(o) => r matches Some(x) && x@ == o,
                None => r is None,
            },
    {
        match action {
            OutputAction::SendKana(s) => Some(Op::SendKana(s.clone())),
            OutputAction::Backspace => Some(Op::Backspace),
            OutputAction::MozcSubmit => Some(Op::Submit),
            OutputAction::SendFunctionKey(name) => Some(Op::SendFunctionKey(name.clone())),
            OutputAction::SendModifiedKey { key, mods } => {
                if *mods & MOD_SUPER != 0 {
                    None
                } else {
                    Some(Op::SendModified { key: key.clone(), mods: *mods })
                }
            },
            OutputAction::SubmitAndCommit(_) => Some(Op::Submit),
            OutputAction::SubmitThenPassthrough(_) => Some(Op::Submit),
            OutputAction::Passthrough(_) => None,
            OutputAction::CommitDirect(_) => None,
        }
    }

    /// The key passed to the application when Mozc is absent or did not
    /// consume an action.
    pub fn fallback_passthrough(action: &OutputAction) -> (r: Option<String>)
        ensures
            opt_chars(r) == fallback_key(action@),
    {
        match action {
            OutputAction::Backspace => Some(String::from_str("BackSpace")),
            OutputAction::MozcSubmit => Some(String::from_str("Return")),
            OutputAction::SendFunctionKey(name) => Some(name.clone()),
            OutputAction::SubmitThenPassthrough(k) => Some(k.clone()),
            _ => None,
        }
    }

    /// Every Mozc operation that an event's actions issue, in order: they run
    /// as one batch.
    pub fn batch_ops(actions: &Vec<OutputAction>) -> (ops: Vec<Op>)
        ensures
            ops.deep_view() == action_ops(actions.deep_view()),
    {
        let ghost av = actions.deep_view();
        let mut ops: Vec<Op> = Vec::new();
        let mut i: usize = 0;
        assert(av.take(0) =~= Seq::<ActionV>::empty());
        assert(ops.deep_view() =~= Seq::<OpV>::empty());
        while i < actions.len()
            invariant
                i <= actions.len(),
                av == actions.deep_view(),
                ops.deep_view() == action_ops(av.take(i as int)),
            decreases actions.len() - i,
        {
            assert(av.take(i + 1).drop_last() =~= av.take(i as int));
            assert(av.take(i + 1).last() == actions@[i as int]@);
            match EngineCore::action_op(&actions[i]) {
                Some(op) => {
                    let ghost before = ops.deep_view();
                    let ghost ov = op@;
                    ops.push(op);
                    assert(ops.deep_view() =~= before.push(ov));
                },
                None => {},
            }
            i = i + 1;
        }
        assert(av.take(i as int) =~= av);
        ops
    }

    /// Take a Mozc output: show its preedit and candidates, add its committed
    /// text, and tell the state machine whether Mozc is converting and
    /// whether its preedit is empty.
    fn apply_mozc_output(&mut self, out: &MozcOutput, commit: Option<String>) -> (r: Option<String>)
        requires
            old(self).wf(),
        ensures
            final(self).wf(),
            final(self).layout_view() == old(self).layout_view(),
            (final(self)@, opt_chars(r)) == apply_output(old(self)@, out@, opt_chars(commit)),
    {
        self.preedit = out.preedit.clone();
        let mut cands: Vec<FfiCandidate> = Vec::new();
        let mut i: usize = 0;
        while i < out.candidates.len()
            invariant
                i <= out.candidates.len(),
                cands@.len() == i,
                forall|j: int| 0 <= j < i ==> (#[trigger] cands@[j])@ == ffi_candidate(out@.candidates[j]),
            decreases out.candidates.len() - i,
        {
            assert(out@.candidates[i as int] == out.candidates@[i as int]@);
            cands.push(FfiCandidate::from_core(copy_candidate(&out.candidates[i])));
            i = i + 1;
        }
        assert(cands.deep_view() =~= Seq::new(
            out@.candidates.len(),
            |j: int| ffi_candidate(out@.candidates[j]),
        ));
        self.candidates = cands;
        self.focused_index = out.focused_index;
        let commit = match &out.result {
            Some(result) => append_string(commit, result),
            None => commit,
        };
        if out.is_converting {
            self.sm.notify_mozc_conversion();
        } else {
            self.sm.notify_mozc_composition();
            if out.preedit.unicode_len() == 0 {
                self.sm.notify_preedit_empty();
            }
        }
        commit
    }
}

} // verus!

verus! {

impl EngineCore {
    /// Work one action at `i` of `actions` (see `step`), taking the next Mozc
    /// output from `outputs[*front]` when the action uses one.
    fn dispatch_one(
        &mut self,
        action: &OutputAction,
        outputs: &Vec<MozcOutput>,
        front: &mut usize,
        alive: bool,
        acc: (Option<String>, Option<String>, Option<String>, u8, bool),
    ) -> (r: (Option<String>, Option<String>, Option<String>, u8, bool))
        requires
            old(self).wf(),
            *old(front) <= outputs@.len(),
        ensures
            final(self).wf(),
            final(self).layout_view() == old(self).layout_view(),
            *final(front) <= outputs@.len(),
            ({
                let before = RunV {
                    e: old(self)@,
                    queue: outputs.deep_view().skip(*old(front) as int),
                    acc: AccV {
                        commit: opt_chars(acc.0),
                        passthrough_key: opt_chars(acc.1),
                        forward_key: opt_chars(acc.2),
                        forward_mods: acc.3,
                        any_consumed: acc.4,
                    },
                };
                step(before, alive, action@) == RunV {
                    e: final(self)@,
                    queue: outputs.deep_view().skip(*final(front) as int),
                    acc: AccV {
                        commit: opt_chars(r.0),
                        passthrough_key: opt_chars(r.1),
                        forward_key: opt_chars(r.2),
                        forward_mods: r.3,
                        any_consumed: r.4,
                    },
                }
            }),
    {
        let ghost q = outputs.deep_view().skip(*front as int);
        let (commit, passthrough_key, forward_key, forward_mods, any_consumed) = acc;
        match action {
            OutputAction::Passthrough(k) => (commit, Some(k.clone()), forward_key, forward_mods, any_consumed),
            OutputAction::CommitDirect(s) => (Some(s.clone()), passthrough_key, forward_key, forward_mods, true),
            _ => {
                // Every other action takes the next Mozc output, if any.
                let mut commit = commit;
                let out: Option<bool> = if *front < outputs.len() {
                    assert(q[0] == outputs@[*front as int]@);
                    assert(q.drop_first() =~= outputs.deep_view().skip(*front + 1));
                    commit = self.apply_mozc_output(&outputs[*front], commit);
                    let c = outputs[*front].consumed;
                    *front = *front + 1;
                    Some(c)
                } else {
                    None
                };
                match action {
                    OutputAction::SubmitAndCommit(s) => {
                        (append_string(commit, s), passthrough_key, forward_key, forward_mods, true)
                    },
                    OutputAction::SubmitThenPassthrough(k) => {
                        (commit, Some(k.clone()), forward_key, forward_mods, any_consumed)
                    },
                    OutputAction::SendModifiedKey { key, mods } => {
                        let consumed = match out {
                            Some(c) => c,
                            None => false,
                        };
                        if !consumed {
                            (commit, passthrough_key, Some(key.clone()), *mods, true)
                        } else {
                            (commit, passthrough_key, forward_key, forward_mods, true)
                        }
                    },
                    _ => match out {
                        Some(c) => {
                            if c {
                                (commit, passthrough_key, forward_key, forward_mods, true)
                            } else {
                                match EngineCore::fallback_passthrough(action) {
                                    Some(pt) => (commit, Some(pt), forward_key, forward_mods, any_consumed),
                                    None => (commit, passthrough_key, forward_key, forward_mods, true),
                                }
                            }
                        },
                        None => {
                            if alive {
                                (commit, passthrough_key, forward_key, forward_mods, true)
                            } else {
                                match action {
                                    OutputAction::SendKana(s) => {
                                        (append_string(commit, s), passthrough_key, forward_key, forward_mods, true)
                                    },
                                    _ => match EngineCore::fallback_passthrough(action) {
                                        Some(pt) => (commit, Some(pt), forward_key, forward_mods, any_consumed),
                                        None => (commit, passthrough_key, forward_key, forward_mods, any_consumed),
                                    },
                                }
                            }
                        },
                    },
                }
            },
        }
    }

    /// Turn an event's actions into the result for the framework, given
    /// what became of their batch of Mozc operations. Returns the result and
    /// whether the worker is kept.
    pub fn dispatch_actions(&mut self, actions: Vec<OutputAction>, outcome: BatchOutcome, is_key_down: bool) -> (r: (
        ProcessResult,
        bool,
    ))
        requires
            old(self).wf(),
        ensures
            final(self).wf(),
            final(self).layout_view() == old(self).layout_view(),
            (final(self)@, r.0@, r.1) == dispatch(old(self)@, actions.deep_view(), outcome@, is_key_down),
    {
        if actions.len() == 0 {
            return (
                ProcessResult {
                    consumed: is_key_down,
                    preedit: self.preedit.clone(),
                    commit: None,
                    passthrough_key: None,
                    forward_key: None,
                    forward_mods: 0,
                },
                true,
            );
        }
        let ghost ov = outcome@;
        let (outputs, alive, keep): (Vec<MozcOutput>, bool, bool) = match &outcome {
            BatchOutcome::Skipped => (Vec::new(), false, true),
            BatchOutcome::Dead => (Vec::new(), false, false),
            BatchOutcome::Results(results) => {
                if all_ok(results) {
                    (outputs_of(results), true, true)
                } else {
                    (Vec::new(), false, false)
                }
            },
        };
        assert(outputs.deep_view() =~= outcome_outputs(ov).0);
        assert(alive == outcome_outputs(ov).1);
        assert(keep == outcome_outputs(ov).2);
        let ghost av = actions.deep_view();
        let ghost r0 = RunV {
            e: self@,
            queue: outputs.deep_view(),
            acc: AccV {
                commit: None,
                passthrough_key: None,
                forward_key: None,
                forward_mods: 0,
                any_consumed: false,
            },
        };
        let mut front: usize = 0;
        let mut acc: (Option<String>, Option<String>, Option<String>, u8, bool) = (None, None, None, 0, false);
        let mut i: usize = 0;
        assert(av.take(0) =~= Seq::<ActionV>::empty());
        assert(outputs.deep_view().skip(0) =~= outputs.deep_view());
        while i < actions.len()
            invariant
                i <= actions.len(),
                av == actions.deep_view(),
                front <= outputs@.len(),
                self.wf(),
                self.layout_view() == old(self).layout_view(),
                run(r0, alive, av.take(i as int)) == (RunV {
                    e: self@,
                    queue: outputs.deep_view().skip(front as int),
                    acc: AccV {
                        commit: opt_chars(acc.0),
                        passthrough_key: opt_chars(acc.1),
                        forward_key: opt_chars(acc.2),
                        forward_mods: acc.3,
                        any_consumed: acc.4,
                    },
                }),
            decreases actions.len() - i,
        {
            assert(av.take(i + 1).drop_last() =~= av.take(i as int));
            assert(av.take(i + 1).last() == actions@[i as int]@);
            acc = self.dispatch_one(&actions[i], &outputs, &mut front, alive, acc);
            i = i + 1;
        }
        assert(av.take(i as int) =~= av);
        let (commit, passthrough_key, forward_key, forward_mods, any_consumed) = acc;
        let consumed = any_consumed || passthrough_key.is_none();
        (
            ProcessResult {
                consumed,
                preedit: self.preedit.clone(),
                commit,
                passthrough_key,
                forward_key,
                forward_mods,
            },
            keep,
        )
    }
}

} // verus!

verus! {

/// Time between attempts to reconnect to Mozc, in milliseconds.
pub const RECONNECT_BACKOFF_MS: u64 = 5000;

/// Whether to try reconnecting to Mozc at `now`: only while disconnected,
/// and not before the retry time set by the last failed attempt.
pub fn reconnect_due(connected: bool, retry_at: Option<u64>, now: u64) -> (b: bool)
    ensures
        b == (!connected && match retry_at {
            Some(t) => now >= t,
            None => true,
        }),
{
    if connected {
        return false;
    }
    match retry_at {
        Some(t) => now >= t,
        None => true,
    }
}

/// The select result of a `SelectCandidate` batch: the output answered, if
/// the worker answered with one (its last answer).
pub open spec fn selected_output(o: OutcomeV) -> Option<MozcOutputV> {
    match o {
        OutcomeV::Results(rs) => if rs.len() > 0 && rs.last() is Ok {
            Some(rs.last()->Ok_0)
        } else {
            None
        },
        _ => None,
    }
}

impl EngineCore {
    /// The state machine's actions for a key event at `now`. A key-down
    /// carries the Shift state; a key-up never does. With no preedit shown,
    /// the machine first learns that no kana stand in it.
    pub fn key_actions(&mut self, key: &str, is_down: bool, shift: bool, now: u64) -> (r: Vec<OutputAction>)
        requires
            old(self).wf(),
            time_ok(now),
        ensures
            final(self).wf(),
            final(self).layout_view() == old(self).layout_view(),
            ({
                let ev = crate::machine::EventV { key: key@, down: is_down, shift: is_down && shift, is_repeat: false };
                let step = crate::machine::process(old(self).layout_view(), known_preedit(old(self)@), ev, now);
                &&& final(self)@ == (EngineV { sm: step.0, ..old(self)@ })
                &&& r.deep_view() == step.1
            }),
    {
        let event = if is_down {
            InputEvent { key: String::from_str(key), kind: KeyEventKind::Down, shift, is_repeat: false }
        } else {
            InputEvent { key: String::from_str(key), kind: KeyEventKind::Up, shift: false, is_repeat: false }
        };
        if self.preedit.unicode_len() == 0 {
            self.sm.notify_preedit_empty();
        }
        self.sm.process(event, now)
    }

    /// The state machine's actions from its chord timer at `now`.
    pub fn tick_actions(&mut self, now: u64) -> (r: Vec<OutputAction>)
        requires
            old(self).wf(),
        ensures
            final(self).wf(),
            final(self).layout_view() == old(self).layout_view(),
            final(self)@ == (EngineV { sm: crate::machine::tick(old(self).layout_view(), old(self)@.sm, now).0, ..old(self)@ }),
            r.deep_view() == crate::machine::tick(old(self).layout_view(), old(self)@.sm, now).1,
    {
        self.sm.tick(now)
    }

    /// Drop the shown preedit and candidates.
    pub fn clear_ui_cache(&mut self)
        ensures
            final(self).wf() == old(self).wf(),
            final(self).layout_view() == old(self).layout_view(),
            final(self)@ == (EngineV {
                preedit: Seq::empty(),
                candidates: Seq::empty(),
                focused_index: None,
                ..old(self)@
            }),
    {
        self.preedit = String::new();
        self.candidates = Vec::new();
        self.focused_index = None;
        assert(self.candidates.deep_view() =~= Seq::<FfiCandidateV>::empty());
    }

    /// Reset the composition: the state machine is reset (its actions are
    /// not sent: the caller reverts Mozc's preedit) and nothing is shown.
    pub fn reset(&mut self)
        requires
            old(self).wf(),
        ensures
            final(self).wf(),
            final(self).layout_view() == old(self).layout_view(),
            final(self)@ == (EngineV {
                sm: crate::machine::reset(old(self)@.sm).0,
                preedit: Seq::empty(),
                candidates: Seq::empty(),
                focused_index: None,
            }),
    {
        let _ = self.sm.reset();
        self.clear_ui_cache();
    }

    /// Focus was lost: keep the composition, or reset it, as the layout's
    /// `on_focus_change` says. Returns whether it was kept.
    pub fn focus_out_preserved(&mut self) -> (kept: bool)
        requires
            old(self).wf(),
        ensures
            final(self).wf(),
            final(self).layout_view() == old(self).layout_view(),
            kept == (old(self).layout_view().settings.on_focus_change == OnFocusChange::Preserve),
            kept ==> final(self)@ == old(self)@,
            !kept ==> final(self)@ == (EngineV {
                sm: crate::machine::reset(old(self)@.sm).0,
                preedit: Seq::empty(),
                candidates: Seq::empty(),
                focused_index: None,
            }),
    {
        match self.sm.settings().on_focus_change {
            OnFocusChange::Preserve => true,
            OnFocusChange::Reset => {
                self.reset();
                false
            },
        }
    }

    /// The result of committing a candidate, given what became of the
    /// `SelectCandidate` operation: the composition ends either way.
    /// Returns the result and whether the worker is kept.
    pub fn select_candidate_result(&mut self, outcome: BatchOutcome) -> (r: (ProcessResult, bool))
        requires
            old(self).wf(),
        ensures
            final(self).wf(),
            final(self).layout_view() == old(self).layout_view(),
            ({
                let applied = match selected_output(outcome@) {
                    Some(out) => apply_output(old(self)@, out, None),
                    None => (old(self)@, None),
                };
                &&& final(self)@ == (EngineV {
                    sm: crate::machine::reset(applied.0.sm).0,
                    preedit: Seq::empty(),
                    candidates: Seq::empty(),
                    focused_index: None,
                })
                &&& r.0@ == (ProcessResultV {
                    consumed: selected_output(outcome@) is Some,
                    preedit: Seq::empty(),
                    commit: applied.1,
                    passthrough_key: None,
                    forward_key: None,
                    forward_mods: 0,
                })
                &&& r.1 == (outcome@ is Skipped || selected_output(outcome@) is Some)
            }),
    {
        let mut commit: Option<String> = None;
        let mut consumed = false;
        let mut keep = true;
        match &outcome {
            BatchOutcome::Skipped => {},
            BatchOutcome::Dead => {
                keep = false;
            },
            BatchOutcome::Results(results) => {
                let n = results.len();
                if n > 0 && results[n - 1].is_ok() {
                    match &results[n - 1] {
                        Ok(out) => {
                            commit = self.apply_mozc_output(out, None);
                            consumed = true;
                        },
                        Err(_) => {},
                    }
                } else {
                    keep = false;
                }
            },
        }
        self.reset();
        (
            ProcessResult {
                consumed,
                preedit: self.preedit.clone(),
                commit,
                passthrough_key: None,
                forward_key: None,
                forward_mods: 0,
            },
            keep,
        )
    }

    /// Switch to a new layout: the composition is reset first.
    pub fn replace_layout(&mut self, layout: Layout)
        requires
            old(self).wf(),
            layout_ok(layout@),
        ensures
            final(self).wf(),
            final(self).layout_view() == layout@,
            final(self)@ == (EngineV {
                sm: crate::machine::initial_state(layout@),
                preedit: Seq::empty(),
                candidates: Seq::empty(),
                focused_index: None,
            }),
    {
        self.reset();
        self.sm = StateMachine::new(layout);
    }

    /// The `sensitive_field_behavior` setting as a number for the C ABI:
    /// 0 passthrough, 1 buffer.
    pub fn sensitive_field_behavior(&self) -> (n: i32)
        ensures
            n == match self.layout_view().settings.sensitive_field_behavior {
                SensitiveFieldBehavior::Passthrough => 0i32,
                SensitiveFieldBehavior::Buffer => 1i32,
            },
    {
        match self.sm.settings().sensitive_field_behavior {
            SensitiveFieldBehavior::Passthrough => 0,
            SensitiveFieldBehavior::Buffer => 1,
        }
    }

    /// The `preedit_fallback` setting as a number for the C ABI: 0 client,
    /// 1 panel, 2 buffer, 3 auto.
    pub fn preedit_fallback(&self) -> (n: i32)
        ensures
            n == match self.layout_view().settings.preedit_fallback {
                PreeditFallback::Client => 0i32,
                PreeditFallback::Panel => 1i32,
                PreeditFallback::Buffer => 2i32,
                PreeditFallback::Auto => 3i32,
            },
    {
        match self.sm.settings().preedit_fallback {
            PreeditFallback::Client => 0,
            PreeditFallback::Panel => 1,
            PreeditFallback::Buffer => 2,
            PreeditFallback::Auto => 3,
        }
    }

    /// Number of candidates shown.
    pub fn candidate_count(&self) -> (n: usize)
        ensures
            n == self@.candidates.len(),
    {
        self.candidates.len()
    }

    /// The `i`-th candidate shown, if any.
    pub fn candidate(&self, i: usize) -> (r: Option<&FfiCandidate>)
        ensures
            match r {
                Some(c) => i < self@.candidates.len() && c@ == self@.candidates[i as int],
                None => i >= self@.candidates.len(),
            },
    {
        if i < self.candidates.len() {
            Some(&self.candidates[i])
        } else {
            None
        }
    }

    /// The focused candidate during conversion.
    pub fn focused_index(&self) -> (r: Option<u32>)
        ensures
            r == self@.focused_index,
    {
        self.focused_index
    }

    /// The kana of the tentative characters, in order.
    pub fn tentative_kana_string(&self) -> (s: String)
        ensures
            s@ == crate::machine::tentative_text(self@.sm.tentative),
    {
        self.sm.tentative_kana_string()
    }
}

} // verus!

verus! {

// ── Laws ─────────────────────────────────────────────────────────────────────

/// The kana that a sequence of `SendKana` actions sends, joined.
pub open spec fn kana_text(acts: Seq<ActionV>) -> Seq<char>
    decreases acts.len(),
{
    if acts.len() == 0 {
        Seq::empty()
    } else {
        kana_text(acts.drop_last()) + match acts.last() {
            ActionV::SendKana(s) => s,
            _ => Seq::empty(),
        }
    }
}

proof fn lemma_run_kana_without_mozc(r0: RunV, acts: Seq<ActionV>)
    requires
        r0.queue.len() == 0,
        forall|i: int| 0 <= i < acts.len() ==> (#[trigger] acts[i]) is SendKana,
    ensures
        run(r0, false, acts) == (RunV {
            acc: AccV {
                commit: if acts.len() == 0 {
                    r0.acc.commit
                } else {
                    append_text(r0.acc.commit, kana_text(acts))
                },
                any_consumed: r0.acc.any_consumed || acts.len() > 0,
                ..r0.acc
            },
            ..r0
        }),
    decreases acts.len(),
{
    if acts.len() > 0 {
        let rest = acts.drop_last();
        assert forall|i: int| 0 <= i < rest.len() implies (#[trigger] rest[i]) is SendKana by {
            assert(rest[i] == acts[i]);
        }
        lemma_run_kana_without_mozc(r0, rest);
        assert(acts.last() == acts[acts.len() - 1]);
        if rest.len() > 0 {
            match r0.acc.commit {
                Some(c) => {
                    assert(c + kana_text(rest) + acts.last()->SendKana_0 =~= c + kana_text(acts));
                },
                None => {},
            }
        } else {
            assert(kana_text(acts) =~= kana_text(rest) + acts.last()->SendKana_0);
            assert(kana_text(rest) =~= Seq::<char>::empty());
            assert(kana_text(acts) =~= acts.last()->SendKana_0);
        }
    }
}

/// Without Mozc (no worker, or one that died) the kana of a keystroke are
/// committed directly, in order, and the key is consumed; the shown state
/// does not change.
pub proof fn law_kana_committed_without_mozc(e: EngineV, acts: Seq<ActionV>, o: OutcomeV, is_key_down: bool)
    requires
        acts.len() > 0,
        forall|i: int| 0 <= i < acts.len() ==> (#[trigger] acts[i]) is SendKana,
        o is Skipped || o is Dead,
    ensures
        dispatch(e, acts, o, is_key_down).0 == e,
        dispatch(e, acts, o, is_key_down).1.commit == Some(kana_text(acts)),
        dispatch(e, acts, o, is_key_down).1.consumed,
        dispatch(e, acts, o, is_key_down).1.passthrough_key is None,
{
    let r0 = RunV {
        e,
        queue: Seq::empty(),
        acc: AccV { commit: None, passthrough_key: None, forward_key: None, forward_mods: 0, any_consumed: false },
    };
    lemma_run_kana_without_mozc(r0, acts);
}

/// The worker is dropped exactly when the batch failed: it died, or one of
/// its answers is an error. Otherwise it is kept.
pub proof fn law_worker_kept(e: EngineV, acts: Seq<ActionV>, o: OutcomeV, is_key_down: bool)
    requires
        acts.len() > 0,
    ensures
        dispatch(e, acts, o, is_key_down).2 == match o {
            OutcomeV::Skipped => true,
            OutcomeV::Dead => false,
            OutcomeV::Results(rs) => all_answered(rs),
        },
{
}

} // verus!
