//! The instruct-validate-repair loop.
//!
//! `RejectionSampling` generates, validates the output against every
//! requirement, and on failure appends the failed output and a repair message
//! to the conversation before generating again, up to `max_retries` extra
//! times. The generation itself is the caller's: `begin` gives the first
//! state, the caller generates from `RepairLoop::messages`, and `step` (or
//! `advance`, given the validations) says whether to generate again or what
//! the run returns.
use vstd::prelude::*;
use crate::context::message_views;
use crate::error::{MelleaError, ValidationAttempt, ValidationFailure};
use crate::message::{ChatMessage, Role};
use crate::output::ModelOutput;
use crate::requirement::{admissible_verdict, Requirement, ValidationResult};
use crate::text::{join, join_strings, push_str};

verus! {

/// A single generation attempt with its validation results.
#[derive(Debug)]
pub struct SamplingAttempt {
    pub output: ModelOutput,
    pub validations: Vec<(String, ValidationResult)>,
}

/// The result of a sampling run.
#[derive(Debug)]
pub struct SamplingResult {
    /// The final output.
    pub output: ModelOutput,
    /// History of all attempts.
    pub attempts: Vec<SamplingAttempt>,
    /// Whether validation succeeded.
    pub success: bool,
}

/// Generate, validate, repair with feedback, retry.
#[derive(Debug, Clone, Copy)]
pub struct RejectionSampling {
    pub max_retries: u32,
}

/// The state of a repair loop between two generations: the attempts so far
/// and the messages to generate from next.
pub struct RepairLoop {
    max_retries: u32,
    attempts: Vec<SamplingAttempt>,
    messages: Vec<ChatMessage>,
}

/// What to do after an attempt: generate again from the new state, or stop
/// with the run's result.
pub enum LoopStep {
    Generate(RepairLoop),
    Finished(Result<SamplingResult, MelleaError>),
}

pub open spec fn repair_head() -> Seq<char> {
    "Your previous response did not meet the requirements. Please correct it.\n\nFailures:\n"@
}

pub open spec fn repair_tail() -> Seq<char> {
    "\nPlease provide a corrected response that satisfies all requirements."@
}

/// Every requirement passed.
pub open spec fn all_pass(vs: Seq<(String, ValidationResult)>) -> bool {
    forall|i: int| 0 <= i < vs.len() ==> (#[trigger] vs[i]).1@ is None
}

/// One line `- desc: reason` per failed requirement, in order.
pub open spec fn failure_lines(vs: Seq<(String, ValidationResult)>) -> Seq<char>
    decreases vs.len(),
{
    if vs.len() == 0 {
        Seq::empty()
    } else {
        failure_lines(vs.drop_last()) + match vs.last().1@ {
            Some(r) => "- "@ + vs.last().0@ + ": "@ + r + "\n"@,
            None => Seq::empty(),
        }
    }
}

/// The repair message sent after a failed attempt.
pub open spec fn repair_text(vs: Seq<(String, ValidationResult)>) -> Seq<char> {
    repair_head() + failure_lines(vs) + repair_tail()
}

/// `desc: reason` for each failed requirement, in order.
pub open spec fn failure_parts(vs: Seq<(String, ValidationResult)>) -> Seq<Seq<char>>
    decreases vs.len(),
{
    if vs.len() == 0 {
        Seq::empty()
    } else {
        match vs.last().1@ {
            Some(r) => failure_parts(vs.drop_last()).push(vs.last().0@ + ": "@ + r),
            None => failure_parts(vs.drop_last()),
        }
    }
}

/// The reason reported when the budget is exhausted.
pub open spec fn failure_summary(vs: Seq<(String, ValidationResult)>) -> Seq<char> {
    join(failure_parts(vs), "; "@)
}

/// `(requirement, reason)` for each failed requirement, in order.
pub open spec fn failure_records(vs: Seq<(String, ValidationResult)>) -> Seq<(Seq<char>, Seq<char>)>
    decreases vs.len(),
{
    if vs.len() == 0 {
        Seq::empty()
    } else {
        match vs.last().1@ {
            Some(r) => failure_records(vs.drop_last()).push((vs.last().0@, r)),
            None => failure_records(vs.drop_last()),
        }
    }
}

/// Raw output and failures of one attempt.
pub open spec fn attempt_record(a: SamplingAttempt) -> (Seq<char>, Seq<(Seq<char>, Seq<char>)>) {
    (a.output.content@, failure_records(a.validations@))
}

/// Raw output and failures of one entry of an error history.
pub open spec fn history_record(v: ValidationAttempt) -> (Seq<char>, Seq<(Seq<char>, Seq<char>)>) {
    (v.raw_output@, v.failures@.map_values(|f: ValidationFailure| (f.requirement@, f.reason@)))
}

/// Records of a sequence of attempts.
pub open spec fn attempt_records(atts: Seq<SamplingAttempt>) -> Seq<(Seq<char>, Seq<(Seq<char>, Seq<char>)>)> {
    atts.map_values(|a: SamplingAttempt| attempt_record(a))
}

/// Records of an error history.
pub open spec fn history_records(h: Seq<ValidationAttempt>) -> Seq<(Seq<char>, Seq<(Seq<char>, Seq<char>)>)> {
    h.map_values(|v: ValidationAttempt| history_record(v))
}

/// The validations that checking `content` against `reqs` can give: one per
/// requirement, in order, named by its description, each an admissible
/// verdict of that requirement.
pub open spec fn admissible_validations(
    reqs: Seq<Requirement>,
    content: Seq<char>,
    vs: Seq<(String, ValidationResult)>,
) -> bool {
    &&& vs.len() == reqs.len()
    &&& forall|i: int|
        0 <= i < vs.len() ==> (#[trigger] vs[i]).0@ == reqs[i].description@ && admissible_verdict(
            reqs[i].description@,
            reqs[i].rule,
            content,
            vs[i].1@,
        )
}

impl Default for RejectionSampling {
    fn default() -> (r: Self)
        ensures
            r.max_retries == 2,
    {
        RejectionSampling { max_retries: 2 }
    }
}

impl Clone for SamplingAttempt {
    fn clone(&self) -> (r: Self)
        ensures
            r.output == self.output,
            r.validations@ == self.validations@,
    {
        SamplingAttempt { output: self.output.clone(), validations: clone_validations(&self.validations) }
    }
}

fn clone_validations(vs: &Vec<(String, ValidationResult)>) -> (r: Vec<(String, ValidationResult)>)
    ensures
        r@ == vs@,
{
    let mut r: Vec<(String, ValidationResult)> = Vec::new();
    let mut i: usize = 0;
    while i < vs.len()
        invariant
            i <= vs.len(),
            r@ == vs@.take(i as int),
        decreases vs.len() - i,
    {
        let (d, v) = &vs[i];
        r.push((d.clone(), v.clone()));
        assert(r@ =~= vs@.take(i + 1));
        i = i + 1;
    }
    assert(vs@.take(vs.len() as int) =~= vs@);
    r
}

impl RepairLoop {
    #[verifier::type_invariant]
    spec fn within_budget(self) -> bool {
        self.attempts@.len() <= self.max_retries
    }

    /// Extra attempts allowed after the first.
    pub closed spec fn budget(&self) -> u32 {
        self.max_retries
    }

    /// Attempts made so far.
    pub closed spec fn attempts_view(&self) -> Seq<SamplingAttempt> {
        self.attempts@
    }

    /// Messages for the next generation.
    pub closed spec fn messages_view(&self) -> Seq<ChatMessage> {
        self.messages@
    }

    /// Messages to send with the next generation.
    pub fn messages(&self) -> (ms: &Vec<ChatMessage>)
        ensures
            ms@ == self.messages_view(),
    {
        &self.messages
    }

    /// Attempts made so far.
    pub fn attempts(&self) -> (a: &Vec<SamplingAttempt>)
        ensures
            a@ == self.attempts_view(),
    {
        &self.attempts
    }
}

impl RejectionSampling {
    pub fn new(max_retries: u32) -> (r: Self)
        ensures
            r.max_retries == max_retries,
    {
        RejectionSampling { max_retries }
    }

    /// The first state of a run that starts from `messages`.
    pub fn begin(&self, messages: Vec<ChatMessage>) -> (s: RepairLoop)
        ensures
            s.budget() == self.max_retries,
            s.attempts_view().len() == 0,
            s.messages_view() == messages@,
    {
        RepairLoop { max_retries: self.max_retries, attempts: Vec::new(), messages }
    }

    /// The repair message: a header, one line per failed requirement, and a
    /// closing request.
    pub fn build_repair_message(failures: &[(String, ValidationResult)]) -> (m: String)
        ensures
            m@ == repair_text(failures@),
    {
        let mut msg = String::new();
        push_str(
            &mut msg,
            "Your previous response did not meet the requirements. Please correct it.\n\nFailures:\n",
        );
        let mut i: usize = 0;
        while i < failures.len()
            invariant
                i <= failures.len(),
                msg@ == repair_head() + failure_lines(failures@.take(i as int)),
            decreases failures.len() - i,
        {
            let (desc, result) = &failures[i];
            match result {
                ValidationResult::Fail { reason } => {
                    push_str(&mut msg, "- ");
                    push_str(&mut msg, desc.as_str());
                    push_str(&mut msg, ": ");
                    push_str(&mut msg, reason.as_str());
                    push_str(&mut msg, "\n");
                },
                ValidationResult::Pass => {},
            }
            assert(failures@.take(i + 1).drop_last() =~= failures@.take(i as int));
            assert(msg@ =~= repair_head() + failure_lines(failures@.take(i + 1)));
            i = i + 1;
        }
        assert(failures@.take(failures.len() as int) =~= failures@);
        push_str(&mut msg, "\nPlease provide a corrected response that satisfies all requirements.");
        msg
    }

    /// Check `content` against every requirement, in order.
    pub fn validate_all(requirements: &[Requirement], content: &str) -> (vs: Vec<
        (String, ValidationResult),
    >)
        ensures
            admissible_validations(requirements@, content@, vs@),
    {
        let mut vs: Vec<(String, ValidationResult)> = Vec::new();
        let mut i: usize = 0;
        while i < requirements.len()
            invariant
                i <= requirements.len(),
                admissible_validations(requirements@.take(i as int), content@, vs@),
            decreases requirements.len() - i,
        {
            let req = &requirements[i];
            let v = req.check(content);
            vs.push((req.description.clone(), v));
            assert(admissible_validations(requirements@.take(i + 1), content@, vs@)) by {
                assert forall|k: int| 0 <= k < vs@.len() implies (#[trigger] vs@[k]).0@
                    == requirements@.take(i + 1)[k].description@ && admissible_verdict(
                    requirements@.take(i + 1)[k].description@,
                    requirements@.take(i + 1)[k].rule,
                    content@,
                    vs@[k].1@,
                ) by {
                    if k < i {
                        assert(requirements@.take(i + 1)[k] == requirements@.take(i as int)[k]);
                    }
                }
            }
            i = i + 1;
        }
        assert(requirements@.take(requirements.len() as int) =~= requirements@);
        vs
    }

    fn all_passed(vs: &Vec<(String, ValidationResult)>) -> (b: bool)
        ensures
            b == all_pass(vs@),
    {
        let mut i: usize = 0;
        while i < vs.len()
            invariant
                i <= vs.len(),
                forall|k: int| 0 <= k < i ==> (#[trigger] vs@[k]).1@ is None,
            decreases vs.len() - i,
        {
            if !vs[i].1.is_pass() {
                return false;
            }
            i = i + 1;
        }
        true
    }

    fn summarize_failures(vs: &Vec<(String, ValidationResult)>) -> (s: String)
        ensures
            s@ == failure_summary(vs@),
    {
        let mut parts: Vec<String> = Vec::new();
        let mut i: usize = 0;
        while i < vs.len()
            invariant
                i <= vs.len(),
                parts@.map_values(|p: String| p@) == failure_parts(vs@.take(i as int)),
            decreases vs.len() - i,
        {
            let (desc, v) = &vs[i];
            assert(vs@.take(i + 1).drop_last() =~= vs@.take(i as int));
            match v.reason() {
                Some(r) => {
                    let mut part = desc.clone();
                    push_str(&mut part, ": ");
                    push_str(&mut part, r);
                    parts.push(part);
                    assert(parts@.map_values(|p: String| p@) =~= failure_parts(vs@.take(i + 1)));
                },
                None => {
                    assert(parts@.map_values(|p: String| p@) =~= failure_parts(vs@.take(i + 1)));
                },
            }
            i = i + 1;
        }
        assert(vs@.take(vs.len() as int) =~= vs@);
        join_strings(&parts, "; ")
    }

    fn record_failures(vs: &Vec<(String, ValidationResult)>) -> (fs: Vec<ValidationFailure>)
        ensures
            fs@.map_values(|f: ValidationFailure| (f.requirement@, f.reason@)) == failure_records(
                vs@,
            ),
    {
        let mut fs: Vec<ValidationFailure> = Vec::new();
        let mut i: usize = 0;
        while i < vs.len()
            invariant
                i <= vs.len(),
                fs@.map_values(|f: ValidationFailure| (f.requirement@, f.reason@))
                    == failure_records(vs@.take(i as int)),
            decreases vs.len() - i,
        {
            let (desc, v) = &vs[i];
            assert(vs@.take(i + 1).drop_last() =~= vs@.take(i as int));
            match v.reason() {
                Some(r) => {
                    fs.push(ValidationFailure { requirement: desc.clone(), reason: r.to_owned() });
                    assert(fs@.map_values(|f: ValidationFailure| (f.requirement@, f.reason@))
                        =~= failure_records(vs@.take(i + 1)));
                },
                None => {
                    assert(fs@.map_values(|f: ValidationFailure| (f.requirement@, f.reason@))
                        =~= failure_records(vs@.take(i + 1)));
                },
            }
            i = i + 1;
        }
        assert(vs@.take(vs.len() as int) =~= vs@);
        fs
    }

    fn history_of(attempts: &Vec<SamplingAttempt>) -> (h: Vec<ValidationAttempt>)
        ensures
            history_records(h@) == attempt_records(attempts@),
    {
        let mut h: Vec<ValidationAttempt> = Vec::new();
        let mut i: usize = 0;
        while i < attempts.len()
            invariant
                i <= attempts.len(),
                h@.len() == i,
                history_records(h@) == attempt_records(attempts@.take(i as int)),
            decreases attempts.len() - i,
        {
            let a = &attempts[i];
            let failures = Self::record_failures(&a.validations);
            let ghost prev = h@;
            h.push(ValidationAttempt { raw_output: a.output.content.clone(), failures });
            assert(history_record(h@[i as int]) == attempt_record(attempts@[i as int]));
            assert forall|k: int| 0 <= k < i + 1 implies #[trigger] history_records(h@)[k] == attempt_records(attempts@.take(i + 1))[k] by {
                if k < i {
                    assert(h@[k] == prev[k]);
                    assert(history_records(prev)[k]
                        == attempt_records(attempts@.take(i as int))[k]);
                }
            }
            assert(history_records(h@) =~= attempt_records(attempts@.take(i + 1)));
            i = i + 1;
        }
        assert(attempts@.take(attempts.len() as int) =~= attempts@);
        h
    }

    /// Decide what follows an attempt that produced `output`, given its
    /// validations: success if every requirement passed; otherwise another
    /// generation with repair feedback while retries remain; otherwise the
    /// validation error with the whole history.
    pub fn advance(state: RepairLoop, output: ModelOutput, validations: Vec<
        (String, ValidationResult),
    >) -> (r: LoopStep)
        requires
            state.attempts_view().len() < u32::MAX,
        ensures
            advanced(state, output, validations@, r),
    {
        proof {
            use_type_invariant(&state);
        }
        let RepairLoop { max_retries, mut attempts, mut messages } = state;
        let ghost old_messages = messages@;
        let passed = Self::all_passed(&validations);
        let failure_summary = if passed {
            String::new()
        } else {
            Self::summarize_failures(&validations)
        };
        let repair = if passed {
            String::new()
        } else {
            Self::build_repair_message(validations.as_slice())
        };
        let retry = attempts.len() < max_retries as usize;
        let content = output.content.clone();
        let kept = output.clone();
        let ghost vs = validations@;
        let ghost old_attempts = attempts@;
        attempts.push(SamplingAttempt { output: kept, validations });
        assert(attempts@.take(old_attempts.len() as int) =~= old_attempts);
        assert(attempts@[old_attempts.len() as int].validations@ == vs);
        if passed {
            return LoopStep::Finished(Ok(SamplingResult { output, attempts, success: true }));
        }
        if retry {
            messages.push(ChatMessage::assistant(content.as_str()));
            messages.push(ChatMessage::user(repair.as_str()));
            assert(message_views(messages@) =~= message_views(old_messages).push(
                (Role::Assistant, content@),
            ).push((Role::User, repair@)));
            return LoopStep::Generate(RepairLoop { max_retries, attempts, messages });
        }
        let history = Self::history_of(&attempts);
        assert(attempt_records(attempts@) =~= attempt_records(old_attempts).push((output.content@, failure_records(vs))));
        LoopStep::Finished(
            Err(
                MelleaError::ValidationFailed {
                    attempts: max_retries + 1,
                    reason: failure_summary,
                    history,
                },
            ),
        )
    }

    /// Validate `output` against `requirements` and decide what follows, as
    /// `advance` does with the validations that this call computed.
    pub fn step(state: RepairLoop, output: ModelOutput, requirements: &[Requirement]) -> (r:
        LoopStep)
        requires
            state.attempts_view().len() < u32::MAX,
        ensures
            exists|validations: Seq<(String, ValidationResult)>|
                admissible_validations(requirements@, output.content@, validations)
                    && #[trigger] advanced(state, output, validations, r),
    {
        let validations = Self::validate_all(requirements, output.content.as_str());
        let ghost vs = validations@;
        let ghost out = output;
        let ghost st = state;
        let r = Self::advance(state, output, validations);
        assert(advanced(st, out, vs, r));
        r
    }
}

/// What `advance` returns from `state` for an attempt with `output` and
/// `validations`: the attempt is recorded after the earlier ones; if every
/// requirement passed, the run succeeds with `output`; if some failed and
/// retries remain, the next generation sees the failed output and a repair
/// message; otherwise the run fails with the summary of the last failures
/// and the history of all attempts.
pub open spec fn advanced(
    state: RepairLoop,
    output: ModelOutput,
    validations: Seq<(String, ValidationResult)>,
    r: LoopStep,
) -> bool {
    let n: nat = state.attempts_view().len();
    let recorded = |atts: Seq<SamplingAttempt>|
        atts.len() == n + 1 && atts.take(n as int) == state.attempts_view() && atts[n as int].output
            == output && atts[n as int].validations@ == validations;
    &&& all_pass(validations) ==> (r matches LoopStep::Finished(Ok(res)) && res.output == output
        && res.success && recorded(res.attempts@))
    &&& !all_pass(validations) && n < state.budget() ==> (r matches LoopStep::Generate(next)
        && next.budget() == state.budget() && recorded(next.attempts_view())
        && message_views(next.messages_view()) == message_views(state.messages_view()).push(
        (Role::Assistant, output.content@),
    ).push((Role::User, repair_text(validations))))
    &&& !all_pass(validations) && n >= state.budget() ==> (r matches LoopStep::Finished(
        Err(MelleaError::ValidationFailed { attempts: count, reason, history }),
    ) && count == state.budget() + 1 && reason@ == failure_summary(validations)
        && history_records(history@) == attempt_records(state.attempts_view()).push((output.content@, failure_records(validations))))
}

/// A run succeeds exactly when every requirement passed on the attempt, and
/// then it returns that attempt's output; it fails only once the retries
/// are spent, reporting one more attempt than `max_retries`.
pub proof fn law_outcome_of_an_attempt(
    state: RepairLoop,
    output: ModelOutput,
    validations: Seq<(String, ValidationResult)>,
    r: LoopStep,
)
    requires
        advanced(state, output, validations, r),
    ensures
        (r matches LoopStep::Finished(Ok(res))) <==> all_pass(validations),
        r matches LoopStep::Finished(Ok(res)) ==> res.output == output && res.success,
        r is Generate ==> !all_pass(validations) && state.attempts_view().len() < state.budget(),
        r is Finished && !(r matches LoopStep::Finished(Ok(res))) ==> !all_pass(validations)
            && state.attempts_view().len() >= state.budget() && (r matches LoopStep::Finished(
            Err(MelleaError::ValidationFailed { attempts: count, .. }),
        ) && count == state.budget() + 1),
{
}

/// `next` is the state that `advance` returned from `state` to generate
/// again, for some attempt.
pub open spec fn generates_next(state: RepairLoop, next: RepairLoop) -> bool {
    exists|output: ModelOutput, validations: Seq<(String, ValidationResult)>|
        #[trigger] advanced(state, output, validations, LoopStep::Generate(next))
}

/// A run asks for at most `max_retries + 1` generations: in a chain of
/// states that starts from `begin` and where each next state is the one that
/// `advance` returned to generate again, each state stands for one
/// generation and there are at most `max_retries + 1` of them.
pub proof fn law_generations_bounded(states: Seq<RepairLoop>)
    requires
        states.len() > 0,
        states[0].attempts_view().len() == 0,
        forall|j: int| #![trigger states[j]] 0 <= j < states.len() - 1 ==> generates_next(states[j], states[j + 1]),
    ensures
        states.len() <= states[0].budget() + 1,
        forall|j: int| 0 <= j < states.len() ==> (#[trigger] states[j]).attempts_view().len() == j,
        forall|j: int| 0 <= j < states.len() ==> (#[trigger] states[j]).budget() == states[0].budget(),
    decreases states.len(),
{
    if states.len() > 1 {
        let prefix = states.drop_last();
        assert forall|j: int| #![trigger prefix[j]] 0 <= j < prefix.len() - 1 implies generates_next(prefix[j], prefix[j + 1]) by {
            assert(prefix[j] == states[j] && prefix[j + 1] == states[j + 1]);
            assert(generates_next(states[j], states[j + 1]));
        }
        law_generations_bounded(prefix);
        let k: int = states.len() - 2;
        assert(generates_next(states[k], states[k + 1]));
        let (o, v) = choose|
            output: ModelOutput,
            validations: Seq<(String, ValidationResult)>,
        | #[trigger] advanced(states[k], output, validations, LoopStep::Generate(states[k + 1]));
        assert(advanced(states[k], o, v, LoopStep::Generate(states[k + 1])));
        assert(prefix[k] == states[k]);
        assert(states[k].attempts_view().len() == k);
        assert forall|j: int| 0 <= j < states.len() implies (#[trigger] states[j]).attempts_view().len() == j by {
            if j < states.len() - 1 {
                assert(prefix[j] == states[j]);
            }
        }
        assert forall|j: int| 0 <= j < states.len() implies (#[trigger] states[j]).budget()
            == states[0].budget() by {
            if j < states.len() - 1 {
                assert(prefix[j] == states[j]);
            }
        }
    }
}

/// The feedback that failed attempts add to the conversation: for each, the
/// failed output as the assistant's message and the repair message as the
/// user's reply.
pub open spec fn repair_history(atts: Seq<SamplingAttempt>) -> Seq<(Role, Seq<char>)>
    decreases atts.len(),
{
    if atts.len() == 0 {
        Seq::empty()
    } else {
        repair_history(atts.drop_last()).push((Role::Assistant, atts.last().output.content@)).push(
            (Role::User, repair_text(atts.last().validations@)),
        )
    }
}

/// Every generation of a run sees the first request's messages followed by
/// the feedback of each earlier attempt: its output and the repair message
/// that lists why it failed.
pub proof fn law_conversation_of_a_run(states: Seq<RepairLoop>)
    requires
        states.len() > 0,
        states[0].attempts_view().len() == 0,
        forall|j: int| #![trigger states[j]] 0 <= j < states.len() - 1 ==> generates_next(states[j], states[j + 1]),
    ensures
        forall|j: int|
            0 <= j < states.len() ==> message_views((#[trigger] states[j]).messages_view())
                == message_views(states[0].messages_view()) + repair_history(states[j].attempts_view()),
    decreases states.len(),
{
    if states.len() == 1 {
        assert(repair_history(states[0].attempts_view()) =~= Seq::empty());
        assert(message_views(states[0].messages_view()) + Seq::<(Role, Seq<char>)>::empty() =~= message_views(states[0].messages_view()));
    } else {
        let prefix = states.drop_last();
        assert forall|j: int| #![trigger prefix[j]] 0 <= j < prefix.len() - 1 implies generates_next(prefix[j], prefix[j + 1]) by {
            assert(prefix[j] == states[j] && prefix[j + 1] == states[j + 1]);
            assert(generates_next(states[j], states[j + 1]));
        }
        law_conversation_of_a_run(prefix);
        let k: int = states.len() - 2;
        assert(generates_next(states[k], states[k + 1]));
        let (o, v) = choose|
            output: ModelOutput,
            validations: Seq<(String, ValidationResult)>,
        | #[trigger] advanced(states[k], output, validations, LoopStep::Generate(states[k + 1]));
        assert(advanced(states[k], o, v, LoopStep::Generate(states[k + 1])));
        assert(prefix[k] == states[k]);
        let a = states[k + 1].attempts_view();
        let n: nat = states[k].attempts_view().len();
        assert(a.drop_last() =~= states[k].attempts_view());
        assert(a.last().output == o);
        assert(a.last().validations@ == v);
        assert(repair_history(a) == repair_history(states[k].attempts_view()).push(
            (Role::Assistant, o.content@),
        ).push((Role::User, repair_text(v))));
        assert(message_views(states[k + 1].messages_view()) =~= message_views(states[0].messages_view())
            + repair_history(a));
        assert forall|j: int|
            0 <= j < states.len() implies message_views((#[trigger] states[j]).messages_view())
                == message_views(states[0].messages_view()) + repair_history(states[j].attempts_view()) by {
            if j < states.len() - 1 {
                assert(prefix[j] == states[j]);
            }
        }
    }
}

} // verus!
verus! {

/// A run is reported as a success exactly when every requirement passed on
/// the attempt: a single failed requirement rules success out.
pub proof fn law_success_only_if_every_requirement_passed(
    state: RepairLoop,
    output: ModelOutput,
    validations: Seq<(String, ValidationResult)>,
    r: LoopStep,
)
    requires
        advanced(state, output, validations, r),
    ensures
        (r matches LoopStep::Finished(Ok(res))) <==> forall|i: int|
            0 <= i < validations.len() ==> (#[trigger] validations[i]).1@ is None,
        (exists|i: int| 0 <= i < validations.len() && (#[trigger] validations[i]).1@ is Some)
            ==> !(r matches LoopStep::Finished(Ok(_))),
        r matches LoopStep::Finished(Ok(res)) ==> res.success && res.output == output,
{
}

/// The same for a step: when `step` reports success, each requirement
/// judged the output and passed it.
pub proof fn law_step_success_means_every_requirement_passed(
    requirements: Seq<Requirement>,
    state: RepairLoop,
    output: ModelOutput,
    r: LoopStep,
)
    requires
        exists|validations: Seq<(String, ValidationResult)>|
            admissible_validations(requirements, output.content@, validations)
                && #[trigger] advanced(state, output, validations, r),
    ensures
        r matches LoopStep::Finished(Ok(_)) ==> exists|validations: Seq<(String, ValidationResult)>|
            #[trigger] admissible_validations(requirements, output.content@, validations)
                && validations.len() == requirements.len() && forall|i: int|
                0 <= i < validations.len() ==> (#[trigger] validations[i]).1@ is None,
{
    let vs = choose|validations: Seq<(String, ValidationResult)>|
        admissible_validations(requirements, output.content@, validations)
            && #[trigger] advanced(state, output, validations, r);
    law_success_only_if_every_requirement_passed(state, output, vs, r);
}

/// What stands in a repair message between its header and its closing
/// request.
pub open spec fn listed_failures(vs: Seq<(String, ValidationResult)>) -> Seq<char> {
    let t = repair_text(vs);
    t.subrange(repair_head().len() as int, t.len() - repair_tail().len())
}

proof fn lemma_failure_lines_concat(
    vs: Seq<(String, ValidationResult)>,
    ws: Seq<(String, ValidationResult)>,
)
    ensures
        failure_lines(vs + ws) == failure_lines(vs) + failure_lines(ws),
    decreases ws.len(),
{
    if ws.len() == 0 {
        assert(vs + ws =~= vs);
        assert(failure_lines(vs) + failure_lines(ws) =~= failure_lines(vs));
    } else {
        lemma_failure_lines_concat(vs, ws.drop_last());
        assert((vs + ws).drop_last() =~= vs + ws.drop_last());
        assert((vs + ws).last() == ws.last());
        assert(failure_lines(vs + ws) =~= failure_lines(vs) + failure_lines(ws));
    }
}

proof fn lemma_listed_failures(vs: Seq<(String, ValidationResult)>)
    ensures
        listed_failures(vs) == failure_lines(vs),
{
    let t = repair_text(vs);
    assert(t.subrange(repair_head().len() as int, t.len() - repair_tail().len()) =~= failure_lines(vs));
}

/// A repair message opens with the fixed header and closes with the fixed
/// request to correct the response.
pub proof fn law_repair_message_frame(vs: Seq<(String, ValidationResult)>)
    ensures
        repair_text(vs).len() >= repair_head().len() + repair_tail().len(),
        repair_text(vs).take(repair_head().len() as int)
            == "Your previous response did not meet the requirements. Please correct it.\n\nFailures:\n"@,
        repair_text(vs).skip(repair_text(vs).len() - repair_tail().len())
            == "\nPlease provide a corrected response that satisfies all requirements."@,
        repair_text(vs) == repair_head() + listed_failures(vs) + repair_tail(),
{
    lemma_listed_failures(vs);
    let t = repair_text(vs);
    assert(t.take(repair_head().len() as int) =~= repair_head());
    assert(t.skip(t.len() - repair_tail().len()) =~= repair_tail());
}

/// The failures listed for two runs of validations one after the other are
/// those listed for the first, then those listed for the second: each
/// failure keeps its own line, in order.
pub proof fn law_repair_lines_concat(
    vs: Seq<(String, ValidationResult)>,
    ws: Seq<(String, ValidationResult)>,
)
    ensures
        listed_failures(vs + ws) == listed_failures(vs) + listed_failures(ws),
{
    lemma_listed_failures(vs);
    lemma_listed_failures(ws);
    lemma_listed_failures(vs + ws);
    lemma_failure_lines_concat(vs, ws);
}

/// A failed requirement is listed as `- description: reason` on a line of
/// its own; a passed one is not listed; nothing is listed for no
/// validations.
pub proof fn law_repair_line_of_one(description: String, reason: String)
    ensures
        listed_failures(seq![(description, ValidationResult::Fail { reason })]) == "- "@
            + description@ + ": "@ + reason@ + "\n"@,
        listed_failures(seq![(description, ValidationResult::Pass)]) == Seq::<char>::empty(),
        listed_failures(Seq::empty()) == Seq::<char>::empty(),
{
    let f = seq![(description, ValidationResult::Fail { reason })];
    let p = seq![(description, ValidationResult::Pass)];
    lemma_listed_failures(f);
    lemma_listed_failures(p);
    lemma_listed_failures(Seq::empty());
    assert(f.drop_last() =~= Seq::<(String, ValidationResult)>::empty());
    assert(p.drop_last() =~= Seq::<(String, ValidationResult)>::empty());
    assert(failure_lines(f) =~= "- "@ + description@ + ": "@ + reason@ + "\n"@);
    assert(failure_lines(p) =~= Seq::<char>::empty());
}

} // verus!
