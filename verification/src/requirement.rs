//! Requirements: validation constraints checked against raw model output.
use vstd::prelude::*;
use crate::output::spec_strip_json;
use crate::text::{decimal, decimal_string, push_str};

verus! {

/// The outcome of checking a requirement against model output.
#[derive(Debug)]
pub enum ValidationResult {
    Pass,
    Fail { reason: String },
}

impl View for ValidationResult {
    /// `None` for a pass, `Some(reason)` for a failure.
    type V = Option<Seq<char>>;

    open spec fn view(&self) -> Option<Seq<char>> {
        match self {
            ValidationResult::Pass => None,
            ValidationResult::Fail { reason } => Some(reason@),
        }
    }
}

impl Clone for ValidationResult {
    fn clone(&self) -> (r: Self)
        ensures
            r == *self,
    {
        match self {
            ValidationResult::Pass => ValidationResult::Pass,
            ValidationResult::Fail { reason } => ValidationResult::Fail { reason: reason.clone() },
        }
    }
}

impl ValidationResult {
    pub fn is_pass(&self) -> (b: bool)
        ensures
            b == (self@ is None),
    {
        match self {
            ValidationResult::Pass => true,
            ValidationResult::Fail { .. } => false,
        }
    }

    pub fn is_fail(&self) -> (b: bool)
        ensures
            b == (self@ is Some),
    {
        match self {
            ValidationResult::Pass => false,
            ValidationResult::Fail { .. } => true,
        }
    }

    pub fn reason(&self) -> (r: Option<&str>)
        ensures
            r matches Some(s) ==> self@ == Some(s@),
            r is None ==> self@ is None,
    {
        match self {
            ValidationResult::Fail { reason } => Some(reason.as_str()),
            ValidationResult::Pass => None,
        }
    }
}

/// A yes/no judgement of raw output, supplied by the user.
pub trait OutputPredicate: Send + Sync {
    /// `answer` is an answer that this judgement can give for `output`.
    spec fn answers(&self, output: Seq<char>, answer: bool) -> bool;

    fn holds(&self, output: &str) -> (b: bool)
        ensures
            self.answers(output@, b),
    ;
}

/// A judgement of raw output that explains a rejection, supplied by the user.
pub trait OutputCheck: Send + Sync {
    /// `answer` is an answer that this judgement can give for `output`.
    spec fn answers(&self, output: Seq<char>, answer: Result<(), String>) -> bool;

    fn verdict(&self, output: &str) -> (r: Result<(), String>)
        ensures
            self.answers(output@, r),
    ;
}

/// A JSON decoder for some target type: `None` when `json` decodes, else
/// the decoder's error message. `DecodeFn` makes one of a closure.
pub trait JsonDecoder: Send + Sync {
    /// `error` is an answer that this decoder can give for `json`.
    spec fn answers(&self, json: Seq<char>, error: Option<String>) -> bool;

    fn decode_error(&self, json: &str) -> (r: Option<String>)
        ensures
            self.answers(json@, r),
    ;
}

/// A yes/no judgement of a typed value, supplied by the user.
pub trait ValuePredicate<T> {
    /// `answer` is an answer that this judgement can give for `value`.
    spec fn answers(&self, value: &T, answer: bool) -> bool;

    fn holds(&self, value: &T) -> (b: bool)
        ensures
            self.answers(value, b),
    ;
}

/// What a closure over text can answer for the text `output`.
pub open spec fn text_closure_answers<F: Fn(&str) -> R, R>(f: F, output: Seq<char>, answer: R) -> bool {
    exists|s: &str| s@ == output && #[trigger] call_ensures(f, (s,), answer)
}

/// A closure used as an `OutputPredicate`.
pub struct PredicateFn<F: Fn(&str) -> bool + Send + Sync> {
    f: F,
}

impl<F: Fn(&str) -> bool + Send + Sync> PredicateFn<F> {
    #[verifier::type_invariant]
    spec fn callable(self) -> bool {
        forall|s: &str| call_requires(self.f, (s,))
    }
}

impl<F: Fn(&str) -> bool + Send + Sync> OutputPredicate for PredicateFn<F> {
    closed spec fn answers(&self, output: Seq<char>, answer: bool) -> bool {
        text_closure_answers(self.f, output, answer)
    }

    fn holds(&self, output: &str) -> (b: bool) {
        proof {
            use_type_invariant(self);
        }
        (self.f)(output)
    }
}

/// A closure used as an `OutputCheck`.
pub struct CheckFn<F: Fn(&str) -> Result<(), String> + Send + Sync> {
    f: F,
}

impl<F: Fn(&str) -> Result<(), String> + Send + Sync> CheckFn<F> {
    #[verifier::type_invariant]
    spec fn callable(self) -> bool {
        forall|s: &str| call_requires(self.f, (s,))
    }
}

impl<F: Fn(&str) -> Result<(), String> + Send + Sync> OutputCheck for CheckFn<F> {
    closed spec fn answers(&self, output: Seq<char>, answer: Result<(), String>) -> bool {
        text_closure_answers(self.f, output, answer)
    }

    fn verdict(&self, output: &str) -> (r: Result<(), String>) {
        proof {
            use_type_invariant(self);
        }
        (self.f)(output)
    }
}

/// A closure used as a `ValuePredicate`.
pub struct ValuePredicateFn<T, F: Fn(&T) -> bool + Send + Sync> {
    f: F,
    marker: std::marker::PhantomData<T>,
}

impl<T, F: Fn(&T) -> bool + Send + Sync> ValuePredicateFn<T, F> {
    #[verifier::type_invariant]
    spec fn callable(self) -> bool {
        forall|v: &T| call_requires(self.f, (v,))
    }
}

impl<T, F: Fn(&T) -> bool + Send + Sync> ValuePredicate<T> for ValuePredicateFn<T, F> {
    closed spec fn answers(&self, value: &T, answer: bool) -> bool {
        call_ensures(self.f, (value,), answer)
    }

    fn holds(&self, value: &T) -> (b: bool) {
        proof {
            use_type_invariant(self);
        }
        (self.f)(value)
    }
}

/// A closure used as a `JsonDecoder`: it returns `None` when the text
/// decodes, else the decoder's error message.
pub struct DecodeFn<F: Fn(&str) -> Option<String> + Send + Sync> {
    f: F,
}

impl<F: Fn(&str) -> Option<String> + Send + Sync> DecodeFn<F> {
    #[verifier::type_invariant]
    spec fn callable(self) -> bool {
        forall|s: &str| call_requires(self.f, (s,))
    }

    pub fn new(f: F) -> (d: Self)
        requires
            forall|s: &str| call_requires(f, (s,)),
        ensures
            forall|j: Seq<char>, e: Option<String>| #[trigger]
                d.answers(j, e) == text_closure_answers(f, j, e),
    {
        DecodeFn { f }
    }
}

impl<F: Fn(&str) -> Option<String> + Send + Sync> JsonDecoder for DecodeFn<F> {
    closed spec fn answers(&self, json: Seq<char>, error: Option<String>) -> bool {
        text_closure_answers(self.f, json, error)
    }

    fn decode_error(&self, json: &str) -> (r: Option<String>) {
        proof {
            use_type_invariant(self);
        }
        (self.f)(json)
    }
}

/// A decoder held behind the rule that uses it.
struct Held<D: JsonDecoder> {
    inner: D,
}

impl<D: JsonDecoder> JsonDecoder for Held<D> {
    closed spec fn answers(&self, json: Seq<char>, error: Option<String>) -> bool {
        self.inner.answers(json, error)
    }

    fn decode_error(&self, json: &str) -> (r: Option<String>) {
        self.inner.decode_error(json)
    }
}

/// How a requirement judges output.
pub enum Rule {
    /// A user predicate; a rejection names the requirement.
    Predicate(Box<dyn OutputPredicate>),
    /// A user check that explains its rejections.
    WithReason(Box<dyn OutputCheck>),
    /// The cleaned output must decode as JSON.
    ParsesAs(Box<dyn JsonDecoder>),
    /// At most this many characters.
    MaxLength(usize),
    /// At least this many characters.
    MinLength(usize),
}

/// A validation constraint applied to model output: a human-readable
/// description (included in prompts and repair messages) and a rule.
pub struct Requirement {
    pub description: String,
    pub rule: Rule,
}

/// Builder that picks the rule of a requirement.
pub struct RequirementBuilder {
    description: String,
}

/// The verdict of a predicate rule, given the predicate's answer.
pub open spec fn predicate_verdict(description: Seq<char>, holds: bool) -> Option<Seq<char>> {
    if holds {
        None
    } else {
        Some("requirement not met: "@ + description)
    }
}

/// The verdict of a check rule, given the check's answer.
pub open spec fn check_verdict(answer: Result<(), String>) -> Option<Seq<char>> {
    match answer {
        Ok(()) => None,
        Err(reason) => Some(reason@),
    }
}

/// The verdict of a JSON rule, given the decoder's error (if any).
pub open spec fn parse_verdict(description: Seq<char>, error: Option<Seq<char>>) -> Option<
    Seq<char>,
> {
    match error {
        None => None,
        Some(e) => Some(description + ": JSON parse error: "@ + e),
    }
}

/// The verdict of a maximum-length rule on an output of `len` characters.
pub open spec fn max_length_verdict(n: nat, len: nat) -> Option<Seq<char>> {
    if len <= n {
        None
    } else {
        Some("output length "@ + decimal(len) + " exceeds max "@ + decimal(n))
    }
}

/// The verdict of a minimum-length rule on an output of `len` characters.
pub open spec fn min_length_verdict(n: nat, len: nat) -> Option<Seq<char>> {
    if len >= n {
        None
    } else {
        Some("output length "@ + decimal(len) + " below min "@ + decimal(n))
    }
}

/// `rule` is a JSON rule whose decoder answers as `decoder` does.
pub open spec fn decodes_as<D: JsonDecoder>(rule: Rule, decoder: D) -> bool {
    rule matches Rule::ParsesAs(d) && forall|j: Seq<char>, e: Option<String>| #[trigger]
        d.answers(j, e) == decoder.answers(j, e)
}

/// The view of a decoder's answer.
pub open spec fn error_view(error: Option<String>) -> Option<Seq<char>> {
    match error {
        Some(e) => Some(e@),
        None => None,
    }
}

/// What can come of checking `output` against a requirement: exactly one
/// verdict for the built-in length rules; for the rules that consult user
/// code, the verdict built from an answer that the code can give, on the
/// output itself or, for a JSON rule, on the output with its artifacts
/// stripped.
pub open spec fn admissible_verdict(
    description: Seq<char>,
    rule: Rule,
    output: Seq<char>,
    verdict: Option<Seq<char>>,
) -> bool {
    match rule {
        Rule::MaxLength(n) => verdict == max_length_verdict(n as nat, output.len()),
        Rule::MinLength(n) => verdict == min_length_verdict(n as nat, output.len()),
        Rule::Predicate(p) => exists|b: bool|
            #[trigger] p.answers(output, b) && verdict == predicate_verdict(description, b),
        Rule::WithReason(c) => exists|a: Result<(), String>|
            #[trigger] c.answers(output, a) && verdict == check_verdict(a),
        Rule::ParsesAs(d) => exists|e: Option<String>|
            #[trigger] d.answers(spec_strip_json(output), e) && verdict == parse_verdict(
                description,
                error_view(e),
            ),
    }
}

/// Verdict of a predicate rule from the predicate's answer.
pub fn verdict_of_predicate(description: &str, holds: bool) -> (r: ValidationResult)
    ensures
        r@ == predicate_verdict(description@, holds),
{
    if holds {
        ValidationResult::Pass
    } else {
        let mut reason = String::new();
        push_str(&mut reason, "requirement not met: ");
        push_str(&mut reason, description);
        ValidationResult::Fail { reason }
    }
}

/// Verdict of a check rule from the check's answer.
pub fn verdict_of_check(answer: Result<(), String>) -> (r: ValidationResult)
    ensures
        r@ == check_verdict(answer),
{
    match answer {
        Ok(()) => ValidationResult::Pass,
        Err(reason) => ValidationResult::Fail { reason },
    }
}

/// Verdict of a JSON rule from the decoder's error, if any.
pub fn verdict_of_parse(description: &str, error: Option<String>) -> (r: ValidationResult)
    ensures
        r@ == parse_verdict(description@, error_view(error)),
{
    match error {
        None => ValidationResult::Pass,
        Some(e) => {
            let mut reason = String::new();
            push_str(&mut reason, description);
            push_str(&mut reason, ": JSON parse error: ");
            push_str(&mut reason, e.as_str());
            ValidationResult::Fail { reason }
        },
    }
}

fn length_reason(len: usize, middle: &str, n: usize) -> (r: String)
    ensures
        r@ == "output length "@ + decimal(len as nat) + middle@ + decimal(n as nat),
{
    let mut reason = String::new();
    push_str(&mut reason, "output length ");
    let a = decimal_string(len as u64);
    push_str(&mut reason, a.as_str());
    push_str(&mut reason, middle);
    let b = decimal_string(n as u64);
    push_str(&mut reason, b.as_str());
    reason
}

impl Requirement {
    /// Start building a requirement with a description.
    pub fn new(description: &str) -> (b: RequirementBuilder)
        ensures
            b.description()@ == description@,
    {
        RequirementBuilder { description: description.to_owned() }
    }

    /// Check this requirement against raw model output.
    pub fn check(&self, output: &str) -> (r: ValidationResult)
        ensures
            admissible_verdict(self.description@, self.rule, output@, r@),
    {
        match &self.rule {
            Rule::Predicate(p) => {
                let holds = p.holds(output);
                let r = verdict_of_predicate(self.description.as_str(), holds);
                assert(p.answers(output@, holds));
                r
            },
            Rule::WithReason(c) => {
                let answer = c.verdict(output);
                let ghost a = answer;
                let r = verdict_of_check(answer);
                assert(c.answers(output@, a));
                r
            },
            Rule::ParsesAs(d) => {
                let cleaned = crate::output::strip_json_artifacts(output);
                let error = d.decode_error(cleaned.as_str());
                let ghost answer = error;
                let r = verdict_of_parse(self.description.as_str(), error);
                assert(d.answers(spec_strip_json(output@), answer));
                r
            },
            Rule::MaxLength(n) => {
                let len: usize = output.unicode_len();
                if len <= *n {
                    ValidationResult::Pass
                } else {
                    ValidationResult::Fail { reason: length_reason(len, " exceeds max ", *n) }
                }
            },
            Rule::MinLength(n) => {
                let len: usize = output.unicode_len();
                if len >= *n {
                    ValidationResult::Pass
                } else {
                    ValidationResult::Fail { reason: length_reason(len, " below min ", *n) }
                }
            },
        }
    }
}

impl RequirementBuilder {
    pub closed spec fn description(&self) -> String {
        self.description
    }

    /// Validate with a closure that receives the raw output string.
    pub fn validate<F: Fn(&str) -> bool + Send + Sync + 'static>(self, f: F) -> (r: Requirement)
        requires
            forall|s: &str| call_requires(f, (s,)),
        ensures
            r.description == self.description(),
            r.rule matches Rule::Predicate(p) && forall|o: Seq<char>, b: bool|
                #[trigger] p.answers(o, b) == text_closure_answers(f, o, b),
    {
        let concrete = Box::new(PredicateFn { f });
        let ghost gc = concrete;
        let r = Requirement { description: self.description, rule: Rule::Predicate(concrete) };
        assert forall|o: Seq<char>, b: bool| #[trigger]
            gc.answers(o, b) == text_closure_answers(f, o, b) by {}
        r
    }

    /// Validate with a closure that returns `Ok(())` on success or
    /// `Err(reason)` on failure.
    pub fn validate_with_reason<F: Fn(&str) -> Result<(), String> + Send + Sync + 'static>(
        self,
        f: F,
    ) -> (r: Requirement)
        requires
            forall|s: &str| call_requires(f, (s,)),
        ensures
            r.description == self.description(),
            r.rule matches Rule::WithReason(c) && forall|o: Seq<char>, a: Result<(), String>|
                #[trigger] c.answers(o, a) == text_closure_answers(f, o, a),
    {
        let concrete = Box::new(CheckFn { f });
        let ghost gc = concrete;
        let r = Requirement { description: self.description, rule: Rule::WithReason(concrete) };
        assert forall|o: Seq<char>, a: Result<(), String>| #[trigger]
            gc.answers(o, a) == text_closure_answers(f, o, a) by {}
        r
    }

    /// Validate that the cleaned output decodes with `decoder`.
    pub fn parses_with<D: JsonDecoder + 'static>(self, decoder: D) -> (r: Requirement)
        ensures
            r.description == self.description(),
            decodes_as(r.rule, decoder),
    {
        let concrete = Box::new(Held { inner: decoder });
        let ghost gc = concrete;
        let r = Requirement { description: self.description, rule: Rule::ParsesAs(concrete) };
        assert forall|j: Seq<char>, e: Option<String>| #[trigger]
            gc.answers(j, e) == decoder.answers(j, e) by {}
        r
    }

    /// Validate that output is at most `n` characters.
    pub fn max_length(self, n: usize) -> (r: Requirement)
        ensures
            r.description == self.description(),
            r.rule == Rule::MaxLength(n),
    {
        Requirement { description: self.description, rule: Rule::MaxLength(n) }
    }

    /// Validate that output is at least `n` characters.
    pub fn min_length(self, n: usize) -> (r: Requirement)
        ensures
            r.description == self.description(),
            r.rule == Rule::MinLength(n),
    {
        Requirement { description: self.description, rule: Rule::MinLength(n) }
    }
}

/// Validates a typed value after parsing.
#[verifier::reject_recursive_types(T)]
pub struct TypedRequirement<T> {
    pub description: String,
    pub check_fn: Box<dyn ValuePredicate<T>>,
}

/// The verdict of a typed requirement, given the predicate's answer.
pub open spec fn typed_verdict(description: Seq<char>, holds: bool) -> Option<Seq<char>> {
    if holds {
        None
    } else {
        Some("typed requirement not met: "@ + description)
    }
}

impl<T: 'static> TypedRequirement<T> {
    /// A typed requirement described by `description` and judged by `f`.
    pub fn new<F: Fn(&T) -> bool + Send + Sync + 'static>(description: &str, f: F) -> (r: Self)
        requires
            forall|v: &T| call_requires(f, (v,)),
        ensures
            r.description@ == description@,
            forall|v: &T, b: bool| #[trigger] r.check_fn.answers(v, b) == call_ensures(f, (v,), b),
    {
        let concrete = Box::new(ValuePredicateFn { f, marker: std::marker::PhantomData });
        let ghost gc = concrete;
        let r = TypedRequirement { description: description.to_owned(), check_fn: concrete };
        assert forall|v: &T, b: bool| #[trigger] r.check_fn.answers(v, b) == call_ensures(f, (v,), b) by {
            assert(gc.answers(v, b) == call_ensures(f, (v,), b));
            assert(r.check_fn.answers(v, b) == gc.answers(v, b));
        }
        r
    }

    /// Check a parsed value: a pass when the predicate holds, else a
    /// failure that names the requirement.
    pub fn check(&self, value: &T) -> (r: ValidationResult)
        ensures
            exists|b: bool|
                #[trigger] self.check_fn.answers(value, b) && r@ == typed_verdict(
                    self.description@,
                    b,
                ),
    {
        let holds = self.check_fn.holds(value);
        if holds {
            ValidationResult::Pass
        } else {
            let mut reason = String::new();
            push_str(&mut reason, "typed requirement not met: ");
            push_str(&mut reason, self.description.as_str());
            ValidationResult::Fail { reason }
        }
    }
}

} // verus!
