//! Errors of the library.
use vstd::prelude::*;

verus! {

/// The error that `reqwest` reports for a failed HTTP exchange; opaque here,
/// only carried inside `MelleaError::Http`.
#[verifier::external_type_specification]
#[verifier::external_body]
pub struct ExHttpError(reqwest::Error);

/// The error that `serde_json` reports for malformed JSON; opaque here, only
/// carried inside `MelleaError::Json`.
#[verifier::external_type_specification]
#[verifier::external_body]
pub struct ExJsonError(serde_json::Error);

/// Everything that can go wrong while generating.
#[derive(Debug)]
pub enum MelleaError {
    /// The backend answered with an error status.
    Backend(String),
    /// The output could not be parsed as the requested type.
    Parse { target_type: &'static str, reason: String, raw_output: String },
    /// Every attempt of the repair loop failed some requirement.
    ValidationFailed { attempts: u32, reason: String, history: Vec<ValidationAttempt> },
    /// The HTTP exchange failed.
    Http(reqwest::Error),
    /// A JSON body could not be read or written.
    Json(serde_json::Error),
    /// The Ollama client reported an error.
    Ollama(String),
    /// Any other failure.
    Other(String),
}

/// One failed attempt, as kept in the error history.
#[derive(Debug)]
pub struct ValidationAttempt {
    pub raw_output: String,
    pub failures: Vec<ValidationFailure>,
}

/// One requirement that an attempt did not meet, and why.
#[derive(Debug)]
pub struct ValidationFailure {
    pub requirement: String,
    pub reason: String,
}

impl Clone for ValidationFailure {
    fn clone(&self) -> (r: Self)
        ensures
            r == *self,
    {
        ValidationFailure { requirement: self.requirement.clone(), reason: self.reason.clone() }
    }
}

impl Clone for ValidationAttempt {
    fn clone(&self) -> (r: Self)
        ensures
            r.raw_output == self.raw_output,
            r.failures@ == self.failures@,
    {
        let mut failures: Vec<ValidationFailure> = Vec::new();
        let mut i: usize = 0;
        while i < self.failures.len()
            invariant
                i <= self.failures.len(),
                failures@ == self.failures@.take(i as int),
            decreases self.failures.len() - i,
        {
            failures.push(self.failures[i].clone());
            i = i + 1;
            assert(failures@ =~= self.failures@.take(i as int));
        }
        assert(failures@ =~= self.failures@);
        ValidationAttempt { raw_output: self.raw_output.clone(), failures }
    }
}

} // verus!
