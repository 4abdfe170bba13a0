//! Model output and the cleaning of JSON replies.
use vstd::prelude::*;
use crate::text::{
    contains_seq, lemma_first_index_exists, lemma_index_facts, lemma_last_index_exists,
    lemma_trim_idempotent, lemma_trim_shape, trim_end, trim_start,
    chars_of, ends_with, find_char, first_index, last_index, matches_at, rfind_char, starts_with,
    string_from_range, trim, trim_range,
};

verus! {

/// Token counts reported by a backend.
#[derive(Debug, Clone, Copy)]
pub struct Usage {
    pub prompt_tokens: u32,
    pub completion_tokens: u32,
    pub total_tokens: u32,
}

impl Default for Usage {
    fn default() -> (u: Self)
        ensures
            u.prompt_tokens == 0,
            u.completion_tokens == 0,
            u.total_tokens == 0,
    {
        Usage { prompt_tokens: 0, completion_tokens: 0, total_tokens: 0 }
    }
}

/// What one generation returned.
#[derive(Debug)]
pub struct ModelOutput {
    pub content: String,
    pub model: String,
    pub usage: Usage,
}

impl Clone for ModelOutput {
    fn clone(&self) -> (r: Self)
        ensures
            r == *self,
    {
        ModelOutput { content: self.content.clone(), model: self.model.clone(), usage: self.usage }
    }
}

/// The `response_format` type of a chat-completion request: JSON output is
/// asked for exactly when the request carries a schema.
pub fn response_format_type(has_schema: bool) -> (r: Option<String>)
    ensures
        has_schema ==> (r matches Some(t) && t@ == "json_object"@),
        !has_schema ==> r is None,
{
    if has_schema {
        Some("json_object".to_owned())
    } else {
        None
    }
}

impl ModelOutput {
    /// The output of a chat-completion reply: the text of the first choice
    /// (empty when there is no choice or it has no text) and the reported
    /// usage (zero when none was reported).
    pub fn from_completion(model: &str, choice_contents: Vec<Option<String>>, usage: Option<Usage>) -> (o:
        ModelOutput)
        ensures
            o.model@ == model@,
            choice_contents@.len() > 0 && choice_contents@[0] is Some ==> o.content
                == choice_contents@[0]->Some_0,
            !(choice_contents@.len() > 0 && choice_contents@[0] is Some) ==> o.content@.len() == 0,
            usage is Some ==> o.usage == usage->Some_0,
            usage is None ==> o.usage.prompt_tokens == 0 && o.usage.completion_tokens == 0
                && o.usage.total_tokens == 0,
    {
        let mut contents = choice_contents;
        let content = if contents.len() > 0 {
            match contents.remove(0) {
                Some(c) => c,
                None => String::new(),
            }
        } else {
            String::new()
        };
        let usage = match usage {
            Some(u) => u,
            None => Usage::default(),
        };
        ModelOutput { content, model: model.to_owned(), usage }
    }

    /// The JSON text that a parse of this output reads: the content with
    /// fences and surrounding prose removed.
    pub fn json_payload(&self) -> (s: String)
        ensures
            s@ == spec_strip_json(self.content@),
    {
        strip_json_artifacts(self.content.as_str())
    }

    /// The outcome of parsing this output as `target_type`, given what the
    /// JSON decoder returned for `json_payload()`: the value, or the
    /// decoder's error message, which becomes a parse error carrying the raw
    /// output.
    pub fn parse_outcome<T>(&self, target_type: &'static str, decoded: Result<T, String>) -> (r:
        Result<T, crate::error::MelleaError>)
        ensures
            decoded is Ok ==> r == Ok::<T, crate::error::MelleaError>(decoded->Ok_0),
            decoded is Err ==> (r matches Err(crate::error::MelleaError::Parse {
                target_type: t,
                reason,
                raw_output,
            }) && t == target_type && reason@ == decoded->Err_0@ && raw_output@ == self.content@),
    {
        match decoded {
            Ok(v) => Ok(v),
            Err(e) => Err(
                crate::error::MelleaError::Parse {
                    target_type,
                    reason: e,
                    raw_output: self.content.clone(),
                },
            ),
        }
    }
}

pub open spec fn fence() -> Seq<char> {
    seq!['`', '`', '`']
}

pub open spec fn fence_json() -> Seq<char> {
    seq!['`', '`', '`', 'j', 's', 'o', 'n']
}

/// The earlier of two optional positions.
pub open spec fn earlier(a: Option<int>, b: Option<int>) -> Option<int> {
    match (a, b) {
        (Some(x), Some(y)) => Some(if x <= y { x } else { y }),
        (Some(x), None) => Some(x),
        (None, y) => y,
    }
}

/// The later of two optional positions.
pub open spec fn later(a: Option<int>, b: Option<int>) -> Option<int> {
    match (a, b) {
        (Some(x), Some(y)) => Some(if x >= y { x } else { y }),
        (Some(x), None) => Some(x),
        (None, y) => y,
    }
}

/// Start of the JSON payload: the first `{` or `[`, whichever comes first.
pub open spec fn json_start(t: Seq<char>) -> Option<int> {
    earlier(first_index(t, '{'), first_index(t, '['))
}

/// End of the JSON payload: the last `}` or `]`, whichever comes last.
pub open spec fn json_end(t: Seq<char>) -> Option<int> {
    later(last_index(t, '}'), last_index(t, ']'))
}

/// What `strip_json_artifacts` returns for the text `s`.
pub open spec fn spec_strip_json(s: Seq<char>) -> Seq<char> {
    let t = trim(s);
    if starts_with(t, fence_json()) && ends_with(t.skip(7), fence()) {
        trim(t.subrange(7, t.len() - 3))
    } else if starts_with(t, fence()) && ends_with(t.skip(3), fence()) {
        trim(t.subrange(3, t.len() - 3))
    } else if json_start(t) is Some && json_end(t) is Some && json_start(t)->Some_0 <= json_end(
        t,
    )->Some_0 {
        t.subrange(json_start(t)->Some_0, json_end(t)->Some_0 + 1)
    } else {
        t
    }
}

fn find_json_start(cs: &Vec<char>) -> (r: Option<usize>)
    ensures
        r matches Some(i) ==> json_start(cs@) == Some(i as int) && i < cs.len(),
        r is None ==> json_start(cs@) is None,
{
    let brace = find_char(cs, '{');
    let bracket = find_char(cs, '[');
    match (brace, bracket) {
        (Some(x), Some(y)) => if x <= y {
            Some(x)
        } else {
            Some(y)
        },
        (Some(x), None) => Some(x),
        (None, y) => y,
    }
}

fn find_json_end(cs: &Vec<char>) -> (r: Option<usize>)
    ensures
        r matches Some(i) ==> json_end(cs@) == Some(i as int) && i < cs.len(),
        r is None ==> json_end(cs@) is None,
{
    let brace = rfind_char(cs, '}');
    let bracket = rfind_char(cs, ']');
    match (brace, bracket) {
        (Some(x), Some(y)) => if x >= y {
            Some(x)
        } else {
            Some(y)
        },
        (Some(x), None) => Some(x),
        (None, y) => y,
    }
}

/// Strips markdown code fences and leading or trailing prose from a reply
/// that should hold JSON.
pub fn strip_json_artifacts(s: &str) -> (r: String)
    ensures
        r@ == spec_strip_json(s@),
{
    let all = chars_of(s);
    let (lo, hi) = trim_range(&all, 0, all.len());
    assert(all@.subrange(0, all@.len() as int) =~= all@);
    let cs = string_from_range(&all, lo, hi);
    let t = chars_of(cs.as_str());
    let ghost tv = t@;
    assert(tv == trim(s@));
    let f = vec!['`', '`', '`'];
    let fj = vec!['`', '`', '`', 'j', 's', 'o', 'n'];
    assert(f@ =~= fence());
    assert(fj@ =~= fence_json());
    let n: usize = t.len();
    if matches_at(&t, 0, &fj) && n >= 10 && matches_at(&t, n - 3, &f) {
        assert(tv.skip(7).subrange(tv.skip(7).len() - 3, tv.skip(7).len() as int) =~= tv.subrange(
            n - 3,
            n as int,
        ));
        let (a, b) = trim_range(&t, 7, n - 3);
        return string_from_range(&t, a, b);
    }
    assert(!(starts_with(tv, fence_json()) && ends_with(tv.skip(7), fence()))) by {
        if starts_with(tv, fence_json()) && ends_with(tv.skip(7), fence()) {
            assert(tv.skip(7).subrange(tv.skip(7).len() - 3, tv.skip(7).len() as int) =~= tv.subrange(
                n - 3,
                n as int,
            ));
        }
    }
    if matches_at(&t, 0, &f) && n >= 6 && matches_at(&t, n - 3, &f) {
        assert(tv.skip(3).subrange(tv.skip(3).len() - 3, tv.skip(3).len() as int) =~= tv.subrange(
            n - 3,
            n as int,
        ));
        let (a, b) = trim_range(&t, 3, n - 3);
        return string_from_range(&t, a, b);
    }
    assert(!(starts_with(tv, fence()) && ends_with(tv.skip(3), fence()))) by {
        if starts_with(tv, fence()) && ends_with(tv.skip(3), fence()) {
            assert(tv.skip(3).subrange(tv.skip(3).len() - 3, tv.skip(3).len() as int) =~= tv.subrange(
                n - 3,
                n as int,
            ));
        }
    }
    let start = find_json_start(&t);
    let end = find_json_end(&t);
    if let Some(a) = start {
        if let Some(b) = end {
            if a <= b {
                assert(json_start(tv) == Some(a as int));
                assert(json_end(tv) == Some(b as int));
                return string_from_range(&t, a, b + 1);
            }
        }
    }
    assert(!(json_start(tv) is Some && json_end(tv) is Some && json_start(tv)->Some_0 <= json_end(tv)->Some_0));
    assert(t@.subrange(0, n as int) =~= t@);
    string_from_range(&t, 0, n)
}

pub open spec fn opens_json(c: char) -> bool {
    c == '{' || c == '['
}

pub open spec fn closes_json(c: char) -> bool {
    c == '}' || c == ']'
}

/// Text that starts with `{` or `[` and ends with `}` or `]` is its own
/// payload and has nothing around it to trim.
pub proof fn lemma_payload_shape(r: Seq<char>)
    requires
        r.len() > 0,
        opens_json(r[0]),
        closes_json(r.last()),
    ensures
        trim(r) == r,
        !starts_with(r, fence()),
        !starts_with(r, fence_json()),
        json_start(r) == Some(0int),
        json_end(r) == Some(r.len() - 1),
{
    assert(trim_start(r) == r);
    assert(trim_end(r) == r);
    assert(!starts_with(r, fence())) by {
        if starts_with(r, fence()) {
            assert(r.subrange(0, 3)[0] == '`');
        }
    }
    assert(!starts_with(r, fence_json())) by {
        if starts_with(r, fence_json()) {
            assert(r.subrange(0, 7)[0] == '`');
        }
    }
    lemma_index_facts(r, '{');
    lemma_index_facts(r, '[');
    lemma_index_facts(r, '}');
    lemma_index_facts(r, ']');
    lemma_first_index_exists(r, r[0], 0);
    lemma_last_index_exists(r, r.last(), r.len() - 1);
}

/// JSON text that already starts with `{` or `[` and ends with `}` or `]`
/// comes back unchanged.
pub proof fn law_clean_json_unchanged(s: Seq<char>)
    requires
        s.len() > 0,
        opens_json(s[0]),
        closes_json(s.last()),
    ensures
        spec_strip_json(s) == s,
{
    lemma_payload_shape(s);
    assert(s.subrange(0, s.len() as int) =~= s);
}

/// Without code fences in it, cleaning a reply twice gives what cleaning it
/// once gives.
pub proof fn law_strip_idempotent(s: Seq<char>)
    requires
        !contains_seq(s, fence()),
    ensures
        spec_strip_json(spec_strip_json(s)) == spec_strip_json(s),
{
    let t = trim(s);
    lemma_trim_shape(s);
    let (i, j) = choose|i: int, j: int| 0 <= i <= j <= s.len() && trim(s) == s.subrange(i, j);
    assert(!starts_with(t, fence())) by {
        if starts_with(t, fence()) {
            assert(s.subrange(i, i + 3) =~= t.subrange(0, 3));
            assert(s.subrange(i, i + fence().len()) == fence());
        }
    }
    assert(!starts_with(t, fence_json())) by {
        if starts_with(t, fence_json()) {
            assert(t[0] == t.subrange(0, 7)[0]);
            assert(t[1] == t.subrange(0, 7)[1]);
            assert(t[2] == t.subrange(0, 7)[2]);
            assert(t.subrange(0, 3) =~= fence());
        }
    }
    lemma_index_facts(t, '{');
    lemma_index_facts(t, '[');
    lemma_index_facts(t, '}');
    lemma_index_facts(t, ']');
    if json_start(t) is Some && json_end(t) is Some && json_start(t)->Some_0 <= json_end(t)->Some_0 {
        let a = json_start(t)->Some_0;
        let b = json_end(t)->Some_0;
        let r = t.subrange(a, b + 1);
        assert(r[0] == t[a]);
        assert(r.last() == t[b]);
        lemma_payload_shape(r);
        assert(r.subrange(0, r.len() as int) =~= r);
    } else {
        lemma_trim_idempotent(s);
    }
}

} // verus!
