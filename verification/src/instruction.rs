//! Instructions: what is asked of the model, with requirements, grounding
//! context, examples and an optional JSON response format.
use vstd::prelude::*;
use crate::json::{build_example_from_schema, pretty, schema_example, JsonValue, JsonView};
use crate::message::{ChatMessage, Role};
use crate::requirement::Requirement;
use crate::text::{decimal, decimal_string, join, join_strings, push_str};

verus! {

/// An in-context learning example: an input and the output wanted for it.
#[derive(Debug)]
pub struct Example {
    pub input: String,
    pub output: String,
}

impl Clone for Example {
    fn clone(&self) -> (r: Self)
        ensures
            r == *self,
    {
        Example { input: self.input.clone(), output: self.output.clone() }
    }
}

/// The primary component for specifying what is wanted from the model.
///
/// Combines a task description with requirements (checked by the repair
/// loop), grounding context (key-value pairs, each key once, in the order
/// first given), in-context examples, and a JSON response format.
pub struct Instruction {
    pub description: String,
    pub requirements: Vec<Requirement>,
    pub grounding: Vec<(String, String)>,
    pub examples: Vec<Example>,
    pub json_schema: Option<JsonValue>,
    pub schema_type: Option<String>,
}

/// Key and value text of grounding entries.
pub open spec fn grounding_view(g: Seq<(String, String)>) -> Seq<(Seq<char>, Seq<char>)> {
    g.map_values(|e: (String, String)| (e.0@, e.1@))
}

/// `i` is the first entry whose key is `key`.
pub open spec fn is_first_key(g: Seq<(Seq<char>, Seq<char>)>, key: Seq<char>, i: int) -> bool {
    &&& 0 <= i < g.len()
    &&& g[i].0 == key
    &&& forall|j: int| 0 <= j < i ==> (#[trigger] g[j]).0 != key
}

/// Position of the first entry for `key`.
pub open spec fn key_position(g: Seq<(Seq<char>, Seq<char>)>, key: Seq<char>) -> Option<int> {
    if exists|i: int| is_first_key(g, key, i) {
        Some(choose|i: int| is_first_key(g, key, i))
    } else {
        None
    }
}

pub proof fn lemma_key_position_first(g: Seq<(Seq<char>, Seq<char>)>, key: Seq<char>, i: int)
    requires
        is_first_key(g, key, i),
    ensures
        key_position(g, key) == Some(i),
{
    let k = choose|k: int| is_first_key(g, key, k);
    assert(is_first_key(g, key, k));
    if k < i {
        assert(g[k].0 != key);
    } else if i < k {
        assert(g[i].0 != key);
    }
}

pub proof fn lemma_key_position_absent(g: Seq<(Seq<char>, Seq<char>)>, key: Seq<char>)
    requires
        forall|i: int| 0 <= i < g.len() ==> (#[trigger] g[i]).0 != key,
    ensures
        key_position(g, key) is None,
{
    if exists|i: int| is_first_key(g, key, i) {
        let k = choose|k: int| is_first_key(g, key, k);
        assert(g[k].0 == key);
    }
}

/// Grounding after setting `key` to `value`: the entry for `key` gets the
/// new value in place, or a new entry is appended.
pub open spec fn ground_insert(g: Seq<(Seq<char>, Seq<char>)>, key: Seq<char>, value: Seq<char>) -> Seq<
    (Seq<char>, Seq<char>),
> {
    match key_position(g, key) {
        Some(i) => g.update(i, (key, value)),
        None => g.push((key, value)),
    }
}

/// No key occurs twice.
pub open spec fn unique_keys(g: Seq<(Seq<char>, Seq<char>)>) -> bool {
    forall|i: int, j: int| 0 <= i < g.len() && 0 <= j < g.len() && i != j ==> (#[trigger] g[i]).0 != (#[trigger] g[j]).0
}

/// The grounding entries as a map from key to value.
pub open spec fn grounding_map(g: Seq<(Seq<char>, Seq<char>)>) -> Map<Seq<char>, Seq<char>> {
    Map::new(|k: Seq<char>| key_position(g, k) is Some, |k: Seq<char>| g[key_position(g, k)->Some_0].1)
}

/// Prompt lines of the grounding context.
pub open spec fn context_parts(g: Seq<(Seq<char>, Seq<char>)>) -> Seq<Seq<char>> {
    g.map_values(|e: (Seq<char>, Seq<char>)| "### "@ + e.0 + "\n"@ + e.1)
}

/// Prompt block of the `n`-th example (counting from one).
pub open spec fn example_part(n: nat, e: Example) -> Seq<char> {
    "### Example "@ + decimal(n) + "\nInput: "@ + e.input@ + "\nOutput: "@ + e.output@
}

/// Prompt blocks of the examples, numbered from one.
pub open spec fn example_parts(es: Seq<Example>) -> Seq<Seq<char>> {
    Seq::new(es.len(), |i: int| example_part((i + 1) as nat, es[i]))
}

/// Prompt lines of the requirements.
pub open spec fn requirement_parts(rs: Seq<Requirement>) -> Seq<Seq<char>> {
    rs.map_values(|r: Requirement| "- "@ + r.description@)
}

/// The closing request for JSON output, showing `example`.
pub open spec fn schema_part(example: Seq<char>) -> Seq<char> {
    "\nRespond with ONLY valid JSON. Example format:\n"@ + example
        + "\nOutput raw JSON only. No other text, no markdown, no explanation."@
}

/// The prompt parts of an instruction, joined by newlines to make the prompt.
pub open spec fn prompt_parts(inst: Instruction) -> Seq<Seq<char>> {
    let g = grounding_view(inst.grounding@);
    seq![inst.description@] + (if g.len() > 0 {
        seq!["\n## Context"@] + context_parts(g)
    } else {
        Seq::empty()
    }) + (if inst.examples@.len() > 0 {
        seq!["\n## Examples"@] + example_parts(inst.examples@)
    } else {
        Seq::empty()
    }) + (if inst.requirements@.len() > 0 {
        seq!["\n## Requirements"@] + requirement_parts(inst.requirements@)
    } else {
        Seq::empty()
    }) + match inst.json_schema {
        Some(schema) => seq![schema_part(pretty(schema_example(schema@), Seq::empty()))],
        None => Seq::empty(),
    }
}

/// The prompt text of an instruction.
pub open spec fn prompt_text(inst: Instruction) -> Seq<char> {
    join(prompt_parts(inst), "\n"@)
}

/// Strings of `parts` as text.
pub open spec fn texts(parts: Seq<String>) -> Seq<Seq<char>> {
    parts.map_values(|p: String| p@)
}

proof fn lemma_texts_push(parts: Seq<String>, p: String)
    ensures
        texts(parts.push(p)) == texts(parts).push(p@),
{
    assert(texts(parts.push(p)) =~= texts(parts).push(p@));
}

impl Instruction {
    pub fn new(description: &str) -> (r: Self)
        ensures
            r.description@ == description@,
            r.requirements@.len() == 0,
            r.grounding@.len() == 0,
            r.examples@.len() == 0,
            r.json_schema is None,
            r.schema_type is None,
    {
        Instruction {
            description: description.to_owned(),
            requirements: Vec::new(),
            grounding: Vec::new(),
            examples: Vec::new(),
            json_schema: None,
            schema_type: None,
        }
    }

    /// Add a validation requirement.
    pub fn require(self, req: Requirement) -> (r: Self)
        ensures
            r.description == self.description,
            r.requirements@ == self.requirements@.push(req),
            r.grounding == self.grounding,
            r.examples == self.examples,
            r.json_schema == self.json_schema,
            r.schema_type == self.schema_type,
    {
        let mut s = self;
        s.requirements.push(req);
        s
    }

    /// Add grounding context: `key` maps to `value`, replacing an earlier
    /// value of `key`.
    pub fn ground(self, key: &str, value: &str) -> (r: Self)
        ensures
            r.description == self.description,
            r.requirements == self.requirements,
            grounding_view(r.grounding@) == ground_insert(grounding_view(self.grounding@), key@, value@),
            r.examples == self.examples,
            r.json_schema == self.json_schema,
            r.schema_type == self.schema_type,
    {
        let mut s = self;
        let ghost g = grounding_view(s.grounding@);
        let mut i: usize = 0;
        while i < s.grounding.len()
            invariant
                i <= s.grounding.len(),
                g == grounding_view(s.grounding@),
                g == grounding_view(self.grounding@),
                s.description == self.description,
                s.requirements == self.requirements,
                s.examples == self.examples,
                s.json_schema == self.json_schema,
                s.schema_type == self.schema_type,
                forall|j: int| 0 <= j < i ==> (#[trigger] g[j]).0 != key@,
            decreases s.grounding.len() - i,
        {
            if crate::json::same_text(s.grounding[i].0.as_str(), key) {
                proof {
                    lemma_key_position_first(g, key@, i as int);
                }
                let entry = (key.to_owned(), value.to_owned());
                s.grounding.set(i, entry);
                assert(grounding_view(s.grounding@) =~= g.update(i as int, (key@, value@)));
                return s;
            }
            i = i + 1;
        }
        proof {
            lemma_key_position_absent(g, key@);
        }
        s.grounding.push((key.to_owned(), value.to_owned()));
        assert(grounding_view(s.grounding@) =~= g.push((key@, value@)));
        s
    }

    /// Add an in-context learning example.
    pub fn example(self, input: &str, output: &str) -> (r: Self)
        ensures
            r.description == self.description,
            r.requirements == self.requirements,
            r.grounding == self.grounding,
            r.examples@.len() == self.examples@.len() + 1,
            r.examples@.take(self.examples@.len() as int) == self.examples@,
            r.examples@.last().input@ == input@,
            r.examples@.last().output@ == output@,
            r.json_schema == self.json_schema,
            r.schema_type == self.schema_type,
    {
        let mut s = self;
        let ghost old_examples = s.examples@;
        s.examples.push(Example { input: input.to_owned(), output: output.to_owned() });
        assert(s.examples@.take(old_examples.len() as int) =~= old_examples);
        s
    }

    /// Require JSON output conforming to `schema`, the JSON Schema of the
    /// type named `schema_name`.
    pub fn with_json_schema(self, schema: JsonValue, schema_name: &str) -> (r: Self)
        ensures
            r.description == self.description,
            r.requirements == self.requirements,
            r.grounding == self.grounding,
            r.examples == self.examples,
            r.json_schema == Some(schema),
            r.schema_type matches Some(n) && n@ == schema_name@,
    {
        let mut s = self;
        s.json_schema = Some(schema);
        s.schema_type = Some(schema_name.to_owned());
        s
    }

    /// Format this instruction into the chat messages of a request: one user
    /// message holding the prompt.
    pub fn to_messages(&self) -> (ms: Vec<ChatMessage>)
        ensures
            ms@.len() == 1,
            ms@[0].role == Role::User,
            ms@[0].content@ == prompt_text(*self),
    {
        let text = self.prompt();
        let m = ChatMessage::user(text.as_str());
        let ms = vec![m];
        ms
    }

    /// The prompt text of this instruction.
    pub fn prompt(&self) -> (t: String)
        ensures
            t@ == prompt_text(*self),
    {
        let mut parts: Vec<String> = Vec::new();
        parts.push(self.description.clone());
        let ghost g = grounding_view(self.grounding@);
        assert(texts(parts@) =~= seq![self.description@]);
        let ghost p1 = texts(parts@);
        if self.grounding.len() > 0 {
            parts.push("\n## Context".to_owned());
            let mut i: usize = 0;
            assert(texts(parts@) =~= p1 + seq!["\n## Context"@] + context_parts(g.take(0)));
            while i < self.grounding.len()
                invariant
                    i <= self.grounding.len(),
                    g == grounding_view(self.grounding@),
                    texts(parts@) == p1 + seq!["\n## Context"@] + context_parts(g.take(i as int)),
                decreases self.grounding.len() - i,
            {
                let (key, value) = &self.grounding[i];
                let mut line = "### ".to_owned();
                push_str(&mut line, key.as_str());
                push_str(&mut line, "\n");
                push_str(&mut line, value.as_str());
                let ghost before = parts@;
                parts.push(line);
                proof {
                    lemma_texts_push(before, line);
                    assert(g[i as int] == (key@, value@));
                    assert(context_parts(g.take(i + 1)) =~= context_parts(g.take(i as int)).push(
                        line@,
                    ));
                }
                i = i + 1;
            }
            assert(g.take(self.grounding.len() as int) =~= g);
        }
        let ghost p2 = texts(parts@);
        assert(p2 == p1 + (if g.len() > 0 {
            seq!["\n## Context"@] + context_parts(g)
        } else {
            Seq::empty()
        }));
        if self.examples.len() > 0 {
            parts.push("\n## Examples".to_owned());
            let mut i: usize = 0;
            assert(texts(parts@) =~= p2 + seq!["\n## Examples"@] + example_parts(
                self.examples@.take(0),
            ));
            while i < self.examples.len()
                invariant
                    i <= self.examples.len(),
                    texts(parts@) == p2 + seq!["\n## Examples"@] + example_parts(
                        self.examples@.take(i as int),
                    ),
                decreases self.examples.len() - i,
            {
                let ex = &self.examples[i];
                let mut block = "### Example ".to_owned();
                let number = decimal_string((i as u64) + 1);
                push_str(&mut block, number.as_str());
                push_str(&mut block, "\nInput: ");
                push_str(&mut block, ex.input.as_str());
                push_str(&mut block, "\nOutput: ");
                push_str(&mut block, ex.output.as_str());
                let ghost before = parts@;
                parts.push(block);
                proof {
                    lemma_texts_push(before, block);
                    assert(block@ == example_part((i + 1) as nat, self.examples@[i as int]));
                    assert(example_parts(self.examples@.take(i + 1)) =~= example_parts(
                        self.examples@.take(i as int),
                    ).push(block@));
                }
                i = i + 1;
            }
            assert(self.examples@.take(self.examples.len() as int) =~= self.examples@);
        }
        let ghost p3 = texts(parts@);
        assert(p3 == p2 + (if self.examples@.len() > 0 {
            seq!["\n## Examples"@] + example_parts(self.examples@)
        } else {
            Seq::empty()
        }));
        if self.requirements.len() > 0 {
            parts.push("\n## Requirements".to_owned());
            let mut i: usize = 0;
            assert(texts(parts@) =~= p3 + seq!["\n## Requirements"@] + requirement_parts(
                self.requirements@.take(0),
            ));
            while i < self.requirements.len()
                invariant
                    i <= self.requirements.len(),
                    texts(parts@) == p3 + seq!["\n## Requirements"@] + requirement_parts(
                        self.requirements@.take(i as int),
                    ),
                decreases self.requirements.len() - i,
            {
                let mut line = "- ".to_owned();
                push_str(&mut line, self.requirements[i].description.as_str());
                let ghost before = parts@;
                parts.push(line);
                proof {
                    lemma_texts_push(before, line);
                    assert(requirement_parts(self.requirements@.take(i + 1)) =~= requirement_parts(
                        self.requirements@.take(i as int),
                    ).push(line@));
                }
                i = i + 1;
            }
            assert(self.requirements@.take(self.requirements.len() as int) =~= self.requirements@);
        }
        let ghost p4 = texts(parts@);
        assert(p4 == p3 + (if self.requirements@.len() > 0 {
            seq!["\n## Requirements"@] + requirement_parts(self.requirements@)
        } else {
            Seq::empty()
        }));
        match &self.json_schema {
            Some(schema) => {
                let example = build_example_from_schema(schema);
                let mut block = "\nRespond with ONLY valid JSON. Example format:\n".to_owned();
                push_str(&mut block, example.as_str());
                push_str(
                    &mut block,
                    "\nOutput raw JSON only. No other text, no markdown, no explanation.",
                );
                let ghost before = parts@;
                parts.push(block);
                proof {
                    lemma_texts_push(before, block);
                }
            },
            None => {},
        }
        assert(texts(parts@) =~= prompt_parts(*self));
        join_strings(&parts, "\n")
    }
}

/// Setting a grounding key keeps keys unique and acts on the grounding as a
/// map insertion does.
pub proof fn law_ground_is_map_insert(g: Seq<(Seq<char>, Seq<char>)>, key: Seq<char>, value: Seq<char>)
    requires
        unique_keys(g),
    ensures
        unique_keys(ground_insert(g, key, value)),
        grounding_map(ground_insert(g, key, value)) == grounding_map(g).insert(key, value),
{
    let h = ground_insert(g, key, value);
    let p: int = match key_position(g, key) {
        Some(p) => p,
        None => g.len() as int,
    };
    if key_position(g, key) is Some {
        assert(is_first_key(g, key, p));
        assert(h =~= g.update(p, (key, value)));
    } else {
        assert forall|i: int| 0 <= i < g.len() implies (#[trigger] g[i]).0 != key by {
            if g[i].0 == key {
                assert(is_first_key(g, key, i));
            }
        }
        assert(h =~= g.push((key, value)));
    }
    assert(h.len() == if p < g.len() { g.len() } else { g.len() + 1 });
    assert forall|i: int| 0 <= i < h.len() implies (#[trigger] h[i]).0 == if i == p {
        key
    } else {
        g[i].0
    } && h[i].1 == if i == p {
        value
    } else {
        g[i].1
    } by {}
    assert(unique_keys(h)) by {
        assert forall|i: int, j: int|
            0 <= i < h.len() && 0 <= j < h.len() && i != j implies (#[trigger] h[i]).0 != (
            #[trigger] h[j]).0 by {
            if i != p && j != p {
                assert(g[i].0 != g[j].0);
            } else if i == p && j != p {
                if p < g.len() {
                    assert(g[p].0 != g[j].0);
                } else {
                    assert(g[j].0 != key);
                }
            } else if j == p && i != p {
                if p < g.len() {
                    assert(g[p].0 != g[i].0);
                } else {
                    assert(g[i].0 != key);
                }
            }
        }
    }
    assert forall|k: Seq<char>| #[trigger] grounding_map(h).contains_key(k) == grounding_map(
        g,
    ).insert(key, value).contains_key(k) && (grounding_map(h).contains_key(k) ==> grounding_map(h)[k]
        == grounding_map(g).insert(key, value)[k]) by {
        if k == key {
            lemma_key_position_first(h, k, p);
        } else if exists|i: int| 0 <= i < g.len() && (#[trigger] g[i]).0 == k {
            let i = choose|i: int| 0 <= i < g.len() && (#[trigger] g[i]).0 == k;
            assert(i != p);
            assert(is_first_key(g, k, i));
            lemma_key_position_first(g, k, i);
            assert(is_first_key(h, k, i));
            lemma_key_position_first(h, k, i);
        } else {
            lemma_key_position_absent(g, k);
            assert forall|i: int| 0 <= i < h.len() implies (#[trigger] h[i]).0 != k by {
                if i != p {
                    assert(g[i].0 != k);
                }
            }
            lemma_key_position_absent(h, k);
        }
    }
    assert(grounding_map(h) =~= grounding_map(g).insert(key, value));
}

} // verus!
verus! {

proof fn lemma_join_push(parts: Seq<Seq<char>>, sep: Seq<char>, x: Seq<char>)
    requires
        parts.len() > 0,
    ensures
        join(parts.push(x), sep) == join(parts, sep) + sep + x,
{
    assert(parts.push(x).drop_last() =~= parts);
}

/// Adding a requirement to an instruction that asks for no JSON format adds
/// to the prompt one line that names that requirement: right after the
/// lines of the earlier requirements, or under a new `## Requirements`
/// heading when it is the first.
pub proof fn law_prompt_of_require(inst: Instruction, req: Requirement, next: Instruction)
    requires
        inst.json_schema is None,
        next.description == inst.description,
        next.grounding == inst.grounding,
        next.examples == inst.examples,
        next.json_schema == inst.json_schema,
        next.requirements@ == inst.requirements@.push(req),
    ensures
        inst.requirements@.len() > 0 ==> prompt_text(next) == prompt_text(inst) + "\n- "@
            + req.description@,
        inst.requirements@.len() == 0 ==> prompt_text(next) == prompt_text(inst)
            + "\n\n## Requirements\n- "@ + req.description@,
{
    let p = prompt_parts(inst);
    let line = "- "@ + req.description@;
    assert(requirement_parts(inst.requirements@.push(req)) =~= requirement_parts(
        inst.requirements@,
    ).push(line));
    if inst.requirements@.len() > 0 {
        assert(prompt_parts(next) =~= p.push(line));
        lemma_join_push(p, "\n"@, line);
        reveal_strlit("\n");
        reveal_strlit("- ");
        reveal_strlit("\n- ");
        assert("\n"@ + "- "@ =~= "\n- "@);
        assert(prompt_text(next) =~= prompt_text(inst) + "\n- "@ + req.description@);
    } else {
        assert(prompt_parts(next) =~= p.push("\n## Requirements"@).push(line));
        lemma_join_push(p, "\n"@, "\n## Requirements"@);
        lemma_join_push(p.push("\n## Requirements"@), "\n"@, line);
        reveal_strlit("\n");
        reveal_strlit("- ");
        reveal_strlit("\n## Requirements");
        reveal_strlit("\n\n## Requirements\n- ");
        assert("\n"@ + "\n## Requirements"@ + "\n"@ + "- "@ =~= "\n\n## Requirements\n- "@);
        assert(prompt_text(next) =~= prompt_text(inst) + "\n\n## Requirements\n- "@
            + req.description@);
    }
}

/// The prompt's requirement lines name the requirements one by one: the
/// `i`-th line after the `## Requirements` heading is `- ` and the `i`-th
/// requirement's description.
pub proof fn law_requirement_lines(inst: Instruction)
    requires
        inst.requirements@.len() > 0,
    ensures
        exists|k: int|
            0 <= k && k + inst.requirements@.len() < prompt_parts(inst).len() && prompt_parts(inst)[k]
                == "\n## Requirements"@ && forall|i: int|
                0 <= i < inst.requirements@.len() ==> #[trigger] prompt_parts(inst)[k + 1 + i]
                    == "- "@ + inst.requirements@[i].description@,
{
    let g = grounding_view(inst.grounding@);
    let a = seq![inst.description@] + (if g.len() > 0 {
        seq!["\n## Context"@] + context_parts(g)
    } else {
        Seq::empty()
    }) + (if inst.examples@.len() > 0 {
        seq!["\n## Examples"@] + example_parts(inst.examples@)
    } else {
        Seq::empty()
    });
    let k = a.len() as int;
    let rp = requirement_parts(inst.requirements@);
    assert(prompt_parts(inst) == a + (seq!["\n## Requirements"@] + rp) + match inst.json_schema {
        Some(schema) => seq![schema_part(pretty(schema_example(schema@), Seq::empty()))],
        None => Seq::<Seq<char>>::empty(),
    });
    assert(prompt_parts(inst)[k] == "\n## Requirements"@);
    assert forall|i: int| 0 <= i < inst.requirements@.len() implies #[trigger] prompt_parts(inst)[k + 1 + i]
        == "- "@ + inst.requirements@[i].description@ by {
        assert(rp[i] == "- "@ + inst.requirements@[i].description@);
    }
}

} // verus!
