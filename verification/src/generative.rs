//! Generative functions: a name, a description, typed parameters and a
//! return type, with the model providing the body.
use vstd::prelude::*;
use crate::instruction::Instruction;
use crate::json::{compact, jget, JsonValue, JsonView};
use crate::requirement::{decodes_as, JsonDecoder, Requirement};
use crate::session::parse_requirement_text;
use crate::text::push_str;

verus! {

/// A parameter of a generative function.
#[derive(Debug)]
pub struct ParamDef {
    pub name: String,
    /// Name of the parameter's Rust type.
    pub type_label: String,
    pub description: String,
}

impl Clone for ParamDef {
    fn clone(&self) -> (r: Self)
        ensures
            r == *self,
    {
        ParamDef {
            name: self.name.clone(),
            type_label: self.type_label.clone(),
            description: self.description.clone(),
        }
    }
}

/// A generative function returning `T`.
#[verifier::reject_recursive_types(T)]
pub struct GenerativeSlot<T> {
    pub name: String,
    pub description: String,
    pub params: Vec<ParamDef>,
    pub requirements: Vec<Requirement>,
    pub max_retries: u32,
    pub marker: std::marker::PhantomData<T>,
}

/// Builder for `GenerativeSlot`.
#[verifier::reject_recursive_types(T)]
pub struct GenerativeSlotBuilder<T> {
    pub name: String,
    pub description: String,
    pub params: Vec<ParamDef>,
    pub requirements: Vec<Requirement>,
    pub max_retries: u32,
    pub marker: std::marker::PhantomData<T>,
}

/// How an argument appears in the prompt: its JSON text, or a note that it
/// was not given.
pub open spec fn argument_text(args: JsonView, name: Seq<char>) -> Seq<char> {
    match jget(args, name) {
        Some(v) => compact(v),
        None => "(not provided)"@,
    }
}

/// The prompt line of one parameter.
pub open spec fn param_line(p: ParamDef, args: JsonView) -> Seq<char> {
    "- `"@ + p.name@ + "` ("@ + p.type_label@ + "): "@ + p.description@ + " = "@ + argument_text(
        args,
        p.name@,
    ) + "\n"@
}

/// The prompt lines of the parameters.
pub open spec fn param_lines(ps: Seq<ParamDef>, args: JsonView) -> Seq<char>
    decreases ps.len(),
{
    if ps.len() == 0 {
        Seq::empty()
    } else {
        param_lines(ps.drop_last(), args) + param_line(ps.last(), args)
    }
}

/// The task description given to the model for a call with `args`.
pub open spec fn call_description(
    name: Seq<char>,
    description: Seq<char>,
    params: Seq<ParamDef>,
    args: JsonView,
) -> Seq<char> {
    "You are implementing the function `"@ + name + "`.\n\n"@ + description + if params.len() > 0 {
        "\n\n## Parameters\n"@ + param_lines(params, args)
    } else {
        Seq::empty()
    }
}

/// How a call is recorded in the conversation: `name(args)`.
pub open spec fn call_text(name: Seq<char>, args: JsonView) -> Seq<char> {
    name + "("@ + compact(args) + ")"@
}

impl<T> GenerativeSlot<T> {
    pub fn builder() -> (b: GenerativeSlotBuilder<T>)
        ensures
            b.name@.len() == 0,
            b.description@.len() == 0,
            b.params@.len() == 0,
            b.requirements@.len() == 0,
            b.max_retries == 2,
    {
        proof {
            reveal_strlit("");
        }
        GenerativeSlotBuilder {
            name: "".to_owned(),
            description: "".to_owned(),
            params: Vec::new(),
            requirements: Vec::new(),
            max_retries: 2,
            marker: std::marker::PhantomData,
        }
    }

    /// The text that records a call with `args` in the conversation.
    pub fn call_record(&self, args: &JsonValue) -> (s: String)
        ensures
            s@ == call_text(self.name@, args@),
    {
        let mut s = self.name.clone();
        push_str(&mut s, "(");
        let a = args.to_compact_string();
        push_str(&mut s, a.as_str());
        push_str(&mut s, ")");
        s
    }

    /// The task description for a call with `args`.
    pub fn describe_call(&self, args: &JsonValue) -> (s: String)
        ensures
            s@ == call_description(self.name@, self.description@, self.params@, args@),
    {
        let mut desc = "You are implementing the function `".to_owned();
        push_str(&mut desc, self.name.as_str());
        push_str(&mut desc, "`.\n\n");
        push_str(&mut desc, self.description.as_str());
        let ghost head = desc@;
        if self.params.len() > 0 {
            push_str(&mut desc, "\n\n## Parameters\n");
            let mut i: usize = 0;
            assert(param_lines(self.params@.take(0), args@) =~= Seq::empty());
            while i < self.params.len()
                invariant
                    i <= self.params.len(),
                    desc@ == head + "\n\n## Parameters\n"@ + param_lines(
                        self.params@.take(i as int),
                        args@,
                    ),
                decreases self.params.len() - i,
            {
                let p = &self.params[i];
                push_str(&mut desc, "- `");
                push_str(&mut desc, p.name.as_str());
                push_str(&mut desc, "` (");
                push_str(&mut desc, p.type_label.as_str());
                push_str(&mut desc, "): ");
                push_str(&mut desc, p.description.as_str());
                push_str(&mut desc, " = ");
                match args.get(p.name.as_str()) {
                    Some(v) => {
                        let t = v.to_compact_string();
                        push_str(&mut desc, t.as_str());
                    },
                    None => push_str(&mut desc, "(not provided)"),
                }
                push_str(&mut desc, "\n");
                assert(self.params@.take(i + 1).drop_last() =~= self.params@.take(i as int));
                assert(desc@ =~= head + "\n\n## Parameters\n"@ + param_lines(
                    self.params@.take(i + 1),
                    args@,
                ));
                i = i + 1;
            }
            assert(self.params@.take(self.params.len() as int) =~= self.params@);
        }
        assert(desc@ =~= call_description(self.name@, self.description@, self.params@, args@));
        desc
    }

    /// The instruction for a call with `args`: the call description, the
    /// JSON schema of `T` (named `target`), a requirement that the output
    /// parses as `target` (decoded by `decoder`), then the function's own
    /// requirements with their own rules. Requirements hold user code and
    /// cannot be copied, so they move into the instruction;
    /// `take_back_requirements` returns them once the call is over.
    pub fn build_instruction<D: JsonDecoder + 'static>(
        &mut self,
        args: &JsonValue,
        schema: JsonValue,
        target: &str,
        decoder: D,
    ) -> (inst: Instruction)
        ensures
            inst.description@ == call_description(
                old(self).name@,
                old(self).description@,
                old(self).params@,
                args@,
            ),
            inst.json_schema == Some(schema),
            inst.schema_type matches Some(n) && n@ == target@,
            inst.grounding@.len() == 0,
            inst.examples@.len() == 0,
            inst.requirements@.len() == old(self).requirements@.len() + 1,
            inst.requirements@[0].description@ == parse_requirement_text(target@),
            decodes_as(inst.requirements@[0].rule, decoder),
            inst.requirements@.drop_first() == old(self).requirements@,
            final(self).requirements@.len() == 0,
            final(self).name == old(self).name,
            final(self).description == old(self).description,
            final(self).params == old(self).params,
            final(self).max_retries == old(self).max_retries,
    {
        let desc = self.describe_call(args);
        let mut inst = Instruction::new(desc.as_str()).with_json_schema(schema, target);
        let mut text = "output must be valid JSON that parses as ".to_owned();
        push_str(&mut text, target);
        inst = inst.require(Requirement::new(text.as_str()).parses_with(decoder));
        let mut own: Vec<Requirement> = Vec::new();
        std::mem::swap(&mut own, &mut self.requirements);
        let ghost first = inst.requirements@;
        let ghost moved = own@;
        inst.requirements.append(&mut own);
        assert(inst.requirements@ =~= first + moved);
        assert(inst.requirements@.drop_first() =~= moved);
        inst
    }

    /// Return to the function the requirements that `build_instruction`
    /// moved into `inst`: all of its requirements but the first, the parse
    /// requirement, go back after the function's present ones.
    pub fn take_back_requirements(&mut self, inst: Instruction)
        ensures
            final(self).requirements@ == old(self).requirements@ + returned_requirements(
                inst.requirements@,
            ),
            final(self).name == old(self).name,
            final(self).description == old(self).description,
            final(self).params == old(self).params,
            final(self).max_retries == old(self).max_retries,
    {
        let mut reqs = inst.requirements;
        if reqs.len() > 0 {
            reqs.remove(0);
        }
        let ghost before = self.requirements@;
        let ghost back = reqs@;
        self.requirements.append(&mut reqs);
        assert(self.requirements@ =~= before + back);
    }
}

/// The requirements that go back to a generative function from the
/// instruction of a call: all but the parse requirement in front.
pub open spec fn returned_requirements(reqs: Seq<Requirement>) -> Seq<Requirement> {
    if reqs.len() == 0 {
        reqs
    } else {
        reqs.drop_first()
    }
}

/// Building the instruction of a call and then taking the requirements back
/// leaves the function with the requirements it had, in order.
pub proof fn law_requirements_come_back(
    before: Seq<Requirement>,
    lent: Seq<Requirement>,
    left: Seq<Requirement>,
)
    requires
        lent.len() == before.len() + 1,
        lent.drop_first() == before,
        left.len() == 0,
    ensures
        left + returned_requirements(lent) == before,
{
    assert(left + returned_requirements(lent) =~= before);
}

impl<T> GenerativeSlotBuilder<T> {
    pub fn name(self, name: &str) -> (b: Self)
        ensures
            b.name@ == name@,
            b.description == self.description,
            b.params == self.params,
            b.requirements == self.requirements,
            b.max_retries == self.max_retries,
    {
        let mut b = self;
        b.name = name.to_owned();
        b
    }

    pub fn description(self, description: &str) -> (b: Self)
        ensures
            b.name == self.name,
            b.description@ == description@,
            b.params == self.params,
            b.requirements == self.requirements,
            b.max_retries == self.max_retries,
    {
        let mut b = self;
        b.description = description.to_owned();
        b
    }

    /// Add a parameter whose type is named `type_label`.
    pub fn param_labelled(self, name: &str, type_label: &str, description: &str) -> (b: Self)
        ensures
            b.name == self.name,
            b.description == self.description,
            b.params@.len() == self.params@.len() + 1,
            b.params@.take(self.params@.len() as int) == self.params@,
            b.params@.last().name@ == name@,
            b.params@.last().type_label@ == type_label@,
            b.params@.last().description@ == description@,
            b.requirements == self.requirements,
            b.max_retries == self.max_retries,
    {
        let mut b = self;
        let ghost before = b.params@;
        b.params.push(
            ParamDef {
                name: name.to_owned(),
                type_label: type_label.to_owned(),
                description: description.to_owned(),
            },
        );
        assert(b.params@.take(before.len() as int) =~= before);
        b
    }

    pub fn require(self, req: Requirement) -> (b: Self)
        ensures
            b.name == self.name,
            b.description == self.description,
            b.params == self.params,
            b.requirements@ == self.requirements@.push(req),
            b.max_retries == self.max_retries,
    {
        let mut b = self;
        b.requirements.push(req);
        b
    }

    pub fn max_retries(self, n: u32) -> (b: Self)
        ensures
            b.name == self.name,
            b.description == self.description,
            b.params == self.params,
            b.requirements == self.requirements,
            b.max_retries == n,
    {
        let mut b = self;
        b.max_retries = n;
        b
    }

    pub fn build(self) -> (s: GenerativeSlot<T>)
        ensures
            s.name == self.name,
            s.description == self.description,
            s.params == self.params,
            s.requirements == self.requirements,
            s.max_retries == self.max_retries,
    {
        GenerativeSlot {
            name: self.name,
            description: self.description,
            params: self.params,
            requirements: self.requirements,
            max_retries: self.max_retries,
            marker: std::marker::PhantomData,
        }
    }
}

} // verus!
verus! {

/// Adding a parameter adds one line to the description of a call: the
/// parameter's name, type, description, and after ` = ` the compact JSON
/// text of the argument given under its name, whatever its JSON type, or
/// `(not provided)` when there is none. The first parameter also opens the
/// `## Parameters` section.
pub proof fn law_call_description_of_param(
    name: Seq<char>,
    description: Seq<char>,
    params: Seq<ParamDef>,
    p: ParamDef,
    args: JsonView,
)
    ensures
        call_description(name, description, params.push(p), args) == call_description(
            name,
            description,
            params,
            args,
        ) + (if params.len() == 0 {
            "\n\n## Parameters\n"@
        } else {
            Seq::empty()
        }) + "- `"@ + p.name@ + "` ("@ + p.type_label@ + "): "@ + p.description@ + " = "@
            + match jget(args, p.name@) {
            Some(v) => compact(v),
            None => "(not provided)"@,
        } + "\n"@,
{
    let head = "You are implementing the function `"@ + name + "`.\n\n"@ + description;
    let section = "\n\n## Parameters\n"@;
    let line = param_line(p, args);
    assert(line == "- `"@ + p.name@ + "` ("@ + p.type_label@ + "): "@ + p.description@ + " = "@
        + argument_text(args, p.name@) + "\n"@);
    assert(params.push(p).drop_last() =~= params);
    assert(param_lines(params.push(p), args) == param_lines(params, args) + line);
    if params.len() == 0 {
        assert(param_lines(params, args) =~= Seq::<char>::empty());
        assert(call_description(name, description, params, args) =~= head);
        assert(call_description(name, description, params.push(p), args) =~= head + section + line);
    } else {
        assert(call_description(name, description, params, args) =~= head + section + param_lines(
            params,
            args,
        ));
        assert(call_description(name, description, params.push(p), args) =~= head + section
            + param_lines(params, args) + line);
    }
}

} // verus!
