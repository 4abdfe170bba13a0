//! JSON values as the library reads and writes them: schemas handed to the
//! prompt builder, the example objects derived from them, and arguments of
//! generative functions.
use vstd::prelude::*;
use crate::text::{
    chars_of, contains_seq, contains_str, matches_at, push_char, push_str, starts_with,
    string_from_range,
};

verus! {

/// A JSON value. Numbers keep their literal text; objects keep their
/// entries in order.
#[derive(Debug)]
pub enum JsonValue {
    Null,
    Bool(bool),
    Number(String),
    Str(String),
    Array(Vec<JsonValue>),
    Object(Vec<(String, JsonValue)>),
}

/// The mathematical model of a `JsonValue`.
#[verifier::ext_equal]
pub enum JsonView {
    Null,
    Bool(bool),
    Number(Seq<char>),
    Str(Seq<char>),
    Array(Seq<JsonView>),
    Object(Seq<(Seq<char>, JsonView)>),
}

impl JsonValue {
    /// The model of this value.
    pub open spec fn model(&self) -> JsonView
        decreases self,
    {
        match self {
            JsonValue::Null => JsonView::Null,
            JsonValue::Bool(b) => JsonView::Bool(*b),
            JsonValue::Number(n) => JsonView::Number(n@),
            JsonValue::Str(s) => JsonView::Str(s@),
            JsonValue::Array(vs) => JsonView::Array(
                Seq::new(
                    vs@.len(),
                    |i: int|
                        if 0 <= i < vs@.len() {
                            vs@[i].model()
                        } else {
                            JsonView::Null
                        },
                ),
            ),
            JsonValue::Object(es) => JsonView::Object(
                Seq::new(
                    es@.len(),
                    |i: int|
                        if 0 <= i < es@.len() {
                            (es@[i].0@, es@[i].1.model())
                        } else {
                            (Seq::empty(), JsonView::Null)
                        },
                ),
            ),
        }
    }
}

impl View for JsonValue {
    type V = JsonView;

    open spec fn view(&self) -> JsonView {
        self.model()
    }
}

/// The value of the first entry named `key`.
pub open spec fn entry_lookup(es: Seq<(Seq<char>, JsonView)>, key: Seq<char>) -> Option<JsonView>
    decreases es.len(),
{
    if es.len() == 0 {
        None
    } else if es[0].0 == key {
        Some(es[0].1)
    } else {
        entry_lookup(es.drop_first(), key)
    }
}

/// Member `key` of an object; nothing for other values.
pub open spec fn jget(v: JsonView, key: Seq<char>) -> Option<JsonView> {
    match v {
        JsonView::Object(es) => entry_lookup(es, key),
        _ => None,
    }
}

/// The text of a string value.
pub open spec fn jstr(v: Option<JsonView>) -> Option<Seq<char>> {
    match v {
        Some(JsonView::Str(s)) => Some(s),
        _ => None,
    }
}

/// A member found by `entry_lookup` is smaller than the entry list.
pub proof fn lemma_lookup_decreases(es: Seq<(Seq<char>, JsonView)>, key: Seq<char>)
    requires
        entry_lookup(es, key) is Some,
    ensures
        decreases_to!(es => entry_lookup(es, key)->Some_0),
    decreases es.len(),
{
    if es[0].0 == key {
        assert(decreases_to!(es => es[0]));
        assert(decreases_to!(es[0] => es[0].1));
    } else {
        lemma_lookup_decreases(es.drop_first(), key);
        assert(decreases_to!(es => es.drop_first()));
    }
}


/// Unicode lower-case mapping of `s`, as `str::to_lowercase` computes it.
pub uninterp spec fn lowercase(s: Seq<char>) -> Seq<char>;

/// The lower-case form of `s`, computed by `str::to_lowercase`. The contract
/// only ties the result to the name `lowercase` of its argument; which
/// characters map to which is left to the standard library's Unicode tables.
#[verifier::external_body]
fn lowercase_of(s: &str) -> (r: String)
    ensures
        r@ == lowercase(s@),
{
    s.to_lowercase()
}

/// Prefix of a reference into the schema's definitions.
pub open spec fn defs_prefix() -> Seq<char> {
    seq!['#', '/', 'd', 'e', 'f', 'i', 'n', 'i', 't', 'i', 'o', 'n', 's', '/']
}

pub open spec fn empty_object() -> JsonView {
    JsonView::Object(Seq::empty())
}

/// The declared `type` of a schema node, `object` when there is none.
pub open spec fn schema_type(node: JsonView) -> Seq<char> {
    match jstr(jget(node, "type"@)) {
        Some(t) => t,
        None => "object"@,
    }
}

/// Lower-case text that speaks of a ratio or a confidence.
pub open spec fn fractional_text(l: Seq<char>) -> bool {
    contains_seq(l, "0.0"@) || contains_seq(l, "1.0"@) || contains_seq(l, "confidence"@)
}

/// A number described as a ratio or confidence gets a fractional example.
pub open spec fn fractional_hint(description: Seq<char>) -> bool {
    fractional_text(lowercase(description))
}

/// The example of a number whose description, in lower case, is `l`.
pub open spec fn number_example_view(l: Seq<char>) -> JsonView {
    if fractional_text(l) {
        JsonView::Number("0.85"@)
    } else {
        JsonView::Number("0"@)
    }
}

/// The example for a schema node that is neither a reference, an object
/// nor an array.
pub open spec fn scalar_example(t: Seq<char>, description: Option<Seq<char>>) -> JsonView {
    if t == "number"@ {
        match description {
            Some(d) => if fractional_hint(d) {
                JsonView::Number("0.85"@)
            } else {
                JsonView::Number("0"@)
            },
            None => JsonView::Number("0"@),
        }
    } else if t == "integer"@ {
        JsonView::Number("0"@)
    } else if t == "boolean"@ {
        JsonView::Bool(true)
    } else {
        match description {
            Some(d) => JsonView::Str("<"@ + d + ">"@),
            None => JsonView::Str("..."@),
        }
    }
}

/// Where a `$ref` node points: nothing when the node has no `$ref` string,
/// `Some(None)` when the reference does not resolve into the root's
/// definitions, `Some(Some(def))` when it does.
pub open spec fn ref_target(node: JsonView, root: JsonView) -> Option<Option<JsonView>> {
    match jstr(jget(node, "$ref"@)) {
        None => None,
        Some(path) => if starts_with(path, defs_prefix()) {
            match jget(root, "definitions"@) {
                Some(d) => Some(jget(d, path.skip(defs_prefix().len() as int))),
                None => Some(None),
            }
        } else {
            Some(None)
        },
    }
}

/// The name of the definition that a node's `$ref` points to.
pub open spec fn ref_key(node: JsonView) -> Seq<char> {
    match jstr(jget(node, "$ref"@)) {
        Some(path) => path.skip(defs_prefix().len() as int),
        None => Seq::empty(),
    }
}

/// The example value for a schema node: references are followed into the
/// root's definitions, objects get an example for each property, arrays
/// one example item, and scalars a placeholder of their type. `visiting`
/// names the definitions being expanded along the path from the top: a
/// reference to one of them is not expanded again but gets `{}`. `fuel`
/// bounds the number of references followed along one path; `None` means
/// it ran out, which cannot happen from the top (`lemma_example_exists`).
pub open spec fn example_of(node: JsonView, root: JsonView, visiting: Seq<Seq<char>>, fuel: nat) -> Option<JsonView>
    decreases fuel, node,
{
    match ref_target(node, root) {
        Some(Some(def)) => if visiting.contains(ref_key(node)) {
            Some(empty_object())
        } else if fuel == 0 {
            None
        } else {
            example_of(def, root, visiting.push(ref_key(node)), (fuel - 1) as nat)
        },
        Some(None) => Some(empty_object()),
        None => {
            let t = schema_type(node);
            if t == "object"@ {
                match jget(node, "properties"@) {
                    Some(JsonView::Object(props)) => {
                        proof {
                            if let JsonView::Object(es) = node {
                                lemma_lookup_decreases(es, "properties"@);
                            }
                        }
                        match props_example(props, root, visiting, fuel) {
                            Some(fs) => Some(JsonView::Object(fs)),
                            None => None,
                        }
                    },
                    _ => Some(empty_object()),
                }
            } else if t == "array"@ {
                match jget(node, "items"@) {
                    Some(items) => {
                        proof {
                            if let JsonView::Object(es) = node {
                                lemma_lookup_decreases(es, "items"@);
                            }
                        }
                        match example_of(items, root, visiting, fuel) {
                            Some(x) => Some(JsonView::Array(seq![x])),
                            None => None,
                        }
                    },
                    None => Some(JsonView::Array(seq![JsonView::Str("..."@)])),
                }
            } else {
                Some(scalar_example(t, jstr(jget(node, "description"@))))
            }
        },
    }
}

/// Examples for each property, in order.
pub open spec fn props_example(props: Seq<(Seq<char>, JsonView)>, root: JsonView, visiting: Seq<Seq<char>>, fuel: nat) -> Option<
    Seq<(Seq<char>, JsonView)>,
>
    decreases fuel, props,
{
    if props.len() == 0 {
        Some(Seq::empty())
    } else {
        proof {
            assert(decreases_to!(props => props[props.len() - 1]));
        }
        match (props_example(props.drop_last(), root, visiting, fuel), example_of(props.last().1, root, visiting, fuel)) {
            (Some(fs), Some(x)) => Some(fs.push((props.last().0, x))),
            _ => None,
        }
    }
}

/// The examples of a property list exist exactly when each property has
/// one; they then keep the properties' names, in order, each with the
/// example of its schema.
pub proof fn lemma_props_example(props: Seq<(Seq<char>, JsonView)>, root: JsonView, visiting: Seq<Seq<char>>, fuel: nat)
    ensures
        props_example(props, root, visiting, fuel) is Some <==> forall|i: int|
            0 <= i < props.len() ==> (#[trigger] example_of(props[i].1, root, visiting, fuel)) is Some,
        props_example(props, root, visiting, fuel) matches Some(fs) ==> {
            &&& fs.len() == props.len()
            &&& forall|i: int|
                0 <= i < props.len() ==> (#[trigger] fs[i]).0 == props[i].0 && Some(fs[i].1)
                    == example_of(props[i].1, root, visiting, fuel)
        },
    decreases props.len(),
{
    if props.len() > 0 {
        let init = props.drop_last();
        lemma_props_example(init, root, visiting, fuel);
        assert forall|i: int| 0 <= i < init.len() implies #[trigger] init[i] == props[i] by {}
        if props_example(props, root, visiting, fuel) is Some {
            let fs = props_example(props, root, visiting, fuel)->Some_0;
            let gs = props_example(init, root, visiting, fuel)->Some_0;
            assert forall|i: int| 0 <= i < props.len() implies (#[trigger] fs[i]).0 == props[i].0
                && Some(fs[i].1) == example_of(props[i].1, root, visiting, fuel) by {
                if i < init.len() {
                    assert(fs[i] == gs[i]);
                    assert(init[i] == props[i]);
                }
            }
            assert forall|i: int| 0 <= i < props.len() implies (#[trigger] example_of(
                props[i].1,
                root,
                visiting,
                fuel,
            )) is Some by {
                assert(Some(fs[i].1) == example_of(props[i].1, root, visiting, fuel));
            }
        } else {
            if props_example(init, root, visiting, fuel) is None {
                let k = choose|k: int|
                    0 <= k < init.len() && !(#[trigger] example_of(init[k].1, root, visiting, fuel) is Some);
                assert(init[k] == props[k]);
                assert(!(example_of(props[k].1, root, visiting, fuel) is Some));
            } else {
                assert(!(example_of(props[props.len() - 1].1, root, visiting, fuel) is Some));
            }
        }
    }
}

/// An object schema (one with no `$ref`, whose `type` is `"object"`,
/// absent or not a string) with a `properties` object has an example
/// exactly when each property does: an object with the properties' names,
/// in order, each bound to the example of its schema.
pub proof fn law_object_example(
    node: JsonView,
    root: JsonView,
    visiting: Seq<Seq<char>>,
    fuel: nat,
    props: Seq<(Seq<char>, JsonView)>,
)
    requires
        ref_target(node, root) is None,
        schema_type(node) == "object"@,
        jget(node, "properties"@) == Some(JsonView::Object(props)),
    ensures
        example_of(node, root, visiting, fuel) is Some <==> forall|i: int|
            0 <= i < props.len() ==> (#[trigger] example_of(props[i].1, root, visiting, fuel)) is Some,
        example_of(node, root, visiting, fuel) matches Some(v) ==> v matches JsonView::Object(fs) && {
            &&& fs.len() == props.len()
            &&& forall|i: int|
                0 <= i < props.len() ==> (#[trigger] fs[i]).0 == props[i].0 && Some(fs[i].1)
                    == example_of(props[i].1, root, visiting, fuel)
        },
{
    lemma_props_example(props, root, visiting, fuel);
}

/// An array schema (one with no `$ref` whose `type` is `"array"`) has as
/// example a one-item array holding the example of its `items` schema, or,
/// without `items`, the array `["..."]`.
pub proof fn law_array_example(node: JsonView, root: JsonView, visiting: Seq<Seq<char>>, fuel: nat)
    requires
        ref_target(node, root) is None,
        schema_type(node) == "array"@,
    ensures
        jget(node, "items"@) matches Some(items) ==> example_of(node, root, visiting, fuel) == match example_of(
            items,
            root,
            visiting,
            fuel,
        ) {
            Some(x) => Some(JsonView::Array(seq![x])),
            None => None,
        },
        jget(node, "items"@) is None ==> example_of(node, root, visiting, fuel) == Some(
            JsonView::Array(seq![JsonView::Str("..."@)]),
        ),
{
    assert(schema_type(node) != "object"@) by {
        reveal_strlit("array");
        reveal_strlit("object");
        assert("array"@[0] != "object"@[0]);
    }
}

/// Number of entries of the root's definitions.
pub open spec fn definition_count(root: JsonView) -> nat {
    match jget(root, "definitions"@) {
        Some(JsonView::Object(es)) => es.len(),
        _ => 0,
    }
}

/// The names of the root's definitions, in order.
pub open spec fn definition_names(root: JsonView) -> Seq<Seq<char>> {
    match jget(root, "definitions"@) {
        Some(JsonView::Object(es)) => es.map_values(|e: (Seq<char>, JsonView)| e.0),
        _ => Seq::empty(),
    }
}

/// `visiting` may be the definitions under expansion along one path, with
/// `fuel` references left to follow: distinct names of definitions, and
/// enough fuel to expand every other definition once more.
pub open spec fn expansion_path(root: JsonView, visiting: Seq<Seq<char>>, fuel: nat) -> bool {
    &&& visiting.no_duplicates()
    &&& forall|i: int| 0 <= i < visiting.len() ==> definition_names(root).contains(#[trigger] visiting[i])
    &&& visiting.len() + fuel >= definition_count(root)
}

/// A name found by `entry_lookup` is among the entries' names.
proof fn lemma_lookup_name(es: Seq<(Seq<char>, JsonView)>, key: Seq<char>)
    requires
        entry_lookup(es, key) is Some,
    ensures
        es.map_values(|e: (Seq<char>, JsonView)| e.0).contains(key),
    decreases es.len(),
{
    let names = es.map_values(|e: (Seq<char>, JsonView)| e.0);
    if es[0].0 == key {
        assert(names[0] == key);
    } else {
        lemma_lookup_name(es.drop_first(), key);
        let rest = es.drop_first().map_values(|e: (Seq<char>, JsonView)| e.0);
        let j = choose|j: int| 0 <= j < rest.len() && rest[j] == key;
        assert(names[j + 1] == rest[j]);
    }
}

/// Distinct names, each one of `names`, are no more than `names`.
proof fn lemma_distinct_names_bound(names: Seq<Seq<char>>, v: Seq<Seq<char>>)
    requires
        v.no_duplicates(),
        forall|i: int| 0 <= i < v.len() ==> names.contains(#[trigger] v[i]),
    ensures
        v.len() <= names.len(),
{
    broadcast use vstd::seq_lib::seq_to_set_is_finite;

    v.unique_seq_to_set();
    names.lemma_cardinality_of_set();
    assert forall|x: Seq<char>| v.to_set().contains(x) implies names.to_set().contains(x) by {
        let i = choose|i: int| 0 <= i < v.len() && v[i] == x;
        assert(names.contains(v[i]));
    }
    vstd::set_lib::lemma_len_subset(v.to_set(), names.to_set());
}

/// Along an expansion path the example always exists: a reference to a
/// definition under expansion gets `{}`, and the fuel left suffices for
/// the definitions not yet under expansion.
pub proof fn lemma_example_exists(node: JsonView, root: JsonView, visiting: Seq<Seq<char>>, fuel: nat)
    requires
        expansion_path(root, visiting, fuel),
    ensures
        example_of(node, root, visiting, fuel) is Some,
    decreases fuel, node,
{
    match ref_target(node, root) {
        Some(Some(def)) => {
            let name = ref_key(node);
            if !visiting.contains(name) {
                let d = jget(root, "definitions"@)->Some_0;
                let es = d->Object_0;
                lemma_lookup_name(es, name);
                let next = visiting.push(name);
                assert forall|i: int, j: int| 0 <= i < j < next.len() implies next[i] != next[j] by {
                    if j == visiting.len() {
                        assert(visiting.contains(visiting[i]));
                    }
                }
                assert forall|i: int| 0 <= i < next.len() implies definition_names(root).contains(
                    #[trigger] next[i],
                ) by {
                    if i < visiting.len() {
                        assert(next[i] == visiting[i]);
                    }
                }
                lemma_distinct_names_bound(definition_names(root), next);
                lemma_example_exists(def, root, next, (fuel - 1) as nat);
            }
        },
        Some(None) => {},
        None => {
            let t = schema_type(node);
            if t == "object"@ {
                match jget(node, "properties"@) {
                    Some(JsonView::Object(props)) => {
                        if let JsonView::Object(es) = node {
                            lemma_lookup_decreases(es, "properties"@);
                        }
                        lemma_props_exist(props, root, visiting, fuel);
                    },
                    _ => {},
                }
            } else if t == "array"@ {
                match jget(node, "items"@) {
                    Some(items) => {
                        if let JsonView::Object(es) = node {
                            lemma_lookup_decreases(es, "items"@);
                        }
                        lemma_example_exists(items, root, visiting, fuel);
                    },
                    None => {},
                }
            }
        },
    }
}

/// Along an expansion path every property list has its examples.
pub proof fn lemma_props_exist(
    props: Seq<(Seq<char>, JsonView)>,
    root: JsonView,
    visiting: Seq<Seq<char>>,
    fuel: nat,
)
    requires
        expansion_path(root, visiting, fuel),
    ensures
        props_example(props, root, visiting, fuel) is Some,
    decreases fuel, props,
{
    if props.len() > 0 {
        assert(decreases_to!(props => props[props.len() - 1]));
        lemma_props_exist(props.drop_last(), root, visiting, fuel);
        lemma_example_exists(props.last().1, root, visiting, fuel);
    }
}

/// The example value for a schema node within the schema `root`:
/// references are followed into the root's definitions, and a reference to
/// a definition that is already being expanded on the way there gets `{}`.
pub open spec fn node_example(node: JsonView, root: JsonView) -> JsonView {
    match example_of(node, root, Seq::empty(), definition_count(root)) {
        Some(v) => v,
        None => empty_object(),
    }
}

/// The example value for a whole schema.
pub open spec fn schema_example(schema: JsonView) -> JsonView {
    node_example(schema, schema)
}

/// Every node has an example, from the top with nothing under expansion.
pub proof fn lemma_node_example(node: JsonView, root: JsonView)
    ensures
        example_of(node, root, Seq::empty(), definition_count(root)) == Some(node_example(node, root)),
{
    lemma_example_exists(node, root, Seq::empty(), definition_count(root));
}

/// The example of an object node (one with no `$ref`, whose `type` is
/// `"object"`, absent or not a string) with a `properties` object: an
/// object with the properties' names, in order, each bound to the example
/// of its own schema within the same root.
pub proof fn law_node_example_object(node: JsonView, root: JsonView, props: Seq<(Seq<char>, JsonView)>)
    requires
        ref_target(node, root) is None,
        schema_type(node) == "object"@,
        jget(node, "properties"@) == Some(JsonView::Object(props)),
    ensures
        node_example(node, root) matches JsonView::Object(fs) && {
            &&& fs.len() == props.len()
            &&& forall|i: int|
                0 <= i < props.len() ==> (#[trigger] fs[i]).0 == props[i].0 && fs[i].1 == node_example(
                    props[i].1,
                    root,
                )
        },
{
    lemma_node_example(node, root);
    law_object_example(node, root, Seq::empty(), definition_count(root), props);
    let fs = node_example(node, root)->Object_0;
    assert forall|i: int| 0 <= i < props.len() implies (#[trigger] fs[i]).0 == props[i].0 && fs[i].1
        == node_example(props[i].1, root) by {
        lemma_node_example(props[i].1, root);
    }
}

/// The example of an array node (one with no `$ref` whose `type` is
/// `"array"`): a one-item array holding the example of its `items` schema
/// within the same root, or, without `items`, the array `["..."]`.
pub proof fn law_node_example_array(node: JsonView, root: JsonView)
    requires
        ref_target(node, root) is None,
        schema_type(node) == "array"@,
    ensures
        jget(node, "items"@) matches Some(items) ==> node_example(node, root) == JsonView::Array(
            seq![node_example(items, root)],
        ),
        jget(node, "items"@) is None ==> node_example(node, root) == JsonView::Array(
            seq![JsonView::Str("..."@)],
        ),
{
    lemma_node_example(node, root);
    law_array_example(node, root, Seq::empty(), definition_count(root));
    if let Some(items) = jget(node, "items"@) {
        lemma_node_example(items, root);
    }
}

/// Model of an object's entries.
pub open spec fn entries_view(es: Seq<(String, JsonValue)>) -> Seq<(Seq<char>, JsonView)> {
    Seq::new(
        es.len(),
        |i: int|
            if 0 <= i < es.len() {
                (es[i].0@, es[i].1@)
            } else {
                (Seq::empty(), JsonView::Null)
            },
    )
}

/// Model of an array's items.
pub open spec fn items_view(vs: Seq<JsonValue>) -> Seq<JsonView> {
    Seq::new(
        vs.len(),
        |i: int|
            if 0 <= i < vs.len() {
                vs[i]@
            } else {
                JsonView::Null
            },
    )
}

pub proof fn lemma_object_view(es: Vec<(String, JsonValue)>)
    ensures
        JsonValue::Object(es)@ == JsonView::Object(entries_view(es@)),
{
    let v = JsonValue::Object(es);
    if let JsonView::Object(m) = v.model() {
        assert(m =~= entries_view(es@));
    } else {
        assert(false);
    }
}

pub proof fn lemma_array_view(vs: Vec<JsonValue>)
    ensures
        JsonValue::Array(vs)@ == JsonView::Array(items_view(vs@)),
{
    let v = JsonValue::Array(vs);
    if let JsonView::Array(m) = v.model() {
        assert(m =~= items_view(vs@));
    } else {
        assert(false);
    }
}

/// Whether two strings hold the same characters.
pub fn same_text(a: &str, b: &str) -> (r: bool)
    ensures
        r == (a@ == b@),
{
    let x = a.to_owned();
    let y = b.to_owned();
    x == y
}

impl JsonValue {
    /// Member `key` of an object; `None` for other values.
    pub fn get(&self, key: &str) -> (r: Option<&JsonValue>)
        ensures
            r matches Some(v) ==> jget(self@, key@) == Some(v@),
            r is None ==> jget(self@, key@) is None,
    {
        match self {
            JsonValue::Object(es) => {
                proof {
                    lemma_object_view(*es);
                }
                let ghost ev = entries_view(es@);
                assert(self@ == JsonView::Object(ev));
                assert(ev.skip(0) =~= ev);
                let mut i: usize = 0;
                while i < es.len()
                    invariant
                        i <= es.len(),
                        ev == entries_view(es@),
                        self@ == JsonView::Object(ev),
                        entry_lookup(ev, key@) == entry_lookup(ev.skip(i as int), key@),
                    decreases es.len() - i,
                {
                    assert(ev.skip(i as int)[0] == ev[i as int]);
                    assert(ev[i as int] == (es@[i as int].0@, es@[i as int].1@));
                    if same_text(es[i].0.as_str(), key) {
                        assert(entry_lookup(ev.skip(i as int), key@) == Some(es@[i as int].1@));
                        assert(jget(self@, key@) == Some(es@[i as int].1@));
                        let found = &es[i].1;
                        assert(found@ == es@[i as int].1@);
                        return Some(found);
                    }
                    assert(ev.skip(i as int).drop_first() =~= ev.skip(i + 1));
                    i = i + 1;
                }
                None
            },
            _ => None,
        }
    }

    /// The text of a string value.
    pub fn as_str(&self) -> (r: Option<&str>)
        ensures
            r matches Some(s) ==> jstr(Some(self@)) == Some(s@),
            r is None ==> jstr(Some(self@)) is None,
    {
        match self {
            JsonValue::Str(s) => Some(s.as_str()),
            _ => None,
        }
    }
}

fn text_value(s: &str) -> (v: JsonValue)
    ensures
        v@ == JsonView::Str(s@),
{
    JsonValue::Str(s.to_owned())
}

fn number_value(s: &str) -> (v: JsonValue)
    ensures
        v@ == JsonView::Number(s@),
{
    JsonValue::Number(s.to_owned())
}

fn empty_object_value() -> (v: JsonValue)
    ensures
        v@ == empty_object(),
{
    let es: Vec<(String, JsonValue)> = Vec::new();
    proof {
        lemma_object_view(es);
        assert(entries_view(es@) =~= Seq::empty());
    }
    JsonValue::Object(es)
}

fn jstr_of(v: Option<&JsonValue>) -> (r: Option<&str>)
    ensures
        r matches Some(s) ==> jstr(
            match v {
                Some(x) => Some(x@),
                None => None,
            },
        ) == Some(s@),
        r is None ==> jstr(
            match v {
                Some(x) => Some(x@),
                None => None,
            },
        ) is None,
{
    match v {
        Some(x) => x.as_str(),
        None => None,
    }
}

/// The example of a number whose description, already in lower case, is
/// `lowered`: `0.85` where it speaks of `0.0`, `1.0` or a confidence, else
/// `0`.
pub fn number_example(lowered: &str) -> (v: JsonValue)
    ensures
        v@ == number_example_view(lowered@),
{
    if contains_str(lowered, "0.0") || contains_str(lowered, "1.0") || contains_str(
        lowered,
        "confidence",
    ) {
        number_value("0.85")
    } else {
        number_value("0")
    }
}

fn scalar_value(t: &str, description: Option<&str>) -> (v: JsonValue)
    ensures
        v@ == scalar_example(
            t@,
            match description {
                Some(d) => Some(d@),
                None => None,
            },
        ),
{
    if same_text(t, "number") {
        match description {
            Some(d) => {
                let l = lowercase_of(d);
                number_example(l.as_str())
            },
            None => number_value("0"),
        }
    } else if same_text(t, "integer") {
        number_value("0")
    } else if same_text(t, "boolean") {
        JsonValue::Bool(true)
    } else {
        match description {
            Some(d) => {
                let mut s = String::new();
                crate::text::push_str(&mut s, "<");
                crate::text::push_str(&mut s, d);
                crate::text::push_str(&mut s, ">");
                JsonValue::Str(s)
            },
            None => text_value("..."),
        }
    }
}

/// `Some(v@)` for a value, `None` for none.
pub open spec fn opt_view(r: Option<JsonValue>) -> Option<JsonView> {
    match r {
        Some(v) => Some(v@),
        None => None,
    }
}

pub proof fn lemma_props_example_step(
    props: Seq<(Seq<char>, JsonView)>,
    root: JsonView,
    visiting: Seq<Seq<char>>,
    fuel: nat,
    k: int,
)
    requires
        0 <= k < props.len(),
    ensures
        props_example(props.take(k + 1), root, visiting, fuel) == match (
            props_example(props.take(k), root, visiting, fuel),
            example_of(props[k].1, root, visiting, fuel),
        ) {
            (Some(fs), Some(x)) => Some(fs.push((props[k].0, x))),
            _ => None,
        },
{
    assert(props.take(k + 1).drop_last() =~= props.take(k));
    assert(props.take(k + 1).last() == props[k]);
}

pub proof fn lemma_props_example_none(
    props: Seq<(Seq<char>, JsonView)>,
    root: JsonView,
    visiting: Seq<Seq<char>>,
    fuel: nat,
    k: int,
)
    requires
        0 <= k <= props.len(),
        props_example(props.take(k), root, visiting, fuel) is None,
    ensures
        props_example(props, root, visiting, fuel) is None,
    decreases props.len() - k,
{
    if k == props.len() {
        assert(props.take(k) =~= props);
    } else {
        lemma_props_example_step(props, root, visiting, fuel, k);
        lemma_props_example_none(props, root, visiting, fuel, k + 1);
    }
}

/// The names held by a list of strings.
pub open spec fn names_view(names: Seq<String>) -> Seq<Seq<char>> {
    names.map_values(|n: String| n@)
}

/// Whether `name` is one of `names`.
fn names_contain(names: &Vec<String>, name: &str) -> (b: bool)
    ensures
        b == names_view(names@).contains(name@),
{
    let mut i: usize = 0;
    while i < names.len()
        invariant
            i <= names.len(),
            forall|j: int| 0 <= j < i ==> names_view(names@)[j] != name@,
        decreases names.len() - i,
    {
        if same_text(names[i].as_str(), name) {
            assert(names_view(names@)[i as int] == name@);
            return true;
        }
        i = i + 1;
    }
    false
}

/// The example for a node whose `$ref` is `path`.
fn reference_example(
    path: &str,
    node: &JsonValue,
    root: &JsonValue,
    visiting: &mut Vec<String>,
    fuel: usize,
) -> (r: Option<JsonValue>)
    requires
        jstr(jget(node@, "$ref"@)) == Some(path@),
    ensures
        opt_view(r) == example_of(node@, root@, names_view(old(visiting)@), fuel as nat),
        final(visiting)@ == old(visiting)@,
    decreases fuel, node@, 0nat,
{
    let cs = chars_of(path);
    let prefix = vec!['#', '/', 'd', 'e', 'f', 'i', 'n', 'i', 't', 'i', 'o', 'n', 's', '/'];
    assert(prefix@ =~= defs_prefix());
    if matches_at(&cs, 0, &prefix) {
        assert(cs@.subrange(0, 14) == defs_prefix());
        let name = string_from_range(&cs, 14, cs.len());
        assert(name@ =~= path@.skip(defs_prefix().len() as int));
        match root.get("definitions") {
            Some(defs) => match defs.get(name.as_str()) {
                Some(def) => if names_contain(visiting, name.as_str()) {
                    Some(empty_object_value())
                } else if fuel == 0 {
                    None
                } else {
                    let ghost before = visiting@;
                    visiting.push(name);
                    assert(names_view(visiting@) =~= names_view(before).push(ref_key(node@)));
                    let r = example_for(def, root, visiting, fuel - 1);
                    visiting.pop();
                    assert(visiting@ =~= before);
                    r
                },
                None => Some(empty_object_value()),
            },
            None => Some(empty_object_value()),
        }
    } else {
        Some(empty_object_value())
    }
}

/// The example for an object node with properties `props`.
fn object_example(
    props: &Vec<(String, JsonValue)>,
    node: &JsonValue,
    root: &JsonValue,
    visiting: &mut Vec<String>,
    fuel: usize,
) -> (r: Option<JsonValue>)
    requires
        jget(node@, "properties"@) == Some(JsonValue::Object(*props)@),
    ensures
        opt_view(r) == match props_example(
            entries_view(props@),
            root@,
            names_view(old(visiting)@),
            fuel as nat,
        ) {
            Some(fs) => Some(JsonView::Object(fs)),
            None => None,
        },
        final(visiting)@ == old(visiting)@,
    decreases fuel, node@, 0nat,
{
    let ghost pv = entries_view(props@);
    let ghost vis = names_view(visiting@);
    let ghost v0 = visiting@;
    proof {
        lemma_object_view(*props);
        if let JsonView::Object(es) = node@ {
            lemma_lookup_decreases(es, "properties"@);
            let o = JsonView::Object(pv);
            assert(decreases_to!(node@ => node@->Object_0));
            assert(decreases_to!(o => o->Object_0));
        }
        assert(pv.take(0) =~= Seq::<(Seq<char>, JsonView)>::empty());
    }
    let mut fields: Vec<(String, JsonValue)> = Vec::new();
    assert(entries_view(fields@) =~= Seq::<(Seq<char>, JsonView)>::empty());
    let mut i: usize = 0;
    while i < props.len()
        invariant
            i <= props.len(),
            pv == entries_view(props@),
            decreases_to!(node@ => pv),
            visiting@ == v0,
            v0 == old(visiting)@,
            vis == names_view(v0),
            Some(entries_view(fields@)) == props_example(pv.take(i as int), root@, vis, fuel as nat),
        decreases props.len() - i,
    {
        proof {
            lemma_props_example_step(pv, root@, vis, fuel as nat, i as int);
            assert(decreases_to!(pv => pv[i as int]));
            assert(decreases_to!(pv[i as int] => pv[i as int].1));
            assert(pv[i as int].1 == props@[i as int].1@);
        }
        let (name, prop) = &props[i];
        match example_for(prop, root, visiting, fuel) {
            Some(x) => {
                fields.push((name.clone(), x));
                assert(entries_view(fields@) =~= props_example(
                    pv.take(i + 1),
                    root@,
                    vis,
                    fuel as nat,
                )->Some_0);
            },
            None => {
                proof {
                    lemma_props_example_none(pv, root@, vis, fuel as nat, i + 1);
                }
                return None;
            },
        }
        i = i + 1;
    }
    assert(pv.take(props.len() as int) =~= pv);
    proof {
        lemma_object_view(fields);
    }
    Some(JsonValue::Object(fields))
}

/// The example for `node`, with the definitions named in `visiting`
/// under expansion, following references into `root` at most `fuel` times
/// along one path; `None` when that is not enough.
fn example_for(node: &JsonValue, root: &JsonValue, visiting: &mut Vec<String>, fuel: usize) -> (r:
    Option<JsonValue>)
    ensures
        opt_view(r) == example_of(node@, root@, names_view(old(visiting)@), fuel as nat),
        final(visiting)@ == old(visiting)@,
    decreases fuel, node@, 1nat,
{
    match jstr_of(node.get("$ref")) {
        Some(path) => {
            return reference_example(path, node, root, visiting, fuel);
        },
        None => {},
    }
    let declared = jstr_of(node.get("type"));
    let t: &str = match declared {
        Some(t) => t,
        None => "object",
    };
    if same_text(t, "object") {
        match node.get("properties") {
            Some(JsonValue::Object(props)) => {
                proof {
                    lemma_object_view(*props);
                }
                object_example(props, node, root, visiting, fuel)
            },
            _ => Some(empty_object_value()),
        }
    } else if same_text(t, "array") {
        match node.get("items") {
            Some(items) => {
                proof {
                    if let JsonView::Object(es) = node@ {
                        lemma_lookup_decreases(es, "items"@);
                        assert(decreases_to!(node@ => node@->Object_0));
                    }
                }
                match example_for(items, root, visiting, fuel) {
                    Some(x) => {
                        let xs = vec![x];
                        proof {
                            lemma_array_view(xs);
                            assert(items_view(xs@) =~= seq![x@]);
                        }
                        Some(JsonValue::Array(xs))
                    },
                    None => None,
                }
            },
            None => {
                let xs = vec![text_value("...")];
                proof {
                    lemma_array_view(xs);
                    assert(items_view(xs@) =~= seq![JsonView::Str("..."@)]);
                }
                Some(JsonValue::Array(xs))
            },
        }
    } else {
        Some(scalar_value(t, jstr_of(node.get("description"))))
    }
}

pub open spec fn hex_digit(d: nat) -> char {
    if d < 10 {
        crate::text::digit_char(d)
    } else if d == 10 {
        'a'
    } else if d == 11 {
        'b'
    } else if d == 12 {
        'c'
    } else if d == 13 {
        'd'
    } else if d == 14 {
        'e'
    } else {
        'f'
    }
}

/// How one character appears inside a JSON string literal.
pub open spec fn escape_char(c: char) -> Seq<char> {
    let n: u32 = c as u32;
    if c == '"' {
        seq!['\\', '"']
    } else if c == '\\' {
        seq!['\\', '\\']
    } else if n == 8 {
        seq!['\\', 'b']
    } else if n == 9 {
        seq!['\\', 't']
    } else if n == 10 {
        seq!['\\', 'n']
    } else if n == 12 {
        seq!['\\', 'f']
    } else if n == 13 {
        seq!['\\', 'r']
    } else if n < 32 {
        seq!['\\', 'u', '0', '0', hex_digit((n / 16) as nat), hex_digit((n % 16) as nat)]
    } else {
        seq![c]
    }
}

pub open spec fn escaped(s: Seq<char>) -> Seq<char>
    decreases s.len(),
{
    if s.len() == 0 {
        Seq::empty()
    } else {
        escaped(s.drop_last()) + escape_char(s.last())
    }
}

/// A JSON string literal holding `s`.
pub open spec fn quoted(s: Seq<char>) -> Seq<char> {
    seq!['"'] + escaped(s) + seq!['"']
}

/// Indented multi-line text of `v`, nested members indented two spaces
/// more than `ind`.
pub open spec fn pretty(v: JsonView, ind: Seq<char>) -> Seq<char>
    decreases v,
{
    match v {
        JsonView::Null => "null"@,
        JsonView::Bool(b) => if b {
            "true"@
        } else {
            "false"@
        },
        JsonView::Number(t) => t,
        JsonView::Str(s) => quoted(s),
        JsonView::Array(vs) => if vs.len() == 0 {
            "[]"@
        } else {
            "["@ + pretty_items(vs, ind + "  "@) + "\n"@ + ind + "]"@
        },
        JsonView::Object(es) => if es.len() == 0 {
            "{}"@
        } else {
            "{"@ + pretty_entries(es, ind + "  "@) + "\n"@ + ind + "}"@
        },
    }
}

pub open spec fn pretty_items(vs: Seq<JsonView>, ind: Seq<char>) -> Seq<char>
    decreases vs,
{
    if vs.len() == 0 {
        Seq::empty()
    } else {
        proof {
            assert(decreases_to!(vs => vs[vs.len() - 1]));
        }
        pretty_items(vs.drop_last(), ind) + (if vs.len() > 1 {
            ","@
        } else {
            Seq::empty()
        }) + "\n"@ + ind + pretty(vs.last(), ind)
    }
}

pub open spec fn pretty_entries(es: Seq<(Seq<char>, JsonView)>, ind: Seq<char>) -> Seq<char>
    decreases es,
{
    if es.len() == 0 {
        Seq::empty()
    } else {
        proof {
            assert(decreases_to!(es => es[es.len() - 1]));
            assert(decreases_to!(es[es.len() - 1] => es[es.len() - 1].1));
        }
        pretty_entries(es.drop_last(), ind) + (if es.len() > 1 {
            ","@
        } else {
            Seq::empty()
        }) + "\n"@ + ind + quoted(es.last().0) + ": "@ + pretty(es.last().1, ind)
    }
}

/// Single-line text of `v`.
pub open spec fn compact(v: JsonView) -> Seq<char>
    decreases v,
{
    match v {
        JsonView::Null => "null"@,
        JsonView::Bool(b) => if b {
            "true"@
        } else {
            "false"@
        },
        JsonView::Number(t) => t,
        JsonView::Str(s) => quoted(s),
        JsonView::Array(vs) => "["@ + compact_items(vs) + "]"@,
        JsonView::Object(es) => "{"@ + compact_entries(es) + "}"@,
    }
}

pub open spec fn compact_items(vs: Seq<JsonView>) -> Seq<char>
    decreases vs,
{
    if vs.len() == 0 {
        Seq::empty()
    } else {
        proof {
            assert(decreases_to!(vs => vs[vs.len() - 1]));
        }
        compact_items(vs.drop_last()) + (if vs.len() > 1 {
            ","@
        } else {
            Seq::empty()
        }) + compact(vs.last())
    }
}

pub open spec fn compact_entries(es: Seq<(Seq<char>, JsonView)>) -> Seq<char>
    decreases es,
{
    if es.len() == 0 {
        Seq::empty()
    } else {
        proof {
            assert(decreases_to!(es => es[es.len() - 1]));
            assert(decreases_to!(es[es.len() - 1] => es[es.len() - 1].1));
        }
        compact_entries(es.drop_last()) + (if es.len() > 1 {
            ","@
        } else {
            Seq::empty()
        }) + quoted(es.last().0) + ":"@ + compact(es.last().1)
    }
}


fn hex_char(d: u32) -> (c: char)
    requires
        d < 16,
    ensures
        c == hex_digit(d as nat),
{
    if d == 0 {
        '0'
    } else if d == 1 {
        '1'
    } else if d == 2 {
        '2'
    } else if d == 3 {
        '3'
    } else if d == 4 {
        '4'
    } else if d == 5 {
        '5'
    } else if d == 6 {
        '6'
    } else if d == 7 {
        '7'
    } else if d == 8 {
        '8'
    } else if d == 9 {
        '9'
    } else if d == 10 {
        'a'
    } else if d == 11 {
        'b'
    } else if d == 12 {
        'c'
    } else if d == 13 {
        'd'
    } else if d == 14 {
        'e'
    } else {
        'f'
    }
}

fn push_escaped_char(out: &mut String, c: char)
    ensures
        final(out)@ == old(out)@ + escape_char(c),
{
    let n: u32 = c as u32;
    let ghost start = out@;
    if c == '"' {
        push_char(out, '\\');
        push_char(out, '"');
    } else if c == '\\' {
        push_char(out, '\\');
        push_char(out, '\\');
    } else if n == 8 {
        push_char(out, '\\');
        push_char(out, 'b');
    } else if n == 9 {
        push_char(out, '\\');
        push_char(out, 't');
    } else if n == 10 {
        push_char(out, '\\');
        push_char(out, 'n');
    } else if n == 12 {
        push_char(out, '\\');
        push_char(out, 'f');
    } else if n == 13 {
        push_char(out, '\\');
        push_char(out, 'r');
    } else if n < 32 {
        push_char(out, '\\');
        push_char(out, 'u');
        push_char(out, '0');
        push_char(out, '0');
        push_char(out, hex_char(n / 16));
        push_char(out, hex_char(n % 16));
    } else {
        push_char(out, c);
    }
    assert(out@ =~= start + escape_char(c));
}

/// Appends `s` as a JSON string literal.
fn push_quoted(out: &mut String, s: &str)
    ensures
        final(out)@ == old(out)@ + quoted(s@),
{
    let ghost start = out@;
    let cs = chars_of(s);
    push_char(out, '"');
    let mut i: usize = 0;
    while i < cs.len()
        invariant
            i <= cs.len(),
            out@ == start + seq!['"'] + escaped(cs@.take(i as int)),
        decreases cs.len() - i,
    {
        push_escaped_char(out, cs[i]);
        assert(cs@.take(i + 1).drop_last() =~= cs@.take(i as int));
        i = i + 1;
    }
    assert(cs@.take(cs.len() as int) =~= cs@);
    push_char(out, '"');
    assert(out@ =~= start + quoted(s@));
}

/// Appends the indented text of `v`.
fn write_pretty(out: &mut String, v: &JsonValue, ind: &str)
    ensures
        final(out)@ == old(out)@ + pretty(v@, ind@),
    decreases v@,
{
    let ghost start = out@;
    match v {
        JsonValue::Null => push_str(out, "null"),
        JsonValue::Bool(b) => if *b {
            push_str(out, "true")
        } else {
            push_str(out, "false")
        },
        JsonValue::Number(t) => push_str(out, t.as_str()),
        JsonValue::Str(s) => push_quoted(out, s.as_str()),
        JsonValue::Array(vs) => {
            proof {
                lemma_array_view(*vs);
            }
            let ghost iv = items_view(vs@);
            if vs.len() == 0 {
                push_str(out, "[]");
            } else {
                let mut child = ind.to_owned();
                push_str(&mut child, "  ");
                push_str(out, "[");
                let mut i: usize = 0;
                assert(iv.take(0) =~= Seq::<JsonView>::empty());
                while i < vs.len()
                    invariant
                        i <= vs.len(),
                        iv == items_view(vs@),
                        v@ == JsonView::Array(iv),
                        child@ == ind@ + "  "@,
                        out@ == start + "["@ + pretty_items(iv.take(i as int), child@),
                    decreases vs.len() - i,
                {
                    proof {
                        assert(decreases_to!(v@ => v@->Array_0));
                        assert(decreases_to!(iv => iv[i as int]));
                        assert(iv[i as int] == vs@[i as int]@);
                    }
                    if i > 0 {
                        push_str(out, ",");
                    }
                    push_str(out, "\n");
                    push_str(out, child.as_str());
                    write_pretty(out, &vs[i], child.as_str());
                    assert(iv.take(i + 1).drop_last() =~= iv.take(i as int));
                    assert(out@ =~= start + "["@ + pretty_items(iv.take(i + 1), child@));
                    i = i + 1;
                }
                assert(iv.take(vs.len() as int) =~= iv);
                push_str(out, "\n");
                push_str(out, ind);
                push_str(out, "]");
            }
        },
        JsonValue::Object(es) => {
            proof {
                lemma_object_view(*es);
            }
            let ghost ev = entries_view(es@);
            if es.len() == 0 {
                push_str(out, "{}");
            } else {
                let mut child = ind.to_owned();
                push_str(&mut child, "  ");
                push_str(out, "{");
                let mut i: usize = 0;
                assert(ev.take(0) =~= Seq::<(Seq<char>, JsonView)>::empty());
                while i < es.len()
                    invariant
                        i <= es.len(),
                        ev == entries_view(es@),
                        v@ == JsonView::Object(ev),
                        child@ == ind@ + "  "@,
                        out@ == start + "{"@ + pretty_entries(ev.take(i as int), child@),
                    decreases es.len() - i,
                {
                    proof {
                        assert(decreases_to!(v@ => v@->Object_0));
                        assert(decreases_to!(ev => ev[i as int]));
                        assert(decreases_to!(ev[i as int] => ev[i as int].1));
                        assert(ev[i as int] == (es@[i as int].0@, es@[i as int].1@));
                    }
                    if i > 0 {
                        push_str(out, ",");
                    }
                    push_str(out, "\n");
                    push_str(out, child.as_str());
                    push_quoted(out, es[i].0.as_str());
                    push_str(out, ": ");
                    write_pretty(out, &es[i].1, child.as_str());
                    assert(ev.take(i + 1).drop_last() =~= ev.take(i as int));
                    assert(out@ =~= start + "{"@ + pretty_entries(ev.take(i + 1), child@));
                    i = i + 1;
                }
                assert(ev.take(es.len() as int) =~= ev);
                push_str(out, "\n");
                push_str(out, ind);
                push_str(out, "}");
            }
        },
    }
}

/// Appends the single-line text of `v`.
fn write_compact(out: &mut String, v: &JsonValue)
    ensures
        final(out)@ == old(out)@ + compact(v@),
    decreases v@,
{
    let ghost start = out@;
    match v {
        JsonValue::Null => push_str(out, "null"),
        JsonValue::Bool(b) => if *b {
            push_str(out, "true")
        } else {
            push_str(out, "false")
        },
        JsonValue::Number(t) => push_str(out, t.as_str()),
        JsonValue::Str(s) => push_quoted(out, s.as_str()),
        JsonValue::Array(vs) => {
            proof {
                lemma_array_view(*vs);
            }
            let ghost iv = items_view(vs@);
            push_str(out, "[");
            let mut i: usize = 0;
            assert(iv.take(0) =~= Seq::<JsonView>::empty());
            while i < vs.len()
                invariant
                    i <= vs.len(),
                    iv == items_view(vs@),
                    v@ == JsonView::Array(iv),
                    out@ == start + "["@ + compact_items(iv.take(i as int)),
                decreases vs.len() - i,
            {
                proof {
                    assert(decreases_to!(v@ => v@->Array_0));
                    assert(decreases_to!(iv => iv[i as int]));
                    assert(iv[i as int] == vs@[i as int]@);
                }
                if i > 0 {
                    push_str(out, ",");
                }
                write_compact(out, &vs[i]);
                assert(iv.take(i + 1).drop_last() =~= iv.take(i as int));
                assert(out@ =~= start + "["@ + compact_items(iv.take(i + 1)));
                i = i + 1;
            }
            assert(iv.take(vs.len() as int) =~= iv);
            push_str(out, "]");
        },
        JsonValue::Object(es) => {
            proof {
                lemma_object_view(*es);
            }
            let ghost ev = entries_view(es@);
            push_str(out, "{");
            let mut i: usize = 0;
            assert(ev.take(0) =~= Seq::<(Seq<char>, JsonView)>::empty());
            while i < es.len()
                invariant
                    i <= es.len(),
                    ev == entries_view(es@),
                    v@ == JsonView::Object(ev),
                    out@ == start + "{"@ + compact_entries(ev.take(i as int)),
                decreases es.len() - i,
            {
                proof {
                    assert(decreases_to!(v@ => v@->Object_0));
                    assert(decreases_to!(ev => ev[i as int]));
                    assert(decreases_to!(ev[i as int] => ev[i as int].1));
                    assert(ev[i as int] == (es@[i as int].0@, es@[i as int].1@));
                }
                if i > 0 {
                    push_str(out, ",");
                }
                push_quoted(out, es[i].0.as_str());
                push_str(out, ":");
                write_compact(out, &es[i].1);
                assert(ev.take(i + 1).drop_last() =~= ev.take(i as int));
                assert(out@ =~= start + "{"@ + compact_entries(ev.take(i + 1)));
                i = i + 1;
            }
            assert(ev.take(es.len() as int) =~= ev);
            push_str(out, "}");
        },
    }
}

impl JsonValue {
    /// Indented multi-line JSON text, two spaces per level.
    pub fn to_pretty_string(&self) -> (s: String)
        ensures
            s@ == pretty(self@, Seq::empty()),
    {
        let mut out = String::new();
        proof {
            reveal_strlit("");
        }
        write_pretty(&mut out, self, "");
        assert(out@ =~= pretty(self@, Seq::empty()));
        out
    }

    /// Single-line JSON text.
    pub fn to_compact_string(&self) -> (s: String)
        ensures
            s@ == compact(self@),
    {
        let mut out = String::new();
        write_compact(&mut out, self);
        assert(out@ =~= compact(self@));
        out
    }
}

/// Number of entries of the schema's definitions.
fn count_definitions(schema: &JsonValue) -> (n: usize)
    ensures
        n == definition_count(schema@),
{
    match schema.get("definitions") {
        Some(JsonValue::Object(es)) => {
            proof {
                lemma_object_view(*es);
            }
            es.len()
        },
        _ => 0,
    }
}

/// The example value for the node `node` of the schema `root`.
pub fn node_example_value(node: &JsonValue, root: &JsonValue) -> (r: JsonValue)
    ensures
        r@ == node_example(node@, root@),
{
    let fuel: usize = count_definitions(root);
    let mut visiting: Vec<String> = Vec::new();
    proof {
        lemma_node_example(node@, root@);
        assert(names_view(visiting@) =~= Seq::<Seq<char>>::empty());
    }
    match example_for(node, root, &mut visiting, fuel) {
        Some(v) => v,
        None => {
            assert(false);
            JsonValue::Null
        },
    }
}

/// The example value for a schema: references are followed into its own
/// definitions, and a reference to a definition that is already being
/// expanded gets `{}`.
pub fn schema_to_example(schema: &JsonValue) -> (r: JsonValue)
    ensures
        r@ == schema_example(schema@),
{
    node_example_value(schema, schema)
}

/// The example value for a schema, as indented JSON text.
pub fn build_example_from_schema(schema: &JsonValue) -> (s: String)
    ensures
        s@ == pretty(schema_example(schema@), Seq::empty()),
{
    schema_to_example(schema).to_pretty_string()
}

} // verus!
verus! {

/// The example of a node with no `$ref` and a scalar `type`: a `number` is
/// always a JSON number, `0.85` when its description, in lower case, speaks
/// of `0.0`, `1.0` or a confidence, else `0`; an `integer` is `0`; a
/// `boolean` is `true`; any other type gets a string, `<description>` or,
/// without one, `...`.
pub proof fn law_scalar_node_example(node: JsonView, root: JsonView)
    requires
        ref_target(node, root) is None,
    ensures
        schema_type(node) == "number"@ ==> node_example(node, root) == JsonView::Number(
            if (jstr(jget(node, "description"@)) matches Some(d) && (contains_seq(
                lowercase(d),
                "0.0"@,
            ) || contains_seq(lowercase(d), "1.0"@) || contains_seq(lowercase(d), "confidence"@))) {
                "0.85"@
            } else {
                "0"@
            },
        ),
        schema_type(node) == "integer"@ ==> node_example(node, root) == JsonView::Number("0"@),
        schema_type(node) == "boolean"@ ==> node_example(node, root) == JsonView::Bool(true),
        schema_type(node) != "object"@ && schema_type(node) != "array"@ && schema_type(node)
            != "number"@ && schema_type(node) != "integer"@ && schema_type(node) != "boolean"@
            ==> node_example(node, root) == JsonView::Str(
            match jstr(jget(node, "description"@)) {
                Some(d) => "<"@ + d + ">"@,
                None => "..."@,
            },
        ),
{
    lemma_node_example(node, root);
    reveal_strlit("object");
    reveal_strlit("array");
    reveal_strlit("number");
    reveal_strlit("integer");
    reveal_strlit("boolean");
    assert("number"@[0] != "object"@[0] && "number"@[0] != "array"@[0]);
    assert("integer"@[0] != "object"@[0] && "integer"@[0] != "array"@[0]);
    assert("boolean"@[0] != "object"@[0] && "boolean"@[0] != "array"@[0]);
    assert("integer"@[0] != "number"@[0] && "boolean"@[0] != "number"@[0]);
    assert("boolean"@[0] != "integer"@[0]);
}

} // verus!
