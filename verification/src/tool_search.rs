//! The tool that finds deferred tools and loads their full schema.
//!
//! Deferred tools are advertised by name only. A search matches the
//! deferred tools whose name or description contains the query, in any
//! letter case, and returns their full definitions; when the tool was built
//! to promote schemas, the search also names the matched tools, which the
//! caller adds to the registry's promoted-schema set so that later requests
//! declare their full schema.

use crate::text::{contains_text, copy_chars, lowercase, seq_contains, strings_view, to_lowercase};
use serde_json::Value;
use vstd::prelude::*;

verus! {

#[verifier::external_type_specification]
#[verifier::external_body]
pub struct ExJsonValue(Value);

/// A tool definition: its name, description, input schema (a JSON value,
/// carried through unread) and whether it is deferred.
#[derive(Clone, Debug)]
pub struct ToolDef {
    pub name: String,
    pub description: String,
    pub input_schema: Value,
    pub deferred: bool,
}

/// The outcome of running a tool.
#[derive(Clone, Debug)]
pub struct ToolResult {
    pub content: String,
    pub is_error: bool,
}

/// The searchable tools, and whether matches are promoted.
pub struct ToolSearchTool {
    tool_defs: Vec<ToolDef>,
    promotes_schemas: bool,
}

/// A search's result and the names of the tools it promotes.
pub struct ToolSearchOutcome {
    pub result: ToolResult,
    pub promoted: Vec<String>,
}

/// Whether a deferred tool matches the (lower-cased) query.
pub open spec fn tool_matches(def: ToolDef, query_lower: Seq<char>) -> bool {
    def.deferred && (seq_contains(lowercase(def.name@), query_lower) || seq_contains(lowercase(def.description@), query_lower))
}

/// The deferred tools that match the query, in order.
pub open spec fn matching_tools(defs: Seq<ToolDef>, query_lower: Seq<char>) -> Seq<ToolDef>
    decreases defs.len(),
{
    if defs.len() == 0 {
        Seq::empty()
    } else {
        let prev = matching_tools(defs.drop_last(), query_lower);
        if tool_matches(defs.last(), query_lower) { prev.push(defs.last()) } else { prev }
    }
}

/// The names of the deferred tools, in order.
pub open spec fn deferred_tool_names(defs: Seq<ToolDef>) -> Seq<Seq<char>>
    decreases defs.len(),
{
    if defs.len() == 0 {
        Seq::empty()
    } else {
        let prev = deferred_tool_names(defs.drop_last());
        if defs.last().deferred { prev.push(defs.last().name@) } else { prev }
    }
}

/// The items joined by `", "`.
pub open spec fn join_comma(items: Seq<Seq<char>>) -> Seq<char>
    decreases items.len(),
{
    if items.len() == 0 {
        Seq::empty()
    } else if items.len() == 1 {
        items[0]
    } else {
        join_comma(items.drop_last()) + ", "@ + items.last()
    }
}

pub open spec fn names_of(defs: Seq<ToolDef>) -> Seq<Seq<char>> {
    Seq::new(defs.len(), |i: int| defs[i].name@)
}

pub open spec fn descriptions_of(defs: Seq<ToolDef>) -> Seq<Seq<char>> {
    Seq::new(defs.len(), |i: int| defs[i].description@)
}

pub open spec fn schemas_of(defs: Seq<ToolDef>) -> Seq<Value> {
    Seq::new(defs.len(), |i: int| defs[i].input_schema)
}

/// `Value::clone` is derived in `serde_json`: the copy is equal to the
/// original.
pub assume_specification[<Value as Clone>::clone](value: &Value) -> (copy: Value)
    ensures
        copy == *value,
;

/// The pretty-printed JSON array that `serde_json::to_string_pretty` writes
/// for one object per position `i`, holding the string `names[i]` under
/// `name_key`, the string `descriptions[i]` under `description_key` and the
/// value `schemas[i]` under `parameters_key`.
pub uninterp spec fn json_object_list(
    name_key: Seq<char>,
    description_key: Seq<char>,
    parameters_key: Seq<char>,
    names: Seq<Seq<char>>,
    descriptions: Seq<Seq<char>>,
    schemas: Seq<Value>,
) -> Seq<char>;

/// Builds one `serde_json` object per position from the three lists under
/// the three keys and pretty-prints the array with
/// `serde_json::to_string_pretty`, which cannot fail on a `Value`; the
/// result is named, not described.
#[verifier::external_body]
fn pretty_json_objects(
    keys: (&str, &str, &str),
    names: &Vec<String>,
    descriptions: &Vec<String>,
    schemas: &Vec<Value>,
) -> (json: String)
    ensures
        json@ == json_object_list(keys.0@, keys.1@, keys.2@, strings_view(names@), strings_view(descriptions@), schemas@),
{
    let items: Vec<Value> = names.iter().zip(descriptions).zip(schemas).map(|((name, description), schema)| {
        let mut object = serde_json::Map::new();
        object.insert(keys.0.to_string(), Value::String(name.clone()));
        object.insert(keys.1.to_string(), Value::String(description.clone()));
        object.insert(keys.2.to_string(), schema.clone());
        Value::Object(object)
    }).collect();
    serde_json::to_string_pretty(&items).unwrap_or_default()
}

/// The reply when nothing matches: it names the query and the deferred
/// tools (or says there are none) and points the model at the tools it
/// already has.
pub open spec fn miss_message(query: Seq<char>, deferred: Seq<char>) -> Seq<char> {
    let deferred_line = if deferred.len() == 0 {
        "There are no deferred tools in this session at all — never call ToolSearch again."@
    } else {
        "The only deferred tools in this session are: "@ + deferred + "."@
    };
    "No deferred tools matching \""@ + query + "\" found. "@ + deferred_line
        + " Every other tool already appears in your available tools list with its full parameters — call those directly by name instead of searching. Do not use ToolSearch to look for skills: invoke skills with the Skill tool."@
}

pub open spec fn search_result_spec(defs: Seq<ToolDef>, query: Seq<char>, promotes: bool) -> (Seq<char>, bool, Seq<Seq<char>>) {
    if query.len() == 0 {
        ("Error: query is required"@, true, Seq::empty())
    } else {
        let found = matching_tools(defs, lowercase(query));
        if found.len() == 0 {
            (miss_message(query, join_comma(deferred_tool_names(defs))), false, Seq::empty())
        } else {
            (
                json_object_list("name"@, "description"@, "parameters"@, names_of(found), descriptions_of(found), schemas_of(found)),
                false,
                if promotes { names_of(found) } else { Seq::empty() },
            )
        }
    }
}

impl ToolSearchTool {
    pub closed spec fn defs(&self) -> Seq<ToolDef> {
        self.tool_defs@
    }

    pub closed spec fn promotes(&self) -> bool {
        self.promotes_schemas
    }

    /// A search over a snapshot of the tool definitions.
    pub fn new(tool_defs: Vec<ToolDef>) -> (t: ToolSearchTool)
        ensures
            t.defs() == tool_defs@,
            !t.promotes(),
    {
        ToolSearchTool { tool_defs, promotes_schemas: false }
    }

    /// A search whose matches are promoted to full declaration.
    pub fn with_loaded_schemas(tool_defs: Vec<ToolDef>) -> (t: ToolSearchTool)
        ensures
            t.defs() == tool_defs@,
            t.promotes(),
    {
        ToolSearchTool { tool_defs, promotes_schemas: true }
    }

    pub fn name(&self) -> (s: String)
        ensures
            s@ == "ToolSearch"@,
    {
        copy_chars("ToolSearch")
    }

    pub fn description(&self) -> (s: String)
        ensures
            s@ == "Search for deferred tools and load their full schema. Use this before calling any deferred tool."@,
    {
        copy_chars("Search for deferred tools and load their full schema. Use this before calling any deferred tool.")
    }

    /// The tool's input schema, as JSON text: an object with one required
    /// string property, `query`.
    pub fn input_schema(&self) -> (s: String)
        ensures
            s@ == "{\"properties\":{\"query\":{\"description\":\"Tool name or keyword to search for\",\"type\":\"string\"}},\"required\":[\"query\"],\"type\":\"object\"}"@,
    {
        copy_chars("{\"properties\":{\"query\":{\"description\":\"Tool name or keyword to search for\",\"type\":\"string\"}},\"required\":[\"query\"],\"type\":\"object\"}")
    }

    /// Searches never conflict with other tools.
    pub fn is_concurrency_safe(&self) -> (b: bool)
        ensures
            b,
    {
        true
    }

    /// The names of the deferred tools, joined by commas.
    pub fn deferred_names(&self) -> (s: String)
        ensures
            s@ == join_comma(deferred_tool_names(self.defs())),
    {
        let mut s = String::new();
        let mut count: usize = 0;
        let mut i: usize = 0;
        while i < self.tool_defs.len()
            invariant
                i <= self.tool_defs@.len(),
                count as nat == deferred_tool_names(self.tool_defs@.take(i as int)).len(),
                count <= i,
                s@ == join_comma(deferred_tool_names(self.tool_defs@.take(i as int))),
            decreases self.tool_defs@.len() - i,
        {
            let def = &self.tool_defs[i];
            let ghost prev = deferred_tool_names(self.tool_defs@.take(i as int));
            proof {
                assert(self.tool_defs@.take(i + 1).drop_last() =~= self.tool_defs@.take(i as int));
            }
            if def.deferred {
                if count > 0 {
                    s.append(", ");
                } else {
                    proof {
                        assert(prev.push(def.name@).len() == 1);
                        assert(s@ =~= Seq::<char>::empty());
                    }
                }
                s.append(def.name.as_str());
                proof {
                    let now = prev.push(def.name@);
                    assert(now.drop_last() =~= prev);
                    if count == 0 {
                        assert(s@ =~= now[0]);
                    }
                }
                count = count + 1;
            }
            i = i + 1;
        }
        proof {
            assert(self.tool_defs@.take(self.tool_defs@.len() as int) =~= self.tool_defs@);
        }
        s
    }

    /// Runs a search for the `query` argument (absent counts as empty).
    pub fn execute(&self, query: Option<&str>) -> (outcome: ToolSearchOutcome)
        ensures
            ({
                let q = match query {
                    Some(q) => q@,
                    None => Seq::<char>::empty(),
                };
                let expected = search_result_spec(self.defs(), q, self.promotes());
                &&& outcome.result.content@ == expected.0
                &&& outcome.result.is_error == expected.1
                &&& strings_view(outcome.promoted@) == expected.2
            }),
    {
        let query: &str = match query {
            Some(q) => q,
            None => {
                proof {
                    reveal_strlit("");
                }
                ""
            },
        };
        if query.is_empty() {
            proof {
                assert(strings_view(Seq::<String>::empty()) =~= Seq::<Seq<char>>::empty());
            }
            return ToolSearchOutcome {
                result: ToolResult { content: copy_chars("Error: query is required"), is_error: true },
                promoted: Vec::new(),
            };
        }
        let query_lower = to_lowercase(query);
        let mut names: Vec<String> = Vec::new();
        let mut descriptions: Vec<String> = Vec::new();
        let mut schemas: Vec<Value> = Vec::new();
        let ghost ql = lowercase(query@);
        let mut i: usize = 0;
        while i < self.tool_defs.len()
            invariant
                i <= self.tool_defs@.len(),
                query_lower@ == ql,
                strings_view(names@) == names_of(matching_tools(self.tool_defs@.take(i as int), ql)),
                strings_view(descriptions@) == descriptions_of(matching_tools(self.tool_defs@.take(i as int), ql)),
                schemas@ == schemas_of(matching_tools(self.tool_defs@.take(i as int), ql)),
            decreases self.tool_defs@.len() - i,
        {
            let def = &self.tool_defs[i];
            let ghost prev = matching_tools(self.tool_defs@.take(i as int), ql);
            proof {
                assert(self.tool_defs@.take(i + 1).drop_last() =~= self.tool_defs@.take(i as int));
                assert(self.tool_defs@.take(i + 1).last() == *def);
            }
            let hit = def.deferred && (contains_text(to_lowercase(def.name.as_str()).as_str(), query_lower.as_str())
                || contains_text(to_lowercase(def.description.as_str()).as_str(), query_lower.as_str()));
            proof {
                assert(hit == tool_matches(*def, ql));
            }
            if hit {
                let ghost n0 = names@;
                let ghost d0 = descriptions@;
                let ghost s0 = schemas@;
                let name = def.name.clone();
                let description = def.description.clone();
                let schema = def.input_schema.clone();
                names.push(name);
                descriptions.push(description);
                schemas.push(schema);
                proof {
                    let now = prev.push(*def);
                    assert(names@ == n0.push(name));
                    assert(name@ == def.name@);
                    assert(description@ == def.description@);
                    assert(strings_view(n0) == names_of(prev));
                    assert(strings_view(d0) == descriptions_of(prev));
                    assert(strings_view(n0).len() == n0.len());
                    assert(names_of(prev).len() == prev.len());
                    assert(strings_view(d0).len() == d0.len());
                    assert(descriptions_of(prev).len() == prev.len());
                    assert(n0.len() == prev.len());
                    assert(schemas_of(prev).len() == prev.len());
                    assert(s0 == schemas_of(prev));
                    assert(schema == def.input_schema);
                    assert forall|k: int| 0 <= k < now.len() implies #[trigger] schemas@[k] == schemas_of(now)[k] by {
                        if k < prev.len() {
                            assert(s0[k] == schemas_of(prev)[k]);
                            assert(now[k] == prev[k]);
                        }
                    }
                    assert(names@.len() == now.len());
                    assert forall|k: int| 0 <= k < now.len() implies #[trigger] strings_view(names@)[k] == names_of(now)[k] by {
                        if k < prev.len() {
                            assert(strings_view(n0)[k] == names_of(prev)[k]);
                            assert(now[k] == prev[k]);
                        }
                    }
                    assert forall|k: int| 0 <= k < now.len() implies #[trigger] strings_view(descriptions@)[k] == descriptions_of(now)[k] by {
                        if k < prev.len() {
                            assert(strings_view(d0)[k] == descriptions_of(prev)[k]);
                            assert(now[k] == prev[k]);
                        }
                    }
                    assert(strings_view(names@) =~= names_of(now));
                    assert(strings_view(descriptions@) =~= descriptions_of(now));
                    assert(schemas@ =~= schemas_of(now));
                }
            }
            i = i + 1;
        }
        proof {
            assert(self.tool_defs@.take(self.tool_defs@.len() as int) =~= self.tool_defs@);
        }
        if names.len() == 0 {
            let deferred = self.deferred_names();
            let mut content = copy_chars("No deferred tools matching \"");
            content.append(query);
            content.append("\" found. ");
            if deferred.as_str().is_empty() {
                content.append("There are no deferred tools in this session at all — never call ToolSearch again.");
            } else {
                content.append("The only deferred tools in this session are: ");
                content.append(deferred.as_str());
                content.append(".");
            }
            content.append(" Every other tool already appears in your available tools list with its full parameters — call those directly by name instead of searching. Do not use ToolSearch to look for skills: invoke skills with the Skill tool.");
            proof {
                assert(strings_view(Seq::<String>::empty()) =~= Seq::<Seq<char>>::empty());
                assert(content@ =~= miss_message(query@, join_comma(deferred_tool_names(self.defs()))));
            }
            return ToolSearchOutcome { result: ToolResult { content, is_error: false }, promoted: Vec::new() };
        }
        let content = pretty_json_objects(("name", "description", "parameters"), &names, &descriptions, &schemas);
        let promoted = if self.promotes_schemas {
            names
        } else {
            proof {
                assert(strings_view(Seq::<String>::empty()) =~= Seq::<Seq<char>>::empty());
            }
            Vec::new()
        };
        ToolSearchOutcome { result: ToolResult { content, is_error: false }, promoted }
    }
}

} // verus!

verus! {

/// A deferred tool whose lower-cased name or description contains `q`.
pub open spec fn deferred_hit(q: Seq<char>) -> spec_fn(ToolDef) -> bool {
    |d: ToolDef| d.deferred && (seq_contains(lowercase(d.name@), q) || seq_contains(lowercase(d.description@), q))
}

proof fn lemma_matching_tools_filter(defs: Seq<ToolDef>, q: Seq<char>)
    ensures
        matching_tools(defs, q) == defs.filter(deferred_hit(q)),
    decreases defs.len(),
{
    reveal(Seq::filter);
    if defs.len() > 0 {
        lemma_matching_tools_filter(defs.drop_last(), q);
    }
}

/// A search with a non-empty query finds every deferred tool that matches
/// and nothing else: the hits are exactly the deferred tools, in order,
/// whose lower-cased name or description contains the lower-cased query.
/// When some tool matches, the reply is the JSON list of the hits' names,
/// descriptions and schemas; a promoting search promotes exactly the hits'
/// names (so every matching tool's name is among them), a plain one
/// promotes nothing, and neither is an error.
pub proof fn law_search_returns_every_match(defs: Seq<ToolDef>, query: Seq<char>)
    requires
        query.len() > 0,
    ensures
        ({
            let hits = defs.filter(deferred_hit(lowercase(query)));
            let promoting = search_result_spec(defs, query, true);
            let plain = search_result_spec(defs, query, false);
            &&& !promoting.1 && !plain.1
            &&& promoting.0 == plain.0
            &&& plain.2.len() == 0
            &&& promoting.2 == Seq::new(hits.len(), |k: int| hits[k].name@)
            &&& hits.len() > 0 ==> plain.0 == json_object_list(
                "name"@,
                "description"@,
                "parameters"@,
                Seq::new(hits.len(), |k: int| hits[k].name@),
                Seq::new(hits.len(), |k: int| hits[k].description@),
                Seq::new(hits.len(), |k: int| hits[k].input_schema),
            )
            &&& forall|i: int| 0 <= i < defs.len() && #[trigger] deferred_hit(lowercase(query))(defs[i])
                ==> promoting.2.contains(defs[i].name@)
        }),
{
    let q = lowercase(query);
    lemma_matching_tools_filter(defs, q);
    let hits = defs.filter(deferred_hit(q));
    let names = Seq::new(hits.len(), |k: int| hits[k].name@);
    assert(names_of(hits) =~= names);
    assert(descriptions_of(hits) =~= Seq::new(hits.len(), |k: int| hits[k].description@));
    assert(schemas_of(hits) =~= Seq::new(hits.len(), |k: int| hits[k].input_schema));
    assert forall|i: int| 0 <= i < defs.len() && #[trigger] deferred_hit(q)(defs[i])
        implies search_result_spec(defs, query, true).2.contains(defs[i].name@) by {
        defs.lemma_filter_contains(deferred_hit(q), i);
        let k = choose|k: int| 0 <= k < hits.len() && hits[k] == defs[i];
        assert(names[k] == defs[i].name@);
    }
}

} // verus!
