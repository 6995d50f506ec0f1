//! DW node injectors: edits of a flow document (YGTC, already parsed into
//! [`Json`]) that insert `dw.agent`, `dw.agent_graph` and `operala.call`
//! nodes in op-key form. Parsing the YGTC text and writing it back are the
//! caller's; these functions decide what the document becomes.
use vstd::prelude::*;
use crate::json::{Json, JsonV, lemma_obj_get_only, entry_models, has_key, obj_get, obj_insert, push_entry, insert_entry, json_object, json_array, json_str, push_item, models, lemma_first_key, lemma_object_model};
use crate::text::{concat, is_blank, is_blank_exec};
use crate::agents::{AgentConfigs, opt_view};
use crate::archive::{zip_entries, data_fits};
use crate::cbor_flow_post::{PostProcessError, inject_sidecar, is_archive_error, kept, rewritable};
use crate::seal::{Resealing, resealing_of};

verus! {

/// A single `dw.agent` node to inject: `node_id` becomes the `nodes` key,
/// `agent_id` the `operation`, and `successor_id` the routing target
/// (`None` for terminal `out: true` routing).
#[derive(Debug)]
pub struct DwAgentInjection {
    pub node_id: String,
    pub agent_id: String,
    pub successor_id: Option<String>,
}

pub open spec fn jobj(e: Seq<(Seq<char>, JsonV)>) -> JsonV {
    JsonV::JObj(e)
}

pub open spec fn jstr(s: Seq<char>) -> JsonV {
    JsonV::JStr(s)
}

pub open spec fn empty_obj() -> JsonV {
    JsonV::JObj(Seq::empty())
}

/// `[{"out": true}]`
pub open spec fn out_routing() -> JsonV {
    JsonV::JArr(seq![jobj(seq![("out"@, JsonV::JBool(true))])])
}

/// `{"user_text": "{{in.text}}"}`: the inbound activity text mapped into
/// the node's `user_text` input.
pub open spec fn user_text_map() -> JsonV {
    jobj(seq![("user_text"@, jstr("{{in.text}}"@))])
}

/// The `dw.agent` node of one injection.
pub open spec fn dw_agent_node(agent_id: Seq<char>, successor: Option<Seq<char>>) -> JsonV {
    jobj(
        seq![
            ("dw.agent"@, empty_obj()),
            ("operation"@, jstr(agent_id)),
            ("routing"@, match successor {
                Some(s) => JsonV::JArr(seq![jobj(seq![("to"@, jstr(s))])]),
                None => out_routing(),
            }),
        ],
    )
}

/// The `dw.agent_graph` node; its `operation` is the pack id the sidecar
/// graph is keyed by.
pub open spec fn dw_agent_graph_node(pack_id: Seq<char>) -> JsonV {
    jobj(
        seq![
            ("dw.agent_graph"@, empty_obj()),
            ("operation"@, jstr(pack_id)),
            ("in_map"@, user_text_map()),
            ("routing"@, out_routing()),
        ],
    )
}

/// The `operala.call` node: the payload lives inside the op-key value.
pub open spec fn operala_call_node(target: Seq<char>, deep_worker: JsonV, llm: JsonV) -> JsonV {
    jobj(
        seq![
            ("operala.call"@, jobj(seq![
                ("await"@, JsonV::JBool(true)),
                ("operation"@, jstr("invoke"@)),
                ("input"@, jobj(seq![
                    ("deep_worker"@, deep_worker),
                    ("llm"@, llm),
                    ("user_text"@, jstr("{{in.text}}"@)),
                ])),
            ])),
            ("operation"@, jstr(target)),
            ("routing"@, out_routing()),
        ],
    )
}

/// `[{"out": true}]`, written out: the routing of a node that ends the flow.
pub open spec fn terminal_routing() -> JsonV {
    JsonV::JArr(seq![JsonV::JObj(seq![("out"@, JsonV::JBool(true))])])
}

/// The `operala.call` node ends the flow: its routing is `[{"out": true}]`.
/// Its `operation` is the target, and its call awaits `invoke` with the
/// deep-worker block, the LLM binding and the inbound text as input.
pub proof fn lemma_operala_call_node_shape(target: Seq<char>, deep_worker: JsonV, llm: JsonV)
    ensures
        ({
            let n = operala_call_node(target, deep_worker, llm)->JObj_0;
            let call = obj_get(n, "operala.call"@);
            let input = obj_get(call->Some_0->JObj_0, "input"@);
            &&& obj_get(n, "routing"@) == Some(terminal_routing())
            &&& obj_get(n, "operation"@) == Some(JsonV::JStr(target))
            &&& call is Some && call->Some_0 is JObj
            &&& obj_get(call->Some_0->JObj_0, "await"@) == Some(JsonV::JBool(true))
            &&& obj_get(call->Some_0->JObj_0, "operation"@) == Some(JsonV::JStr("invoke"@))
            &&& input is Some && input->Some_0 is JObj
            &&& obj_get(input->Some_0->JObj_0, "deep_worker"@) == Some(deep_worker)
            &&& obj_get(input->Some_0->JObj_0, "llm"@) == Some(llm)
            &&& obj_get(input->Some_0->JObj_0, "user_text"@) == Some(JsonV::JStr("{{in.text}}"@))
        }),
{
    reveal_strlit("operala.call");
    reveal_strlit("operation");
    reveal_strlit("routing");
    reveal_strlit("await");
    reveal_strlit("input");
    reveal_strlit("deep_worker");
    reveal_strlit("llm");
    reveal_strlit("user_text");
    reveal_strlit("out");
    let n = operala_call_node(target, deep_worker, llm)->JObj_0;
    assert(n[0].0.len() == 12 && n[1].0.len() == 9 && n[2].0.len() == 7);
    lemma_obj_get_only(n, "operala.call"@, 0);
    lemma_obj_get_only(n, "operation"@, 1);
    lemma_obj_get_only(n, "routing"@, 2);
    let c = n[0].1->JObj_0;
    assert(c[0].0 == "await"@ && c[1].0 == "operation"@ && c[2].0 == "input"@);
    assert("await"@ != "input"@) by {
        assert("await"@[0] != "input"@[0]);
    }
    assert(c[1].0.len() == 9 && c[0].0.len() == 5);
    lemma_obj_get_only(c, "await"@, 0);
    lemma_obj_get_only(c, "operation"@, 1);
    lemma_obj_get_only(c, "input"@, 2);
    let i = c[2].1->JObj_0;
    assert(i[0].0.len() == 11 && i[1].0.len() == 3 && i[2].0.len() == 9);
    lemma_obj_get_only(i, "deep_worker"@, 0);
    lemma_obj_get_only(i, "llm"@, 1);
    lemma_obj_get_only(i, "user_text"@, 2);
    assert(out_routing() == terminal_routing());
}

/// The `dw.agent_graph` node ends the flow too: its routing is
/// `[{"out": true}]`, its `operation` is the pack id, and it maps the
/// inbound text into `user_text`.
pub proof fn lemma_dw_agent_graph_node_shape(pack_id: Seq<char>)
    ensures
        ({
            let n = dw_agent_graph_node(pack_id)->JObj_0;
            &&& obj_get(n, "routing"@) == Some(terminal_routing())
            &&& obj_get(n, "operation"@) == Some(JsonV::JStr(pack_id))
            &&& obj_get(n, "in_map"@) == Some(JsonV::JObj(seq![("user_text"@, JsonV::JStr("{{in.text}}"@))]))
        }),
{
    reveal_strlit("dw.agent_graph");
    reveal_strlit("operation");
    reveal_strlit("routing");
    reveal_strlit("in_map");
    let n = dw_agent_graph_node(pack_id)->JObj_0;
    assert(n[0].0.len() == 14 && n[1].0.len() == 9 && n[2].0.len() == 6 && n[3].0.len() == 7);
    lemma_obj_get_only(n, "operation"@, 1);
    lemma_obj_get_only(n, "in_map"@, 2);
    lemma_obj_get_only(n, "routing"@, 3);
}

/// A `dw.agent` node runs the agent named by the injection and routes to
/// its successor, or ends the flow (`[{"out": true}]`) where it has none.
pub proof fn lemma_dw_agent_node_shape(agent_id: Seq<char>, successor: Option<Seq<char>>)
    ensures
        ({
            let n = dw_agent_node(agent_id, successor)->JObj_0;
            &&& obj_get(n, "operation"@) == Some(JsonV::JStr(agent_id))
            &&& obj_get(n, "routing"@) == Some(
                match successor {
                    Some(s) => JsonV::JArr(seq![JsonV::JObj(seq![("to"@, JsonV::JStr(s))])]),
                    None => terminal_routing(),
                },
            )
        }),
{
    reveal_strlit("dw.agent");
    reveal_strlit("operation");
    reveal_strlit("routing");
    let n = dw_agent_node(agent_id, successor)->JObj_0;
    assert(n[0].0.len() == 8 && n[1].0.len() == 9 && n[2].0.len() == 7);
    lemma_obj_get_only(n, "operation"@, 1);
    lemma_obj_get_only(n, "routing"@, 2);
}

/// A flow document the injectors can edit: a mapping, or empty (`null`).
pub open spec fn is_document(doc: JsonV) -> bool {
    doc is JObj || doc is JNull
}

/// The document's top-level entries once `nodes` is ensured to exist.
pub open spec fn with_nodes(doc: JsonV) -> Seq<(Seq<char>, JsonV)> {
    let e = match doc {
        JsonV::JObj(e) => e,
        _ => Seq::empty(),
    };
    if has_key(e, "nodes"@) {
        e
    } else {
        obj_insert(e, "nodes"@, empty_obj())
    }
}

/// Each node inserted (or replaced) in order.
pub open spec fn nodes_fold(n: Seq<(Seq<char>, JsonV)>, ins: Seq<(Seq<char>, JsonV)>) -> Seq<(Seq<char>, JsonV)>
    decreases ins.len(),
{
    if ins.len() == 0 {
        n
    } else {
        obj_insert(nodes_fold(n, ins.drop_last()), ins.last().0, ins.last().1)
    }
}

/// The document with the nodes inserted under `nodes`, or the error
/// `"<who>: YGTC `nodes` is not a mapping"`.
pub open spec fn edit_nodes_spec(doc: JsonV, who: Seq<char>, ins: Seq<(Seq<char>, JsonV)>) -> Result<JsonV, Seq<char>> {
    let e = with_nodes(doc);
    match obj_get(e, "nodes"@) {
        Some(JsonV::JObj(n)) => Ok(jobj(obj_insert(e, "nodes"@, jobj(nodes_fold(n, ins))))),
        _ => Err(who + ": YGTC `nodes` is not a mapping"@),
    }
}

/// A parse failure, reported as `"<who>: parse YGTC: <error>"`.
pub open spec fn parse_error(who: Seq<char>, e: Seq<char>) -> Seq<char> {
    who + ": parse YGTC: "@ + e
}

pub(crate) fn empty_object() -> (r: Json)
    ensures
        r@ == empty_obj(),
{
    let v: Vec<(String, Json)> = Vec::new();
    assert(entry_models(v@) =~= Seq::empty());
    json_object(v)
}

pub(crate) fn out_routing_json() -> (r: Json)
    ensures
        r@ == out_routing(),
{
    let mut o: Vec<(String, Json)> = Vec::new();
    assert(entry_models(o@) =~= Seq::empty());
    push_entry(&mut o, "out", Json::Bool(true));
    assert(entry_models(o@) =~= seq![("out"@, JsonV::JBool(true))]);
    let mut a: Vec<Json> = Vec::new();
    assert(models(a@) =~= Seq::empty());
    push_item(&mut a, json_object(o));
    assert(models(a@) =~= seq![jobj(seq![("out"@, JsonV::JBool(true))])]);
    json_array(a)
}

pub(crate) fn user_text_map_json() -> (r: Json)
    ensures
        r@ == user_text_map(),
{
    let mut o: Vec<(String, Json)> = Vec::new();
    assert(entry_models(o@) =~= Seq::empty());
    push_entry(&mut o, "user_text", json_str("{{in.text}}"));
    assert(entry_models(o@) =~= seq![("user_text"@, jstr("{{in.text}}"@))]);
    json_object(o)
}

fn dw_agent_node_json(injection: &DwAgentInjection) -> (r: Json)
    ensures
        r@ == dw_agent_node(injection.agent_id@, opt_view(injection.successor_id)),
{
    let routing = match &injection.successor_id {
        Some(successor) => {
            let mut o: Vec<(String, Json)> = Vec::new();
            assert(entry_models(o@) =~= Seq::empty());
            push_entry(&mut o, "to", Json::Str(successor.clone()));
            assert(entry_models(o@) =~= seq![("to"@, jstr(successor@))]);
            let mut a: Vec<Json> = Vec::new();
            assert(models(a@) =~= Seq::empty());
            push_item(&mut a, json_object(o));
            assert(models(a@) =~= seq![jobj(seq![("to"@, jstr(successor@))])]);
            json_array(a)
        },
        None => out_routing_json(),
    };
    let mut n: Vec<(String, Json)> = Vec::new();
    assert(entry_models(n@) =~= Seq::empty());
    push_entry(&mut n, "dw.agent", empty_object());
    push_entry(&mut n, "operation", Json::Str(injection.agent_id.clone()));
    push_entry(&mut n, "routing", routing);
    let ghost expect = dw_agent_node(injection.agent_id@, opt_view(injection.successor_id));
    assert(entry_models(n@) =~= expect->JObj_0);
    json_object(n)
}

/// The `dw.agent_graph` node for `pack_id`.
pub fn dw_agent_graph_node_json(pack_id: &str) -> (r: Json)
    ensures
        r@ == dw_agent_graph_node(pack_id@),
{
    let mut n: Vec<(String, Json)> = Vec::new();
    assert(entry_models(n@) =~= Seq::empty());
    push_entry(&mut n, "dw.agent_graph", empty_object());
    push_entry(&mut n, "operation", json_str(pack_id));
    push_entry(&mut n, "in_map", user_text_map_json());
    push_entry(&mut n, "routing", out_routing_json());
    assert(entry_models(n@) =~= dw_agent_graph_node(pack_id@)->JObj_0);
    json_object(n)
}

/// The `operala.call` node for `target`.
pub fn operala_call_node_json(target: &str, deep_worker: &Json, llm: &Json) -> (r: Json)
    ensures
        r@ == operala_call_node(target@, deep_worker@, llm@),
{
    let mut input: Vec<(String, Json)> = Vec::new();
    assert(entry_models(input@) =~= Seq::empty());
    push_entry(&mut input, "deep_worker", deep_worker.copy());
    push_entry(&mut input, "llm", llm.copy());
    push_entry(&mut input, "user_text", json_str("{{in.text}}"));
    let ghost input_e = seq![
        ("deep_worker"@, deep_worker@),
        ("llm"@, llm@),
        ("user_text"@, jstr("{{in.text}}"@)),
    ];
    assert(entry_models(input@) =~= input_e);
    let mut call: Vec<(String, Json)> = Vec::new();
    assert(entry_models(call@) =~= Seq::empty());
    push_entry(&mut call, "await", Json::Bool(true));
    push_entry(&mut call, "operation", json_str("invoke"));
    push_entry(&mut call, "input", json_object(input));
    assert(entry_models(call@) =~= seq![
        ("await"@, JsonV::JBool(true)),
        ("operation"@, jstr("invoke"@)),
        ("input"@, jobj(input_e)),
    ]);
    let mut n: Vec<(String, Json)> = Vec::new();
    assert(entry_models(n@) =~= Seq::empty());
    push_entry(&mut n, "operala.call", json_object(call));
    push_entry(&mut n, "operation", json_str(target));
    push_entry(&mut n, "routing", out_routing_json());
    assert(entry_models(n@) =~= operala_call_node(target@, deep_worker@, llm@)->JObj_0);
    json_object(n)
}

/// Insert `nodes` (key, node) pairs under the document's `nodes` mapping,
/// creating an empty mapping when the document has none.
fn edit_nodes(doc: Json, who: &str, nodes: Vec<(String, Json)>) -> (r: Result<Json, String>)
    requires
        is_document(doc@),
    ensures
        match (r, edit_nodes_spec(doc@, who@, entry_models(nodes@))) {
            (Ok(d), Ok(m)) => d@ == m,
            (Err(e), Err(m)) => e@ == m,
            _ => false,
        },
{
    let mut entries: Vec<(String, Json)> = match doc {
        Json::Object(e) => e,
        _ => Vec::new(),
    };
    proof {
        lemma_object_model(entries);
        assert(entry_models(entries@) == match doc@ {
            JsonV::JObj(e) => e,
            _ => Seq::empty(),
        }) by {
            if !(doc@ is JObj) {
                assert(entry_models(entries@) =~= Seq::empty());
            }
        }
    }
    let ghost e0 = entry_models(entries@);
    let idx = find_key(&entries, "nodes");
    if idx.is_none() {
        insert_entry(&mut entries, "nodes".to_owned(), empty_object());
    }
    let ghost e = entry_models(entries@);
    assert(e == with_nodes(doc@));
    let i = find_key(&entries, "nodes");
    proof {
        if !has_key(e0, "nodes"@) {
            crate::json::lemma_obj_insert_has_key(e0, "nodes"@, empty_obj());
        }
    }
    let i = match i {
        Some(i) => i,
        None => {
            return Err(concat(who, ": YGTC `nodes` is not a mapping"));
        },
    };
    proof {
        lemma_first_key(e, "nodes"@, i as int);
    }
    let ghost nodes_val = e[i as int].1;
    assert(obj_get(e, "nodes"@) == Some(nodes_val));
    let c = entries[i].1.copy();
    let mut n: Vec<(String, Json)> = match c {
        Json::Object(v) => v,
        _ => {
            return Err(concat(who, ": YGTC `nodes` is not a mapping"));
        },
    };
    proof {
        lemma_object_model(n);
    }
    let ghost n0 = entry_models(n@);
    assert(nodes_val == jobj(n0));
    let ghost ins = entry_models(nodes@);
    let mut j: usize = 0;
    assert(ins.take(0) =~= Seq::<(Seq<char>, JsonV)>::empty());
    while j < nodes.len()
        invariant
            0 <= j <= nodes.len(),
            ins == entry_models(nodes@),
            entry_models(n@) == nodes_fold(n0, ins.take(j as int)),
        decreases nodes.len() - j,
    {
        assert(ins.take(j + 1).drop_last() =~= ins.take(j as int));
        assert(ins.take(j + 1).last() == (nodes@[j as int].0@, nodes@[j as int].1@));
        insert_entry(&mut n, nodes[j].0.clone(), nodes[j].1.copy());
        j = j + 1;
    }
    assert(ins.take(nodes.len() as int) =~= ins);
    insert_entry(&mut entries, "nodes".to_owned(), json_object(n));
    Ok(json_object(entries))
}

/// The `nodes` entries of a run of `dw.agent` injections.
pub open spec fn injection_nodes(s: Seq<DwAgentInjection>) -> Seq<(Seq<char>, JsonV)> {
    Seq::new(s.len(), |i: int| (s[i].node_id@, dw_agent_node(s[i].agent_id@, opt_view(s[i].successor_id))))
}

/// What an injector owes for a parse outcome: the parse error reported
/// under its own name, or the document with `ins` inserted under `nodes`.
pub open spec fn injected(parsed: Result<Json, String>, who: Seq<char>, ins: Seq<(Seq<char>, JsonV)>) -> Result<JsonV, Seq<char>> {
    match parsed {
        Ok(d) => edit_nodes_spec(d@, who, ins),
        Err(e) => Err(parse_error(who, e@)),
    }
}

/// The model of a document-or-message result.
pub open spec fn doc_result(r: Result<Json, String>) -> Result<JsonV, Seq<char>> {
    match r {
        Ok(d) => Ok(d@),
        Err(e) => Err(e@),
    }
}

/// The parse outcome is an error or an editable document.
pub open spec fn parsed_ok(parsed: Result<Json, String>) -> bool {
    parsed matches Ok(d) ==> is_document(d@)
}

fn finish_injection(parsed: Result<Json, String>, who: &str, nodes: Vec<(String, Json)>) -> (r: Result<Json, String>)
    requires
        parsed_ok(parsed),
    ensures
        doc_result(r) == injected(parsed, who@, entry_models(nodes@)),
{
    match parsed {
        Ok(doc) => {
            let r = edit_nodes(doc, who, nodes);
            r
        },
        Err(e) => {
            let m = concat(who, ": parse YGTC: ");
            let mut out = m;
            out.append(e.as_str());
            Err(out)
        },
    }
}

/// Insert (or replace) one `dw.agent` node in op-key form per injection
/// into the flow document `parsed` (the outcome of parsing the YGTC text):
/// `nodes.<node_id>` becomes `{dw.agent: {}, operation: <agent_id>,
/// routing: [{to: <successor>}]}`, or `[{out: true}]` routing when there is
/// no successor.
///
/// With no injections the text is left as it is, whatever the parse gave:
/// the result is `Ok(None)`. Otherwise a parse error is reported as
/// `inject_dw_agent_nodes: parse YGTC: <error>`, a `nodes` that is not a
/// mapping as `inject_dw_agent_nodes: YGTC `nodes` is not a mapping`.
pub fn inject_dw_agent_nodes(parsed: Result<Json, String>, injections: &[DwAgentInjection]) -> (r: Result<Option<Json>, String>)
    requires
        parsed_ok(parsed),
    ensures
        injections@.len() == 0 ==> r == Ok::<Option<Json>, String>(None),
        injections@.len() > 0 ==> match (r, injected(parsed, "inject_dw_agent_nodes"@, injection_nodes(injections@))) {
            (Ok(Some(d)), Ok(m)) => d@ == m,
            (Err(e), Err(m)) => e@ == m,
            _ => false,
        },
{
    if injections.len() == 0 {
        return Ok(None);
    }
    let mut nodes: Vec<(String, Json)> = Vec::new();
    let mut i: usize = 0;
    while i < injections.len()
        invariant
            0 <= i <= injections@.len(),
            entry_models(nodes@) =~= injection_nodes(injections@).take(i as int),
        decreases injections@.len() - i,
    {
        let node = dw_agent_node_json(&injections[i]);
        let ghost before = nodes@;
        nodes.push((injections[i].node_id.clone(), node));
        assert(entry_models(nodes@) =~= entry_models(before).push((injections@[i as int].node_id@, node@)));
        assert(injection_nodes(injections@).take(i + 1) =~= injection_nodes(injections@).take(i as int).push(injection_nodes(injections@)[i as int]));
        i = i + 1;
    }
    assert(injection_nodes(injections@).take(injections@.len() as int) =~= injection_nodes(injections@));
    match finish_injection(parsed, "inject_dw_agent_nodes", nodes) {
        Ok(d) => Ok(Some(d)),
        Err(e) => Err(e),
    }
}

/// The error for an empty pack id: an empty `operation` would never match
/// the sidecar graph key.
pub open spec fn empty_pack_id_error() -> Seq<char> {
    "inject_dw_agent_graph_node: pack_id is empty; operation would never resolve against the sidecar graph key"@
}

/// Insert the single `dw.agent_graph` node keyed `agent_graph` whose
/// `operation` is `pack_id` (the key the runner loads the sidecar graph
/// under), mapping the inbound text into `user_text`, with terminal routing.
///
/// An empty `pack_id` is refused before the document is looked at.
pub fn inject_dw_agent_graph_node(parsed: Result<Json, String>, pack_id: &str) -> (r: Result<Json, String>)
    requires
        parsed_ok(parsed),
    ensures
        pack_id@.len() == 0 ==> (r matches Err(e) && e@ == empty_pack_id_error()),
        pack_id@.len() > 0 ==> doc_result(r) == injected(
            parsed,
            "inject_dw_agent_graph_node"@,
            seq![("agent_graph"@, dw_agent_graph_node(pack_id@))],
        ),
{
    if pack_id.unicode_len() == 0 {
        return Err("inject_dw_agent_graph_node: pack_id is empty; operation would never resolve against the sidecar graph key".to_owned());
    }
    let mut nodes: Vec<(String, Json)> = Vec::new();
    assert(entry_models(nodes@) =~= Seq::empty());
    push_entry(&mut nodes, "agent_graph", dw_agent_graph_node_json(pack_id));
    assert(entry_models(nodes@) =~= seq![("agent_graph"@, dw_agent_graph_node(pack_id@))]);
    finish_injection(parsed, "inject_dw_agent_graph_node", nodes)
}

/// Insert the single `operala.call` node keyed `deep_worker` for the
/// deep-worker lane: the payload (`deep_worker` config, the worker's `llm`
/// binding and the inbound text as `user_text`) lives inside the op-key
/// value, `operation` is `target`, routing is terminal.
///
/// A blank `target` (empty or whitespace) is refused before the document
/// is looked at, as `operala.call target must not be empty`.
pub fn inject_operala_call_node(parsed: Result<Json, String>, target: &str, deep_worker: &Json, llm: &Json) -> (r: Result<Json, String>)
    requires
        parsed_ok(parsed),
    ensures
        is_blank(target@) ==> (r matches Err(e) && e@ == "operala.call target must not be empty"@),
        !is_blank(target@) ==> doc_result(r) == injected(
            parsed,
            "inject_operala_call_node"@,
            seq![("deep_worker"@, operala_call_node(target@, deep_worker@, llm@))],
        ),
{
    if is_blank_exec(target) {
        return Err("operala.call target must not be empty".to_owned());
    }
    let mut nodes: Vec<(String, Json)> = Vec::new();
    assert(entry_models(nodes@) =~= Seq::empty());
    push_entry(&mut nodes, "deep_worker", operala_call_node_json(target, deep_worker, llm));
    assert(entry_models(nodes@) =~= seq![("deep_worker"@, operala_call_node(target@, deep_worker@, llm@))]);
    finish_injection(parsed, "inject_operala_call_node", nodes)
}

/// Embed (or replace) the `dw-agents.json` sidecar, holding `agents_json`
/// (the serialized `agents`), in the pack, then reseal: every other entry
/// is kept verbatim, and the rewritten pack's reseal is planned (see
/// [`crate::cbor_flow_post::inject_sidecar`]). With no agents nothing is
/// written: the result is `Ok(None)` and the pack stays as it was.
pub fn embed_dw_agents(pack_bytes: &[u8], agents: &AgentConfigs, agents_json: &[u8]) -> (r: Result<Option<Resealing>, PostProcessError>)
    ensures
        agents.view_entries().len() == 0 <==> r matches Ok(None),
        r matches Ok(Some(s)) ==> resealing_of(
            kept(zip_entries(pack_bytes@), seq!["dw-agents.json"@]).push(("dw-agents.json"@, agents_json@)),
            s,
        ),
        r matches Err(e) ==> is_archive_error(e),
        (agents.view_entries().len() > 0 && rewritable(pack_bytes@) && data_fits(agents_json@)) ==> r matches Ok(
            Some(_),
        ),
{
    if agents.len() == 0 {
        return Ok(None);
    }
    proof {
        reveal_strlit("dw-agents.json");
    }
    match inject_sidecar(pack_bytes, "dw-agents.json", agents_json) {
        Ok(s) => Ok(Some(s)),
        Err(e) => Err(e),
    }
}

/// The node an injection run leaves under `key`: the last one injected
/// under it, if any.
pub open spec fn last_injected(ins: Seq<(Seq<char>, JsonV)>, key: Seq<char>) -> Option<JsonV>
    decreases ins.len(),
{
    if ins.len() == 0 {
        None
    } else if ins.last().0 == key {
        Some(ins.last().1)
    } else {
        last_injected(ins.drop_last(), key)
    }
}

/// Injecting nodes replaces the node under each injected key with the
/// last node injected under it, and leaves every other node as it was.
pub proof fn lemma_nodes_fold_get(n: Seq<(Seq<char>, JsonV)>, ins: Seq<(Seq<char>, JsonV)>, key: Seq<char>)
    ensures
        obj_get(nodes_fold(n, ins), key) == match last_injected(ins, key) {
            Some(x) => Some(x),
            None => obj_get(n, key),
        },
    decreases ins.len(),
{
    if ins.len() > 0 {
        lemma_nodes_fold_get(n, ins.drop_last(), key);
        if ins.last().0 == key {
            crate::json::lemma_obj_insert_has_key(nodes_fold(n, ins.drop_last()), key, ins.last().1);
        } else {
            crate::json::lemma_obj_insert_other(nodes_fold(n, ins.drop_last()), ins.last().0, ins.last().1, key);
        }
    }
}

/// The insert-or-replace law of the injectors: where an injector succeeds
/// on a document, the result's `nodes` holds, under every injected key,
/// the last node injected under it, and under every other key what the
/// document's `nodes` held (nothing where it had no `nodes`); the
/// document's other top-level entries stay as they were.
pub proof fn lemma_injection_reads_back(doc: JsonV, who: Seq<char>, ins: Seq<(Seq<char>, JsonV)>, key: Seq<char>, top: Seq<char>)
    requires
        is_document(doc),
        edit_nodes_spec(doc, who, ins) is Ok,
    ensures
        edit_nodes_spec(doc, who, ins)->Ok_0 matches JsonV::JObj(e) && (obj_get(e, "nodes"@) matches Some(JsonV::JObj(n))
            && obj_get(n, key) == match last_injected(ins, key) {
            Some(x) => Some(x),
            None => match obj_get(with_nodes(doc), "nodes"@) {
                Some(JsonV::JObj(n0)) => obj_get(n0, key),
                _ => None,
            },
        }),
        top != "nodes"@ ==> (edit_nodes_spec(doc, who, ins)->Ok_0 matches JsonV::JObj(e) && obj_get(e, top) == match doc {
            JsonV::JObj(d) => obj_get(d, top),
            _ => None,
        }),
{
    let e = with_nodes(doc);
    let d = match doc {
        JsonV::JObj(d) => d,
        _ => Seq::empty(),
    };
    if let Some(JsonV::JObj(n0)) = obj_get(e, "nodes"@) {
        let out = obj_insert(e, "nodes"@, jobj(nodes_fold(n0, ins)));
        crate::json::lemma_obj_insert_has_key(e, "nodes"@, jobj(nodes_fold(n0, ins)));
        lemma_nodes_fold_get(n0, ins, key);
        if top != "nodes"@ {
            crate::json::lemma_obj_insert_other(e, "nodes"@, jobj(nodes_fold(n0, ins)), top);
            if !has_key(d, "nodes"@) {
                crate::json::lemma_obj_insert_other(d, "nodes"@, empty_obj(), top);
            }
        }
    }
}

/// The index of the first entry keyed `k`.
fn find_key(entries: &Vec<(String, Json)>, k: &str) -> (r: Option<usize>)
    ensures
        match r {
            Some(i) => crate::json::is_first_key(entry_models(entries@), k@, i as int),
            None => !has_key(entry_models(entries@), k@),
        },
{
    let ghost m = entry_models(entries@);
    let mut i: usize = 0;
    while i < entries.len()
        invariant
            0 <= i <= entries.len(),
            m == entry_models(entries@),
            forall|j: int| 0 <= j < i ==> m[j].0 != k@,
        decreases entries.len() - i,
    {
        if entries[i].0 == k.to_owned() {
            return Some(i);
        }
        i = i + 1;
    }
    None
}

} // verus!
