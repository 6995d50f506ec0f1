//! YGTC (YAML flow) text in and out. The text is parsed by `serde_yaml_bw`
//! into a `serde_json::Value`, which is read into the library's [`Json`];
//! a [`Json`] is built back into a `serde_json::Value` and written by
//! `serde_yaml_bw`. A `serde_json::Value`'s maps iterate sorted by key, so
//! a document written out has its mappings in key order.
use serde_json::{Number, Value};
use vstd::prelude::*;
use crate::json::{Json, JsonV, entry_models, lemma_array_model, lemma_object_model, models};
use crate::ordered::kinsert;
use crate::inject::{
    DwAgentInjection, doc_result, dw_agent_graph_node, edit_nodes_spec, empty_pack_id_error, injection_nodes,
    is_document, operala_call_node, parse_error,
};
use crate::text::{concat, is_blank};

verus! {

/// `serde_json::Value`, held opaque; what it holds is [`value_view`].
#[verifier::external_type_specification]
#[verifier::external_body]
pub struct ExJsonValue(Value);

/// The JSON value a `serde_json::Value` holds: a mapping as its entries in
/// the map's iteration order, a number as its text.
pub uninterp spec fn value_view(v: Value) -> JsonV;

/// What `serde_yaml_bw::from_str` makes of YGTC text, read as a
/// `serde_json::Value`: the document, or the error's message.
pub uninterp spec fn ygtc_parse(text: Seq<char>) -> Result<JsonV, Seq<char>>;

/// What `serde_yaml_bw::to_string` writes for a `serde_json::Value`
/// holding `doc`: the text, or the error's message.
pub uninterp spec fn ygtc_emit(doc: JsonV) -> Result<Seq<char>, Seq<char>>;

/// The text of the `serde_json::Number` that `serde_json` parses out of
/// `t`, if `t` parses as one.
pub uninterp spec fn number_text(t: Seq<char>) -> Option<Seq<char>>;

/// One level of a `serde_json::Value`: its kind and its immediate parts.
pub enum ValueNode {
    Null,
    Bool(bool),
    Number(String),
    Str(String),
    Array(Vec<Value>),
    Object(Vec<(String, Value)>),
}

/// What a level holds, its parts taken by [`value_view`].
pub open spec fn node_view(n: ValueNode) -> JsonV {
    match n {
        ValueNode::Null => JsonV::JNull,
        ValueNode::Bool(b) => JsonV::JBool(b),
        ValueNode::Number(t) => JsonV::JNum(t@),
        ValueNode::Str(s) => JsonV::JStr(s@),
        ValueNode::Array(vs) => JsonV::JArr(Seq::new(vs@.len(), |i: int| value_view(vs@[i]))),
        ValueNode::Object(es) => JsonV::JObj(Seq::new(es@.len(), |i: int| (es@[i].0@, value_view(es@[i].1)))),
    }
}

/// Entries gathered into a map that iterates sorted by key: each key once,
/// a later entry under a key replacing the earlier value.
pub open spec fn sorted_entries(e: Seq<(Seq<char>, JsonV)>) -> Seq<(Seq<char>, JsonV)>
    decreases e.len(),
{
    if e.len() == 0 {
        e
    } else {
        kinsert(sorted_entries(e.drop_last()), e.last().0, e.last().1)
    }
}

/// The document a `serde_json::Value` built from `j` holds: every mapping
/// in key order (a later duplicate key winning), every number as the text
/// `serde_json` gives it, a number it does not parse as `null`.
pub open spec fn yaml_form(j: JsonV) -> JsonV
    decreases j,
{
    match j {
        JsonV::JNum(t) => match number_text(t) {
            Some(n) => JsonV::JNum(n),
            None => JsonV::JNull,
        },
        JsonV::JArr(s) => JsonV::JArr(
            Seq::new(
                s.len(),
                |i: int|
                    if 0 <= i < s.len() {
                        proof {
                            assert(decreases_to!(s => s[i]));
                        }
                        yaml_form(s[i])
                    } else {
                        JsonV::JNull
                    },
            ),
        ),
        JsonV::JObj(e) => JsonV::JObj(sorted_entries(form_entries(e))),
        _ => j,
    }
}

/// Each entry's value in its [`yaml_form`].
pub open spec fn form_entries(e: Seq<(Seq<char>, JsonV)>) -> Seq<(Seq<char>, JsonV)>
    decreases e,
{
    Seq::new(
        e.len(),
        |i: int|
            if 0 <= i < e.len() {
                proof {
                    assert(decreases_to!(e => e[i]));
                    assert(decreases_to!(e[i] => e[i].1));
                }
                (e[i].0, yaml_form(e[i].1))
            } else {
                (Seq::empty(), JsonV::JNull)
            },
    )
}

/// A text-or-message result, by view.
pub open spec fn text_result(r: Result<String, String>) -> Result<Seq<char>, Seq<char>> {
    match r {
        Ok(t) => Ok(t@),
        Err(m) => Err(m@),
    }
}

/// `serde_yaml_bw::from_str::<serde_json::Value>`, the error as its message.
#[verifier::external_body]
fn yaml_parse(text: &str) -> (r: Result<Value, String>)
    ensures
        ygtc_parse(text@) == match r {
            Ok(v) => Ok::<JsonV, Seq<char>>(value_view(v)),
            Err(m) => Err::<JsonV, Seq<char>>(m@),
        },
{
    serde_yaml_bw::from_str::<Value>(text).map_err(|e| e.to_string())
}

/// `serde_yaml_bw::to_string` of a `serde_json::Value`, the error as its
/// message.
#[verifier::external_body]
fn yaml_emit(v: &Value) -> (r: Result<String, String>)
    ensures
        text_result(r) == ygtc_emit(value_view(*v)),
{
    serde_yaml_bw::to_string(v).map_err(|e| e.to_string())
}

/// The variants of `serde_json::Value` told apart: a number as its
/// `Display` text, an array's items, a map's entries in iteration order.
#[verifier::external_body]
fn value_node(v: &Value) -> (r: ValueNode)
    ensures
        node_view(r) == value_view(*v),
{
    match v {
        Value::Null => ValueNode::Null,
        Value::Bool(b) => ValueNode::Bool(*b),
        Value::Number(n) => ValueNode::Number(n.to_string()),
        Value::String(s) => ValueNode::Str(s.clone()),
        Value::Array(a) => ValueNode::Array(a.clone()),
        Value::Object(m) => ValueNode::Object(m.iter().map(|(k, x)| (k.clone(), x.clone())).collect()),
    }
}

/// `serde_json::Value::Null`.
#[verifier::external_body]
fn value_null() -> (r: Value)
    ensures
        value_view(r) == JsonV::JNull,
{
    Value::Null
}

/// `serde_json::Value::Bool`.
#[verifier::external_body]
fn value_bool(b: bool) -> (r: Value)
    ensures
        value_view(r) == JsonV::JBool(b),
{
    Value::Bool(b)
}

/// `serde_json::Value::String`.
#[verifier::external_body]
fn value_string(s: String) -> (r: Value)
    ensures
        value_view(r) == JsonV::JStr(s@),
{
    Value::String(s)
}

/// `serde_json::from_str::<serde_json::Number>`, as a `Value::Number`.
#[verifier::external_body]
fn value_number(t: &str) -> (r: Option<Value>)
    ensures
        match r {
            Some(v) => number_text(t@) matches Some(n) && value_view(v) == JsonV::JNum(n),
            None => number_text(t@) is None,
        },
{
    serde_json::from_str::<Number>(t).ok().map(Value::Number)
}

/// `serde_json::Value::Array`.
#[verifier::external_body]
fn value_array(items: Vec<Value>) -> (r: Value)
    ensures
        value_view(r) == JsonV::JArr(Seq::new(items@.len(), |i: int| value_view(items@[i]))),
{
    Value::Array(items)
}

/// `serde_json::Value::Object` of a map collected from `entries`: a map
/// iterates sorted by key, and a later entry under a key replaces the
/// earlier value.
#[verifier::external_body]
fn value_object(entries: Vec<(String, Value)>) -> (r: Value)
    ensures
        value_view(r) == JsonV::JObj(sorted_entries(Seq::new(entries@.len(), |i: int| (entries@[i].0@, value_view(entries@[i].1))))),
{
    Value::Object(entries.into_iter().collect::<serde_json::Map<String, Value>>())
}

/// Read a `serde_json::Value` into a [`Json`] holding the same value.
#[verifier::loop_isolation(false)]
fn json_of_value(v: &Value) -> (r: Json)
    ensures
        r@ == value_view(*v),
    decreases value_view(*v),
{
    let node = value_node(v);
    match node {
        ValueNode::Null => Json::Null,
        ValueNode::Bool(b) => Json::Bool(b),
        ValueNode::Number(t) => Json::Number(t),
        ValueNode::Str(s) => Json::Str(s),
        ValueNode::Array(vs) => {
            let ghost sv = Seq::new(vs@.len(), |i: int| value_view(vs@[i]));
            assert(value_view(*v) == JsonV::JArr(sv));
            let mut out: Vec<Json> = Vec::new();
            let mut i: usize = 0;
            while i < vs.len()
                invariant
                    0 <= i <= vs.len(),
                    models(out@) =~= sv.take(i as int),
                decreases vs.len() - i,
            {
                proof {
                    assert(sv[i as int] == value_view(vs@[i as int]));
                    let top = value_view(*v);
                    assert(top->JArr_0 == sv);
                    assert(decreases_to!(top => top->JArr_0));
                    assert(decreases_to!(top->JArr_0 => top->JArr_0[i as int]));
                }
                let x = json_of_value(&vs[i]);
                out.push(x);
                assert(sv.take(i + 1) =~= sv.take(i as int).push(sv[i as int]));
                i = i + 1;
            }
            assert(sv.take(vs.len() as int) =~= sv);
            proof {
                lemma_array_model(out);
            }
            Json::Array(out)
        },
        ValueNode::Object(es) => {
            let ghost se = Seq::new(es@.len(), |i: int| (es@[i].0@, value_view(es@[i].1)));
            assert(value_view(*v) == JsonV::JObj(se));
            let mut out: Vec<(String, Json)> = Vec::new();
            let mut i: usize = 0;
            while i < es.len()
                invariant
                    0 <= i <= es.len(),
                    entry_models(out@) =~= se.take(i as int),
                decreases es.len() - i,
            {
                proof {
                    assert(se[i as int] == (es@[i as int].0@, value_view(es@[i as int].1)));
                    let top = value_view(*v);
                    assert(top->JObj_0 == se);
                    assert(decreases_to!(top => top->JObj_0));
                    assert(decreases_to!(top->JObj_0 => top->JObj_0[i as int]));
                    assert(decreases_to!(top->JObj_0[i as int] => top->JObj_0[i as int].1));
                }
                let x = json_of_value(&es[i].1);
                let k = es[i].0.clone();
                let ghost before = out@;
                out.push((k, x));
                assert(entry_models(out@) =~= entry_models(before).push((k@, x@)));
                assert(se.take(i + 1) =~= se.take(i as int).push(se[i as int]));
                i = i + 1;
            }
            assert(se.take(es.len() as int) =~= se);
            proof {
                lemma_object_model(out);
            }
            Json::Object(out)
        },
    }
}

/// Build a `serde_json::Value` from a [`Json`]: it holds the document's
/// [`yaml_form`].
#[verifier::loop_isolation(false)]
fn value_of_json(j: &Json) -> (r: Value)
    ensures
        value_view(r) == yaml_form(j@),
    decreases j,
{
    match j {
        Json::Null => value_null(),
        Json::Bool(b) => value_bool(*b),
        Json::Number(t) => match value_number(t.as_str()) {
            Some(x) => x,
            None => value_null(),
        },
        Json::Str(s) => value_string(s.clone()),
        Json::Array(items) => {
            proof {
                lemma_array_model(*items);
            }
            let ghost sm = models(items@);
            let mut out: Vec<Value> = Vec::new();
            let mut i: usize = 0;
            while i < items.len()
                invariant
                    0 <= i <= items.len(),
                    out@.len() == i,
                    forall|k: int| 0 <= k < i ==> value_view(#[trigger] out@[k]) == yaml_form(sm[k]),
                decreases items.len() - i,
            {
                proof {
                    assert(decreases_to!(*j => *items));
                    assert(decreases_to!(*items => items@));
                    assert(decreases_to!(items@ => items@[i as int]));
                }
                let x = value_of_json(&items[i]);
                out.push(x);
                i = i + 1;
            }
            let ghost views = Seq::new(out@.len(), |k: int| value_view(out@[k]));
            assert(j@ == JsonV::JArr(sm));
            assert(yaml_form(j@)->JArr_0 =~= views);
            value_array(out)
        },
        Json::Object(entries) => {
            proof {
                lemma_object_model(*entries);
            }
            let ghost em = entry_models(entries@);
            let mut out: Vec<(String, Value)> = Vec::new();
            let mut i: usize = 0;
            while i < entries.len()
                invariant
                    0 <= i <= entries.len(),
                    out@.len() == i,
                    forall|k: int| 0 <= k < i ==> (#[trigger] out@[k]).0@ == em[k].0 && value_view(out@[k].1) == yaml_form(em[k].1),
                decreases entries.len() - i,
            {
                proof {
                    assert(decreases_to!(*j => *entries));
                    assert(decreases_to!(*entries => entries@));
                    assert(decreases_to!(entries@ => entries@[i as int]));
                    assert(decreases_to!(entries@[i as int] => entries@[i as int].1));
                }
                let x = value_of_json(&entries[i].1);
                let k = entries[i].0.clone();
                out.push((k, x));
                i = i + 1;
            }
            let ghost views = Seq::new(out@.len(), |k: int| (out@[k].0@, value_view(out@[k].1)));
            assert(j@ == JsonV::JObj(em));
            assert(views =~= form_entries(em));
            value_object(out)
        },
    }
}

/// Parse YGTC text into a document, or the parser's message.
pub fn parse_ygtc(text: &str) -> (r: Result<Json, String>)
    ensures
        doc_result(r) == ygtc_parse(text@),
{
    match yaml_parse(text) {
        Ok(v) => Ok(json_of_value(&v)),
        Err(m) => Err(m),
    }
}

/// Write a document as YGTC text (its [`yaml_form`]), or the serializer's
/// message.
pub fn write_ygtc(doc: &Json) -> (r: Result<String, String>)
    ensures
        text_result(r) == ygtc_emit(yaml_form(doc@)),
{
    let v = value_of_json(doc);
    yaml_emit(&v)
}

/// YGTC text the injectors can edit: it does not parse, or it parses to
/// a mapping or to nothing. (On any other document the injectors' indexing
/// of `nodes` panics.)
pub open spec fn ygtc_editable(text: Seq<char>) -> bool {
    ygtc_parse(text) matches Ok(d) ==> is_document(d)
}

/// A document written back as YGTC by `who`: the text, or the error
/// `"<who>: serialise YGTC: <error>"`.
pub open spec fn ygtc_written(who: Seq<char>, d: JsonV) -> Result<Seq<char>, Seq<char>> {
    match ygtc_emit(yaml_form(d)) {
        Ok(t) => Ok(t),
        Err(m) => Err(who + ": serialise YGTC: "@ + m),
    }
}

/// What injecting `ins` under `nodes` of YGTC `text` writes: the parse
/// error, the `nodes`-not-a-mapping error, or the edited document written
/// back.
pub open spec fn ygtc_injected(text: Seq<char>, who: Seq<char>, ins: Seq<(Seq<char>, JsonV)>) -> Result<Seq<char>, Seq<char>> {
    match ygtc_parse(text) {
        Err(e) => Err(parse_error(who, e)),
        Ok(d) => match edit_nodes_spec(d, who, ins) {
            Err(m) => Err(m),
            Ok(edited) => ygtc_written(who, edited),
        },
    }
}

fn write_out(who: &str, doc: &Json) -> (r: Result<String, String>)
    ensures
        text_result(r) == ygtc_written(who@, doc@),
{
    match write_ygtc(doc) {
        Ok(t) => Ok(t),
        Err(m) => {
            let mut out = concat(who, ": serialise YGTC: ");
            out.append(m.as_str());
            Err(out)
        },
    }
}

fn editable(parsed: &Result<Json, String>) -> (r: bool)
    ensures
        r == (doc_result(*parsed) matches Ok(d) ==> is_document(d)),
{
    match parsed {
        Ok(Json::Object(_)) => true,
        Ok(Json::Null) => true,
        Ok(_) => false,
        Err(_) => true,
    }
}

/// [`crate::inject::inject_dw_agent_nodes`] on YGTC text: with no
/// injections the text comes back as it is; otherwise it is parsed, the
/// nodes are inserted, and the document is written back. `None` where the
/// text parses to a document that is neither a mapping nor empty, on which
/// indexing `nodes` panics.
pub fn inject_dw_agent_nodes_ygtc(ygtc_text: &str, injections: &[DwAgentInjection]) -> (r: Option<Result<String, String>>)
    ensures
        injections@.len() == 0 ==> (r matches Some(Ok(t)) && t@ == ygtc_text@),
        injections@.len() > 0 ==> (r is None <==> !ygtc_editable(ygtc_text@)),
        injections@.len() > 0 ==> (r matches Some(x) ==> text_result(x) == ygtc_injected(
            ygtc_text@,
            "inject_dw_agent_nodes"@,
            injection_nodes(injections@),
        )),
{
    if injections.len() == 0 {
        return Some(Ok(ygtc_text.to_owned()));
    }
    let parsed = parse_ygtc(ygtc_text);
    if !editable(&parsed) {
        return None;
    }
    match crate::inject::inject_dw_agent_nodes(parsed, injections) {
        Ok(Some(d)) => Some(write_out("inject_dw_agent_nodes", &d)),
        Ok(None) => Some(Ok(ygtc_text.to_owned())),
        Err(e) => Some(Err(e)),
    }
}

/// [`crate::inject::inject_dw_agent_graph_node`] on YGTC text: an empty
/// `pack_id` is refused before the text is read; otherwise the text is
/// parsed, the `agent_graph` node inserted, and the document written back.
/// `None` where the text parses to a document that is neither a mapping nor
/// empty, on which indexing `nodes` panics.
pub fn inject_dw_agent_graph_node_ygtc(ygtc_text: &str, pack_id: &str) -> (r: Option<Result<String, String>>)
    ensures
        pack_id@.len() == 0 ==> (r matches Some(Err(e)) && e@ == empty_pack_id_error()),
        pack_id@.len() > 0 ==> (r is None <==> !ygtc_editable(ygtc_text@)),
        pack_id@.len() > 0 ==> (r matches Some(x) ==> text_result(x) == ygtc_injected(
            ygtc_text@,
            "inject_dw_agent_graph_node"@,
            seq![("agent_graph"@, dw_agent_graph_node(pack_id@))],
        )),
{
    if pack_id.unicode_len() == 0 {
        return Some(
            Err(
                "inject_dw_agent_graph_node: pack_id is empty; operation would never resolve against the sidecar graph key".to_owned(),
            ),
        );
    }
    let parsed = parse_ygtc(ygtc_text);
    if !editable(&parsed) {
        return None;
    }
    match crate::inject::inject_dw_agent_graph_node(parsed, pack_id) {
        Ok(d) => Some(write_out("inject_dw_agent_graph_node", &d)),
        Err(e) => Some(Err(e)),
    }
}

/// [`crate::inject::inject_operala_call_node`] on YGTC text: a blank
/// `target` is refused before the text is read; otherwise the text is
/// parsed, the `deep_worker` node inserted, and the document written back.
/// `None` where the text parses to a document that is neither a mapping nor
/// empty, on which indexing `nodes` panics.
pub fn inject_operala_call_node_ygtc(ygtc_text: &str, target: &str, deep_worker: &Json, llm: &Json) -> (r: Option<
    Result<String, String>,
>)
    ensures
        is_blank(target@) ==> (r matches Some(Err(e)) && e@ == "operala.call target must not be empty"@),
        !is_blank(target@) ==> (r is None <==> !ygtc_editable(ygtc_text@)),
        !is_blank(target@) ==> (r matches Some(x) ==> text_result(x) == ygtc_injected(
            ygtc_text@,
            "inject_operala_call_node"@,
            seq![("deep_worker"@, operala_call_node(target@, deep_worker@, llm@))],
        )),
{
    if crate::text::is_blank_exec(target) {
        return Some(Err("operala.call target must not be empty".to_owned()));
    }
    let parsed = parse_ygtc(ygtc_text);
    if !editable(&parsed) {
        return None;
    }
    match crate::inject::inject_operala_call_node(parsed, target, deep_worker, llm) {
        Ok(d) => Some(write_out("inject_operala_call_node", &d)),
        Err(e) => Some(Err(e)),
    }
}

/// The single-turn worker's main flow as YGTC text: the document of
/// [`crate::loadable::single_turn_main_ygtc`] written out, or the error
/// `"single_turn_main_ygtc: serialise YGTC: <error>"`.
pub fn single_turn_main_ygtc_text(agent_id: &str) -> (r: Result<String, String>)
    ensures
        text_result(r) == ygtc_written("single_turn_main_ygtc"@, crate::loadable::single_turn_doc(agent_id@)),
{
    let doc = crate::loadable::single_turn_main_ygtc(agent_id);
    write_out("single_turn_main_ygtc", &doc)
}

} // verus!
