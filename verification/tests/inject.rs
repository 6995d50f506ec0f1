use greentic_dw_authoring::inject::{
    inject_dw_agent_graph_node, inject_dw_agent_nodes, inject_operala_call_node, DwAgentInjection,
};
use greentic_dw_authoring::json::Json;
use serde_json::Value;

fn js(text: &str) -> Value {
    serde_json::from_str(text).expect("JSON text")
}

fn to_json(v: &Value) -> Json {
    match v {
        Value::Null => Json::Null,
        Value::Bool(b) => Json::Bool(*b),
        Value::Number(n) => Json::Number(n.to_string()),
        Value::String(s) => Json::Str(s.clone()),
        Value::Array(a) => Json::Array(a.iter().map(to_json).collect()),
        Value::Object(m) => Json::Object(m.iter().map(|(k, v)| (k.clone(), to_json(v))).collect()),
    }
}

fn to_value(j: &Json) -> Value {
    match j {
        Json::Null => Value::Null,
        Json::Bool(b) => Value::Bool(*b),
        Json::Number(n) => serde_json::from_str(n).expect("number text"),
        Json::Str(s) => Value::String(s.clone()),
        Json::Array(a) => Value::Array(a.iter().map(to_value).collect()),
        Json::Object(m) => {
            let mut out = serde_json::Map::new();
            for (k, v) in m {
                out.insert(k.clone(), to_value(v));
            }
            Value::Object(out)
        }
    }
}

/// The YGTC text parsed the way the injectors' callers parse it.
fn parse(ygtc: &str) -> Result<Json, String> {
    serde_yaml_bw::from_str::<Value>(ygtc).map(|v| to_json(&v)).map_err(|e| e.to_string())
}

/// A document written back to YGTC text and read again.
fn round_trip(doc: &Json) -> (String, Value) {
    let text = serde_yaml_bw::to_string(&to_value(doc)).expect("serialise YGTC");
    let back: Value = serde_yaml_bw::from_str(&text).expect("result must be valid YAML");
    (text, back)
}

fn minimal_ygtc_with_start_to_agent() -> &'static str {
    "id: demo\ntype: messaging\nnodes:\n  start:\n    qa.process:\n      welcome: hi\n    routing:\n      - to: agent\n"
}

fn to_json_value(v: Value) -> Json {
    to_json(&v)
}

#[test]
fn inject_dw_agent_inserts_op_key_node_with_to_routing() {
    let injections = [DwAgentInjection {
        node_id: "agent".into(),
        agent_id: "greeter".into(),
        successor_id: Some("reply".into()),
    }];
    let result = inject_dw_agent_nodes(parse(minimal_ygtc_with_start_to_agent()), &injections)
        .expect("inject_dw_agent_nodes must succeed")
        .expect("a document comes back");
    let (_, doc) = round_trip(&result);

    let agent_node = doc.pointer("/nodes/agent").expect("nodes.agent must exist after injection");
    let dw_agent_value = agent_node.get("dw.agent").expect("nodes.agent must have key 'dw.agent'");
    assert_eq!(dw_agent_value, &js("{}"), "dw.agent value must be an empty object");
    assert_eq!(agent_node["operation"].as_str(), Some("greeter"), "operation must equal agent_id");
    let routing = agent_node["routing"].as_array().expect("routing must be an array");
    assert_eq!(routing.len(), 1, "routing array must have exactly one entry");
    assert_eq!(routing[0]["to"].as_str(), Some("reply"), "routing[0].to must equal the successor id");
    assert!(routing[0].get("out").is_none(), "routing must use `to`, not `out`, when a successor exists");
    assert!(doc.pointer("/nodes/start").is_some(), "sibling nodes are kept");
}

#[test]
fn inject_dw_agent_terminal_node_uses_out_routing() {
    let injections = [DwAgentInjection {
        node_id: "agent".into(),
        agent_id: "greeter".into(),
        successor_id: None,
    }];
    let result = inject_dw_agent_nodes(parse(minimal_ygtc_with_start_to_agent()), &injections)
        .expect("inject_dw_agent_nodes must succeed for terminal node")
        .expect("a document comes back");
    let (_, doc) = round_trip(&result);
    let routing = doc.pointer("/nodes/agent/routing").and_then(Value::as_array).expect("routing must be array");
    assert_eq!(routing[0]["out"], js("true"));
    assert!(routing[0].get("to").is_none());
}

#[test]
fn inject_dw_agent_replaces_existing_mangled_ac_node() {
    let ygtc_with_mangled = "id: demo\ntype: messaging\nnodes:\n  agent:\n    adaptive-card:\n      default_card_asset: assets/cards/agent.json\n    routing:\n      - out: true\n";
    let injections = [DwAgentInjection {
        node_id: "agent".into(),
        agent_id: "greeter".into(),
        successor_id: Some("reply".into()),
    }];
    let result = inject_dw_agent_nodes(parse(ygtc_with_mangled), &injections).unwrap().unwrap();
    let (_, doc) = round_trip(&result);
    let agent_node = doc.pointer("/nodes/agent").expect("nodes.agent must exist");
    assert!(agent_node.get("dw.agent").is_some(), "after injection 'dw.agent' key must be present");
    assert!(agent_node.get("adaptive-card").is_none(), "mangled 'adaptive-card' key must be gone after injection");
    assert_eq!(agent_node["operation"].as_str(), Some("greeter"));
}

#[test]
fn inject_dw_agent_noop_when_no_injections() {
    let result = inject_dw_agent_nodes(parse(minimal_ygtc_with_start_to_agent()), &[])
        .expect("empty injection slice must succeed and leave the text unchanged");
    assert_eq!(result, None);
    // Even a text that does not parse is left alone.
    assert_eq!(inject_dw_agent_nodes(Err("bad".to_string()), &[]), Ok(None));
}

#[test]
fn inject_dw_agent_graph_node_binds_operation_to_pack_id() {
    let pack_id = "pack.dw.triage.deadbeef";
    let result = inject_dw_agent_graph_node(parse(minimal_ygtc_with_start_to_agent()), pack_id)
        .expect("inject_dw_agent_graph_node must succeed");
    let (_, doc) = round_trip(&result);
    let node = doc.pointer("/nodes/agent_graph").expect("nodes.agent_graph must exist after injection");

    assert_eq!(node.get("dw.agent_graph"), Some(&js("{}")), "dw.agent_graph value must be an empty object");
    assert_eq!(node["operation"].as_str(), Some(pack_id), "operation must equal the pack_id so the sidecar graph resolves");
    let routing = node["routing"].as_array().expect("routing must be array");
    assert_eq!(routing.len(), 1);
    assert_eq!(routing[0]["out"], js("true"));
    assert!(routing[0].get("to").is_none());
    assert_eq!(
        node["in_map"]["user_text"].as_str(),
        Some("{{in.text}}"),
        "agent_graph node must map inbound text into user_text"
    );
}

#[test]
fn inject_dw_agent_graph_node_rejects_empty_pack_id() {
    let err = inject_dw_agent_graph_node(parse(minimal_ygtc_with_start_to_agent()), "")
        .expect_err("empty pack_id must be rejected");
    assert!(err.contains("pack_id is empty"), "unexpected error: {err}");
}

#[test]
fn inject_operala_call_node_emits_node_with_config() {
    let cfg = js(r#"{ "iterationBudget": 8, "reflection": true }"#);
    let llm = js(r#"{ "provider": "deepseek", "model": "deepseek-chat" }"#);
    let out = inject_operala_call_node(parse("nodes: {}\n"), "worker-1", &to_json(&cfg), &to_json(&llm))
        .expect("inject_operala_call_node must succeed");
    let (_, doc) = round_trip(&out);
    let node = doc.pointer("/nodes/deep_worker").expect("nodes.deep_worker must exist after injection");
    assert!(node.get("operala.call").is_some(), "operala.call op-key must be present");
    assert_eq!(node["operation"].as_str(), Some("worker-1"), "operation must equal the target");
    assert_eq!(
        node["operala.call"]["input"]["deep_worker"], cfg,
        "deep_worker config must be nested under operala.call.input.deep_worker"
    );
    assert_eq!(
        node["operala.call"]["input"]["user_text"].as_str(),
        Some("{{in.text}}"),
        "operala node must map inbound text into input.user_text"
    );
}

#[test]
fn inject_operala_call_node_stamps_llm_provider_and_model() {
    let cfg = js(r#"{ "iterationBudget": 8 }"#);
    let llm = js(r#"{ "provider": "deepseek", "model": "deepseek-chat" }"#);
    let out = inject_operala_call_node(parse("nodes: {}\n"), "worker-1", &to_json(&cfg), &to_json(&llm))
        .expect("inject_operala_call_node must succeed");
    let (_, doc) = round_trip(&out);
    let node = doc.pointer("/nodes/deep_worker").expect("nodes.deep_worker must exist after injection");
    assert_eq!(node["operala.call"]["input"]["llm"], llm, "worker LLM config must be nested under operala.call.input.llm");
}

#[test]
fn inject_operala_call_node_rejects_empty_target() {
    let cfg = js("{}");
    let llm = js(r#"{ "provider": "deepseek", "model": "deepseek-chat" }"#);
    let err = inject_operala_call_node(parse("nodes: {}\n"), "", &to_json(&cfg), &to_json(&llm))
        .expect_err("empty target must be rejected");
    assert!(err.contains("target must not be empty"), "unexpected error: {err}");
}

#[test]
fn smoke_inject_operala_call_node_minimal_messaging_ygtc() {
    let cfg = js(r#"{"iterationBudget": 8}"#);
    let llm = js(r#"{ "provider": "deepseek", "model": "deepseek-chat" }"#);
    let out = inject_operala_call_node(
        parse("id: main\ntype: messaging\nstart: x\nnodes: {}"),
        "tgt",
        &to_json(&cfg),
        &to_json(&llm),
    )
    .expect("inject_operala_call_node must succeed on minimal messaging YGTC");
    let (text, _) = round_trip(&out);
    assert!(text.contains("operala.call"), "result must contain the operala.call op-key: {text}");
}

#[test]
fn injectors_report_parse_errors_under_their_names() {
    let injections = [DwAgentInjection { node_id: "a".into(), agent_id: "b".into(), successor_id: None }];
    let err = inject_dw_agent_nodes(Err("oops".to_string()), &injections).unwrap_err();
    assert_eq!(err, "inject_dw_agent_nodes: parse YGTC: oops");
    let err = inject_dw_agent_graph_node(Err("oops".to_string()), "p").unwrap_err();
    assert_eq!(err, "inject_dw_agent_graph_node: parse YGTC: oops");
    let err = inject_operala_call_node(Err("oops".to_string()), "t", &Json::Null, &Json::Null).unwrap_err();
    assert_eq!(err, "inject_operala_call_node: parse YGTC: oops");
}

#[test]
fn injectors_refuse_nodes_that_are_not_a_mapping() {
    let doc = to_json_value(js(r#"{ "id": "x", "nodes": [1, 2] }"#));
    let err = inject_dw_agent_graph_node(Ok(doc), "p").unwrap_err();
    assert_eq!(err, "inject_dw_agent_graph_node: YGTC `nodes` is not a mapping");
}

#[test]
fn injectors_create_nodes_when_absent_and_on_an_empty_document() {
    let out = inject_dw_agent_graph_node(Ok(Json::Null), "p").unwrap();
    let v = to_value(&out);
    assert_eq!(v["nodes"]["agent_graph"]["operation"], "p");
    let out = inject_dw_agent_graph_node(parse("id: main\n"), "p").unwrap();
    let v = to_value(&out);
    assert_eq!(v["id"], "main");
    assert_eq!(v["nodes"]["agent_graph"]["operation"], "p");
}

#[test]
fn later_injection_under_the_same_node_id_wins() {
    let injections = [
        DwAgentInjection { node_id: "n".into(), agent_id: "first".into(), successor_id: None },
        DwAgentInjection { node_id: "n".into(), agent_id: "second".into(), successor_id: None },
    ];
    let out = inject_dw_agent_nodes(parse("nodes: {}\n"), &injections).unwrap().unwrap();
    let v = to_value(&out);
    assert_eq!(v["nodes"]["n"]["operation"], "second");
    assert_eq!(v["nodes"].as_object().unwrap().len(), 1);
}

#[test]
fn blank_operala_target_is_refused() {
    let err = inject_operala_call_node(parse("nodes: {}\n"), "  \t", &Json::Null, &Json::Null).unwrap_err();
    assert_eq!(err, "operala.call target must not be empty");
}
