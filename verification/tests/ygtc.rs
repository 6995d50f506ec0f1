use greentic_dw_authoring::inject::DwAgentInjection;
use greentic_dw_authoring::json::Json;
use greentic_dw_authoring::ygtc::{
    inject_dw_agent_graph_node_ygtc, inject_dw_agent_nodes_ygtc, inject_operala_call_node_ygtc, parse_ygtc,
    single_turn_main_ygtc_text, write_ygtc,
};
use serde_json::Value;

fn minimal_ygtc() -> &'static str {
    "id: demo\ntype: messaging\nnodes:\n  start:\n    qa.process:\n      welcome: hi\n    routing:\n      - to: agent\n"
}

fn read_back(text: &str) -> Value {
    serde_yaml_bw::from_str(text).expect("result must be valid YAML")
}

#[test]
fn ygtc_text_injection_inserts_op_key_node() {
    let injections = [DwAgentInjection {
        node_id: "agent".into(),
        agent_id: "greeter".into(),
        successor_id: Some("reply".into()),
    }];
    let out = inject_dw_agent_nodes_ygtc(minimal_ygtc(), &injections).expect("a mapping").expect("inject");
    let doc = read_back(&out);
    let node = doc.pointer("/nodes/agent").expect("nodes.agent");
    assert!(node.get("dw.agent").is_some());
    assert_eq!(node.get("operation").and_then(Value::as_str), Some("greeter"));
    assert_eq!(node.pointer("/routing/0/to").and_then(Value::as_str), Some("reply"));
    assert!(doc.pointer("/nodes/start/qa.process").is_some(), "other nodes are kept");
    assert_eq!(doc.get("id").and_then(Value::as_str), Some("demo"));
}

#[test]
fn ygtc_text_injection_without_injections_returns_the_text() {
    assert_eq!(inject_dw_agent_nodes_ygtc("not: [valid", &[]), Some(Ok("not: [valid".to_string())));
}

#[test]
fn ygtc_text_injection_reports_parse_errors() {
    let injections =
        [DwAgentInjection { node_id: "a".into(), agent_id: "b".into(), successor_id: None }];
    let err = inject_dw_agent_nodes_ygtc("nodes: [unclosed", &injections).expect("no panic").unwrap_err();
    assert!(err.starts_with("inject_dw_agent_nodes: parse YGTC: "), "{err}");
}

#[test]
fn ygtc_text_injection_signals_a_document_that_is_not_a_mapping() {
    let injections =
        [DwAgentInjection { node_id: "a".into(), agent_id: "b".into(), successor_id: None }];
    assert_eq!(inject_dw_agent_nodes_ygtc("- a\n- b\n", &injections), None);
    assert_eq!(inject_dw_agent_graph_node_ygtc("just text", "pack"), None);
}

#[test]
fn ygtc_text_injection_refuses_nodes_that_are_not_a_mapping() {
    let injections =
        [DwAgentInjection { node_id: "a".into(), agent_id: "b".into(), successor_id: None }];
    let err = inject_dw_agent_nodes_ygtc("nodes: 3\n", &injections).unwrap().unwrap_err();
    assert_eq!(err, "inject_dw_agent_nodes: YGTC `nodes` is not a mapping");
}

#[test]
fn ygtc_text_graph_node_binds_operation_to_pack_id() {
    let out = inject_dw_agent_graph_node_ygtc(minimal_ygtc(), "my-pack").unwrap().unwrap();
    let doc = read_back(&out);
    assert_eq!(doc.pointer("/nodes/agent_graph/operation").and_then(Value::as_str), Some("my-pack"));
    assert_eq!(doc.pointer("/nodes/agent_graph/in_map/user_text").and_then(Value::as_str), Some("{{in.text}}"));
    assert_eq!(doc.pointer("/nodes/agent_graph/routing/0/out").and_then(Value::as_bool), Some(true));
}

#[test]
fn ygtc_text_graph_node_refuses_an_empty_pack_id_before_parsing() {
    let err = inject_dw_agent_graph_node_ygtc("- not a mapping", "").unwrap().unwrap_err();
    assert!(err.contains("pack_id is empty"), "{err}");
}

#[test]
fn ygtc_text_operala_node_carries_its_config() {
    let cfg = Json::Object(vec![("max_steps".into(), Json::Number("4".into()))]);
    let llm = Json::Object(vec![("provider".into(), Json::Str("openai".into()))]);
    let out = inject_operala_call_node_ygtc("nodes: {}\n", "worker-1", &cfg, &llm).unwrap().unwrap();
    let doc = read_back(&out);
    assert_eq!(doc.pointer("/nodes/deep_worker/operation").and_then(Value::as_str), Some("worker-1"));
    assert!(doc.pointer("/nodes/deep_worker/operala.call").is_some());
}

#[test]
fn ygtc_text_operala_node_refuses_a_blank_target() {
    let out = inject_operala_call_node_ygtc("- list", "  ", &Json::Null, &Json::Null);
    assert_eq!(out, Some(Err("operala.call target must not be empty".to_string())));
}

#[test]
fn single_turn_text_keeps_the_agent_id_verbatim() {
    let id = "weird: id \"with\" quotes\nand a newline";
    let text = single_turn_main_ygtc_text(id).unwrap();
    let doc = read_back(&text);
    assert_eq!(doc.pointer("/nodes/agent/operation").and_then(Value::as_str), Some(id));
    assert_eq!(doc.get("start").and_then(Value::as_str), Some("agent"));
}

#[test]
fn ygtc_parse_reads_a_document() {
    let doc = parse_ygtc("b: 1\na: [true, null, x]\n").unwrap();
    assert_eq!(
        doc,
        Json::Object(vec![
            ("a".into(), Json::Array(vec![Json::Bool(true), Json::Null, Json::Str("x".into())])),
            ("b".into(), Json::Number("1".into())),
        ])
    );
    assert!(parse_ygtc("a: [").is_err());
}

#[test]
fn ygtc_write_orders_mappings_by_key_and_keeps_the_last_duplicate() {
    let doc = Json::Object(vec![
        ("b".into(), Json::Number("2".into())),
        ("a".into(), Json::Str("x".into())),
        ("b".into(), Json::Number("3".into())),
    ]);
    assert_eq!(write_ygtc(&doc).unwrap(), "a: x\nb: 3\n");
    let back = parse_ygtc(&write_ygtc(&doc).unwrap()).unwrap();
    assert_eq!(back, Json::Object(vec![("a".into(), Json::Str("x".into())), ("b".into(), Json::Number("3".into()))]));
}

#[test]
fn ygtc_write_turns_a_number_that_does_not_parse_into_null() {
    let doc = Json::Object(vec![("n".into(), Json::Number("not a number".into()))]);
    let back = parse_ygtc(&write_ygtc(&doc).unwrap()).unwrap();
    assert_eq!(back, Json::Object(vec![("n".into(), Json::Null)]));
}
