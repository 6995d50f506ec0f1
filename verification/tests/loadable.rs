use greentic_dw_authoring::json::Json;
use greentic_dw_authoring::loadable::single_turn_main_ygtc;
use serde_json::Value;

fn to_value(j: &Json) -> Value {
    match j {
        Json::Null => Value::Null,
        Json::Bool(b) => Value::Bool(*b),
        Json::Number(n) => serde_json::from_str(n).expect("number text"),
        Json::Str(s) => Value::String(s.clone()),
        Json::Array(a) => Value::Array(a.iter().map(to_value).collect()),
        Json::Object(m) => {
            let mut out = serde_json::Map::new();
            for (k, v) in m {
                out.insert(k.clone(), to_value(v));
            }
            Value::Object(out)
        }
    }
}

fn ygtc(agent_id: &str) -> (String, Value) {
    let text = serde_yaml_bw::to_string(&to_value(&single_turn_main_ygtc(agent_id))).expect("serialise");
    let back: Value = serde_yaml_bw::from_str(&text).expect("parse back");
    (text, back)
}

#[test]
fn single_turn_main_ygtc_compiles_to_one_dw_agent_node() {
    let (text, doc) = ygtc("greeter");
    assert!(text.contains("dw.agent"));
    assert!(text.contains("greeter"));
    assert_eq!(doc["id"], "main");
    let nodes = doc["nodes"].as_object().expect("nodes mapping");
    assert_eq!(nodes.len(), 1);
    let node = nodes.values().next().unwrap();
    assert!(node.get("dw.agent").is_some());
    assert_eq!(node["operation"].as_str(), Some("greeter"));
    assert_eq!(
        node["in_map"]["user_text"].as_str(),
        Some("{{in.text}}"),
        "single-turn node must map inbound text into user_text"
    );
}

#[test]
fn single_turn_main_ygtc_roundtrips_tricky_agent_id() {
    for agent_id in ["Support: Tier 1", "quote \" and ' marks", "line\nbreak", "- dash"] {
        let (_, doc) = ygtc(agent_id);
        let nodes = doc["nodes"].as_object().expect("nodes mapping");
        assert_eq!(nodes.len(), 1);
        let node = nodes.values().next().unwrap();
        assert!(node.get("dw.agent").is_some());
        assert_eq!(node["operation"].as_str(), Some(agent_id));
    }
}

#[test]
fn single_turn_flow_starts_at_the_agent_with_terminal_routing() {
    let (_, doc) = ygtc("w");
    assert_eq!(doc["type"], "messaging");
    assert_eq!(doc["start"], "agent");
    assert_eq!(doc["nodes"]["agent"]["routing"][0]["out"], true);
}
