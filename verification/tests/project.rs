use greentic_dw_authoring::json::Json;
use greentic_dw_authoring::project;
use greentic_dw_authoring::{AgentKind, DeepWorkerSpec, GuardrailRefSpec, LlmRef, WorkerSpec};
use serde_json::Value;

fn base(kind: AgentKind) -> WorkerSpec {
    WorkerSpec {
        kind,
        name: "w".into(),
        description: None,
        tenant: None,
        llm: LlmRef {
            provider: "openai".into(),
            model: "gpt-4o".into(),
            credential_ref: None,
        },
        instructions: "do things".into(),
        prompt_mode: Default::default(),
        tone: None,
        tools: vec![],
        memory: None,
        knowledge: None,
        guardrails: vec![],
        agent_graph: None,
        deep_worker: None,
        locale: None,
        icon: None,
        vertical: None,
        opening_message: None,
        extension_tools: vec![],
    }
}

fn to_value(j: &Json) -> Value {
    match j {
        Json::Null => Value::Null,
        Json::Bool(b) => Value::Bool(*b),
        Json::Number(n) => serde_json::from_str(n).expect("number text"),
        Json::Str(s) => Value::String(s.clone()),
        Json::Array(a) => Value::Array(a.iter().map(to_value).collect()),
        Json::Object(m) => {
            let mut out = serde_json::Map::new();
            for (k, v) in m {
                out.insert(k.clone(), to_value(v));
            }
            Value::Object(out)
        }
    }
}

#[test]
fn single_turn_has_no_executing_node() {
    assert!(project::executing_node(&base(AgentKind::SingleTurn)).is_none());
}

#[test]
fn agent_graph_executing_node() {
    let n = to_value(&project::executing_node(&base(AgentKind::AgentGraph)).unwrap());
    assert_eq!(n["kind"], "dw.agent_graph");
}

#[test]
fn deep_worker_executing_node_carries_config() {
    let mut s = base(AgentKind::DeepWorker);
    s.deep_worker = Some(DeepWorkerSpec {
        iteration_budget: 12,
        ..Default::default()
    });
    let n = to_value(&project::executing_node(&s).unwrap());
    assert_eq!(n["kind"], "operala.call");
    assert_eq!(n["deep_worker"]["iterationBudget"], 12);
}

#[test]
fn answer_document_has_manifest_id_and_display_name() {
    let doc = to_value(&project::to_answer_document(&base(AgentKind::SingleTurn)).unwrap());
    assert!(doc["manifest_id"].is_string());
    assert_eq!(doc["display_name"], "w");
}

#[test]
fn answer_document_guardrails_carry_cap_id_and_config() {
    let mut spec = base(AgentKind::SingleTurn);
    spec.guardrails = vec![
        "pii-redact".into(),
        GuardrailRefSpec::Full {
            cap_id: "profanity-filter".into(),
            config: Json::Object(vec![("threshold".to_string(), Json::Number("0.8".to_string()))]),
        },
    ];

    let doc = to_value(&project::to_answer_document(&spec).unwrap());
    let guardrails = doc["guardrails"].as_array().expect("guardrails array");
    assert_eq!(guardrails.len(), 2);
    assert_eq!(guardrails[0]["cap_id"], "pii-redact");
    assert_eq!(guardrails[0]["config"], Value::Null);
    assert_eq!(guardrails[1]["cap_id"], "profanity-filter");
    assert_eq!(guardrails[1]["config"]["threshold"], 0.8);
}

#[test]
fn answer_document_manifest_id_is_slug_or_default() {
    let mut s = base(AgentKind::SingleTurn);
    s.name = "Support Triage!".into();
    let doc = to_value(&project::to_answer_document(&s).unwrap());
    assert_eq!(doc["manifest_id"], "support-triage");
    assert_eq!(doc["display_name"], "Support Triage!");

    s.name = "".into();
    let doc = to_value(&project::to_answer_document(&s).unwrap());
    assert_eq!(doc["manifest_id"], "dw-application");
    assert_eq!(doc["display_name"], "Agentic Worker");
}

#[test]
fn required_capabilities_are_sorted_and_deduplicated() {
    let mut s = base(AgentKind::SingleTurn);
    s.tools = vec!["z.tool".into(), "cap://llm/chat".into(), "a.tool".into(), "z.tool".into()];
    let caps = project::required_capabilities(&s);
    assert_eq!(caps, vec!["a.tool".to_string(), "cap://llm/chat".to_string(), "z.tool".to_string()]);
}

#[test]
fn deep_worker_executing_node_defaults_when_block_absent() {
    let s = base(AgentKind::DeepWorker);
    let n = to_value(&project::executing_node(&s).unwrap());
    assert_eq!(n["deep_worker"]["iterationBudget"], 8);
    assert_eq!(n["deep_worker"]["reflection"], false);
    assert!(n["deep_worker"].get("planningModel").is_none());
}
