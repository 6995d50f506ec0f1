use greentic_dw_authoring::agents::{
    agent_configs, build_guardrail_refs, build_knowledge_settings, build_memory_settings,
    tool_refs_from_extension_tools,
};
use greentic_dw_authoring::json::Json;
use greentic_dw_authoring::{
    AgentGraphSpec, AgentKind, Coordinator, EmbeddingRef, ExtensionToolBinding, GuardrailRefSpec, KnowledgeSpec,
    LlmRef, MemorySpec, ProviderRef, ShortTermSpec, Specialist, WorkerSpec,
};
use serde_json::Value;

fn base_spec() -> WorkerSpec {
    WorkerSpec {
        kind: AgentKind::SingleTurn,
        name: "w".into(),
        description: None,
        tenant: None,
        llm: LlmRef {
            provider: "openai".into(),
            model: "gpt-4o".into(),
            credential_ref: None,
        },
        instructions: "do things".into(),
        prompt_mode: None,
        tone: None,
        tools: vec![],
        memory: None,
        knowledge: None,
        guardrails: vec![],
        agent_graph: None,
        deep_worker: None,
        locale: None,
        icon: None,
        vertical: None,
        opening_message: None,
        extension_tools: vec![],
    }
}

fn to_value(j: &Json) -> Value {
    match j {
        Json::Null => Value::Null,
        Json::Bool(b) => Value::Bool(*b),
        Json::Number(n) => serde_json::from_str(n).expect("number text"),
        Json::Str(s) => Value::String(s.clone()),
        Json::Array(a) => Value::Array(a.iter().map(to_value).collect()),
        Json::Object(m) => {
            let mut out = serde_json::Map::new();
            for (k, v) in m {
                out.insert(k.clone(), to_value(v));
            }
            Value::Object(out)
        }
    }
}

fn param<'a>(params: &'a [(String, Json)], key: &str) -> Option<&'a Json> {
    params.iter().find(|(k, _)| k == key).map(|(_, v)| v)
}

fn binding(extension_id: &str, tool_name: &str, description: &str, schema: &str) -> ExtensionToolBinding {
    ExtensionToolBinding {
        extension_id: extension_id.to_string(),
        extension_version: String::new(),
        tool_name: tool_name.to_string(),
        description: description.to_string(),
        input_schema_json: schema.to_string(),
        output_schema_json: None,
        capabilities: vec!["agentic_worker".to_string()],
        agentic_worker_metadata: Json::Null,
        secret_requirements: vec![],
        usage_note: None,
    }
}

#[test]
fn build_memory_settings_maps_both_tiers() {
    let mut spec = base_spec();
    spec.memory = Some(MemorySpec {
        short_term: true.into(),
        long_term: Some(ProviderRef {
            provider: "chronicle".into(),
            credential_ref: Some("vault://acme/surreal".into()),
            params: vec![],
        }),
    });

    let settings = build_memory_settings(&spec).expect("memory settings present");
    let short = settings.short_term.expect("short_term present");
    assert_eq!(short.provider, "greentic.memory.short_term");
    assert_eq!(short.capability, "cap://memory/short-term");
    assert_eq!(short.credential_ref, None);

    let long = settings.long_term.expect("long_term present");
    assert_eq!(long.provider, "chronicle");
    assert_eq!(long.capability, "cap://memory/long-term");
    assert_eq!(long.credential_ref.as_deref(), Some("vault://acme/surreal"));
}

#[test]
fn build_memory_settings_absent_when_neither_tier_set() {
    let spec = base_spec();
    assert!(build_memory_settings(&spec).is_none());
}

#[test]
fn build_knowledge_settings_maps_provider_and_embedding() {
    let mut spec = base_spec();
    spec.knowledge = Some(KnowledgeSpec {
        provider: "acme.knowledge".into(),
        provider_credential_ref: Some("vault://acme/knowledge".into()),
        embedding: EmbeddingRef {
            provider: "acme.embedding".into(),
            model: "text-embedding-3-small".into(),
            credential_ref: Some("vault://acme/embed".into()),
        },
        top_k: 7,
        documents: vec![],
    });

    let settings = build_knowledge_settings(&spec).expect("knowledge settings present");
    let knowledge = settings.knowledge.expect("knowledge provider present");
    assert_eq!(knowledge.provider, "acme.knowledge");
    assert_eq!(knowledge.capability, "cap://dw.knowledge");
    assert_eq!(knowledge.credential_ref.as_deref(), Some("vault://acme/knowledge"));

    let embedding = settings.embedding.expect("embedding provider present");
    assert_eq!(embedding.provider, "acme.embedding");
    assert_eq!(embedding.capability, "cap://dw.embedding");
    assert_eq!(embedding.credential_ref.as_deref(), Some("vault://acme/embed"));
    assert_eq!(
        param(&embedding.params, "model").map(to_value).as_ref().and_then(Value::as_str),
        Some("text-embedding-3-small")
    );

    assert_eq!(settings.top_k, 7);
}

#[test]
fn build_knowledge_settings_absent_when_not_set() {
    let spec = base_spec();
    assert!(build_knowledge_settings(&spec).is_none());
}

#[test]
fn build_guardrail_refs_maps_flat_cap_ids() {
    let mut spec = base_spec();
    spec.guardrails = vec!["greentic.cap.guardrail.pii".into(), "greentic.cap.guardrail.profanity".into()];

    let refs = build_guardrail_refs(&spec);
    assert_eq!(refs.len(), 2);
    assert_eq!(refs[0].cap_id, "greentic.cap.guardrail.pii");
    assert_eq!(refs[0].offer_id, None);
    assert_eq!(to_value(&refs[0].config), Value::Null);
    assert_eq!(refs[1].cap_id, "greentic.cap.guardrail.profanity");
}

#[test]
fn build_guardrail_refs_forwards_config_for_full_shape() {
    let mut spec = base_spec();
    spec.guardrails = vec![
        GuardrailRefSpec::Full {
            cap_id: "greentic.cap.guardrail.pii".into(),
            config: Json::Object(vec![(
                "blocklist".to_string(),
                Json::Array(vec![Json::Str("ssn".to_string())]),
            )]),
        },
        "greentic.cap.guardrail.profanity".into(),
    ];

    let refs = build_guardrail_refs(&spec);
    assert_eq!(refs.len(), 2);
    assert_eq!(refs[0].cap_id, "greentic.cap.guardrail.pii");
    assert_eq!(to_value(&refs[0].config)["blocklist"][0], "ssn");
    assert_eq!(refs[1].cap_id, "greentic.cap.guardrail.profanity");
    assert_eq!(to_value(&refs[1].config), Value::Null);
}

#[test]
fn build_memory_settings_maps_named_short_term_provider() {
    let mut spec = base_spec();
    spec.memory = Some(MemorySpec {
        short_term: ShortTermSpec::Provider(ProviderRef {
            provider: "redis".into(),
            credential_ref: Some("vault://acme/redis".into()),
            params: vec![("ttl_seconds".to_string(), Json::Number("300".to_string()))],
        }),
        long_term: None,
    });

    let settings = build_memory_settings(&spec).expect("memory settings present");
    let short = settings.short_term.expect("short_term present");
    assert_eq!(short.provider, "redis");
    assert_eq!(short.capability, "cap://memory/short-term");
    assert_eq!(short.credential_ref.as_deref(), Some("vault://acme/redis"));
    assert_eq!(param(&short.params, "ttl_seconds").map(to_value).as_ref().and_then(Value::as_i64), Some(300));
}

#[test]
fn build_memory_settings_short_term_false_disables_it() {
    let mut spec = base_spec();
    spec.memory = Some(MemorySpec {
        short_term: false.into(),
        long_term: None,
    });

    assert!(build_memory_settings(&spec).is_none());
}

#[test]
fn extension_tool_refs_carry_author_contract() {
    let bindings = vec![binding(
        "flow:refund",
        "refund_lookup",
        "Look up a refund by order id",
        r#"{"type":"object","properties":{"order_id":{"type":"string"}}}"#,
    )];
    let refs = tool_refs_from_extension_tools(&bindings);
    assert_eq!(refs.len(), 1);
    assert_eq!(refs[0].extension_id, "flow:refund");
    assert_eq!(refs[0].description.as_deref(), Some("Look up a refund by order id"));
    let schema_text = refs[0].input_schema.as_ref().expect("input_schema populated");
    let schema: Value = serde_json::from_str(schema_text).unwrap();
    assert_eq!(schema["properties"]["order_id"]["type"], "string");
}

#[test]
fn empty_description_and_invalid_schema_map_to_none() {
    let bindings = vec![binding("flow:x", "x", "   ", "not json")];
    let refs = tool_refs_from_extension_tools(&bindings);
    assert_eq!(refs.len(), 1);
    assert!(refs[0].description.is_none(), "blank description -> None");
    assert!(refs[0].input_schema.is_none(), "invalid schema -> None");
}

#[test]
fn agent_configs_keys_coordinator_and_specialists() {
    let mut s = base_spec();
    s.kind = AgentKind::AgentGraph;
    s.agent_graph = Some(AgentGraphSpec {
        coordinator: Coordinator { instructions: "route".into() },
        specialists: vec![Specialist {
            name: "billing".into(),
            instructions: "handle billing".into(),
            tools: vec!["billing.lookup".into()],
        }],
    });

    let configs = agent_configs(&s);
    assert_eq!(configs.len(), 2);
    assert!(configs.contains_key("w"));
    let billing = configs.get("billing").expect("billing specialist present");
    assert_eq!(billing.system_prompt, "handle billing");
    assert_eq!(billing.tools.len(), 1);
}

#[test]
fn agent_configs_single_turn_keys_the_worker_name() {
    let s = base_spec();
    let configs = agent_configs(&s);
    assert_eq!(configs.len(), 1);
    let cfg = configs.get("w").expect("worker config");
    assert_eq!(cfg.agent_id, "w");
    assert_eq!(cfg.system_prompt, "do things");
    assert_eq!(cfg.llm.provider, "openai");
    assert_eq!(cfg.llm.model, "gpt-4o");
    assert!(!cfg.conversational);
    assert!(cfg.opening_message.is_none());
    let keys: Vec<&str> = configs.entries().iter().map(|(k, _)| k.as_str()).collect();
    assert_eq!(keys, vec!["w"]);
}

#[test]
fn agent_configs_entries_are_in_key_order() {
    let mut s = base_spec();
    s.name = "m".into();
    s.kind = AgentKind::AgentGraph;
    s.agent_graph = Some(AgentGraphSpec {
        coordinator: Coordinator { instructions: "route".into() },
        specialists: vec![
            Specialist { name: "z".into(), instructions: "z".into(), tools: vec![] },
            Specialist { name: "a".into(), instructions: "a".into(), tools: vec![] },
        ],
    });
    let configs = agent_configs(&s);
    let keys: Vec<&str> = configs.entries().iter().map(|(k, _)| k.as_str()).collect();
    assert_eq!(keys, vec!["a", "m", "z"]);
    assert!(!configs.get("z").unwrap().conversational);
}
