use std::io::{Cursor, Read, Write};

use greentic_dw_authoring::agents::agent_configs;
use greentic_dw_authoring::assemble::{
    build_flow_ygtc, build_knowledge_corpus, build_pack_meta, worker_pack_id, worker_pack_plan, AssetBody,
    KnowledgeCorpus,
};
use greentic_dw_authoring::inject::embed_dw_agents;
use greentic_dw_authoring::seal::Resealing;
use greentic_dw_authoring::json::Json;
use greentic_dw_authoring::{
    AgentGraphSpec, AgentKind, Coordinator, DeepWorkerSpec, EmbeddingRef, KnowledgeInput, KnowledgeSpec, LlmRef,
    PrecomputedChunk, PrecomputedVectors, Specialist, WorkerSpec,
};
use serde_json::Value;
use zip::write::SimpleFileOptions;
use zip::{ZipArchive, ZipWriter};

fn spec(kind: AgentKind) -> WorkerSpec {
    WorkerSpec {
        kind,
        name: "w".into(),
        description: None,
        tenant: None,
        llm: LlmRef {
            provider: "openai".into(),
            model: "gpt-4o".into(),
            credential_ref: None,
        },
        instructions: "do things".into(),
        prompt_mode: Default::default(),
        tone: None,
        tools: vec![],
        memory: None,
        knowledge: None,
        guardrails: vec![],
        agent_graph: None,
        deep_worker: None,
        locale: None,
        icon: None,
        vertical: None,
        opening_message: None,
        extension_tools: vec![],
    }
}

fn to_value(j: &Json) -> Value {
    match j {
        Json::Null => Value::Null,
        Json::Bool(b) => Value::Bool(*b),
        Json::Number(n) => serde_json::from_str(n).expect("number text"),
        Json::Str(s) => Value::String(s.clone()),
        Json::Array(a) => Value::Array(a.iter().map(to_value).collect()),
        Json::Object(m) => {
            let mut out = serde_json::Map::new();
            for (k, v) in m {
                out.insert(k.clone(), to_value(v));
            }
            Value::Object(out)
        }
    }
}

fn knowledge(id: &str, text: &str) -> KnowledgeInput {
    KnowledgeInput { id: id.into(), text: text.into(), precomputed: None }
}

fn asset<'a>(corpus: &'a KnowledgeCorpus, path: &str) -> Option<&'a AssetBody> {
    corpus.assets.iter().find(|a| a.path == path).map(|a| &a.body)
}

#[test]
fn pack_id_is_prefixed_manifest_id() {
    let mut s = spec(AgentKind::SingleTurn);
    assert_eq!(worker_pack_id(&s).unwrap(), "pack.dw.w");
    s.name = "Support Triage!".into();
    assert_eq!(worker_pack_id(&s).unwrap(), "pack.dw.support-triage");
    s.name = "".into();
    assert_eq!(worker_pack_id(&s).unwrap(), "pack.dw.dw-application");
}

#[test]
fn single_turn_flow_is_one_dw_agent_node() {
    let doc = to_value(&build_flow_ygtc(&spec(AgentKind::SingleTurn), "pack.dw.w"));
    let nodes = doc["nodes"].as_object().unwrap();
    assert_eq!(nodes.len(), 1);
    assert_eq!(doc["nodes"]["agent"]["operation"], "w");
    assert!(doc["nodes"]["agent"].get("dw.agent").is_some());
}

#[test]
fn agent_graph_flow_operates_on_the_pack_id() {
    let doc = to_value(&build_flow_ygtc(&spec(AgentKind::AgentGraph), "pack.dw.w"));
    assert_eq!(doc["schema_version"], 1);
    assert_eq!(doc["id"], "main");
    let nodes = doc["nodes"].as_object().unwrap();
    assert_eq!(nodes.len(), 1);
    assert_eq!(doc["nodes"]["agent_graph"]["operation"], "pack.dw.w");
}

#[test]
fn deep_worker_flow_carries_config_and_llm() {
    let mut s = spec(AgentKind::DeepWorker);
    s.deep_worker = Some(DeepWorkerSpec { iteration_budget: 4, ..Default::default() });
    let doc = to_value(&build_flow_ygtc(&s, "pack.dw.w"));
    assert_eq!(doc["schema_version"], 1);
    let node = &doc["nodes"]["deep_worker"];
    assert_eq!(node["operation"], "pack.dw.w");
    assert_eq!(node["operala.call"]["input"]["deep_worker"]["iterationBudget"], 4);
    assert_eq!(node["operala.call"]["input"]["llm"]["provider"], "openai");
    assert_eq!(node["operala.call"]["input"]["llm"]["model"], "gpt-4o");
    assert_eq!(node["operala.call"]["await"], true);
    assert_eq!(node["operala.call"]["operation"], "invoke");
}

#[test]
fn deep_worker_flow_defaults_the_block() {
    let doc = to_value(&build_flow_ygtc(&spec(AgentKind::DeepWorker), "pack.dw.w"));
    assert_eq!(doc["nodes"]["deep_worker"]["operala.call"]["input"]["deep_worker"]["iterationBudget"], 8);
}

#[test]
fn pack_meta_carries_display_name_and_entry_flow() {
    let mut s = spec(AgentKind::SingleTurn);
    s.description = Some("helps".into());
    let meta = build_pack_meta("pack.dw.w", &s, "main".into()).unwrap();
    assert_eq!(meta.pack_id, "pack.dw.w");
    assert_eq!(meta.name, "w");
    assert_eq!(meta.version, "0.1.0");
    assert_eq!(meta.description.as_deref(), Some("helps"));
    assert_eq!(meta.entry_flows, vec!["main".to_string()]);
    assert!(!meta.created_at_utc.is_empty());
    let t: Vec<char> = meta.created_at_utc.chars().collect();
    assert!(t.len() >= 20 && t[4] == '-' && t[7] == '-' && t[10] == 'T' && t[13] == ':' && t[16] == ':');
    assert_eq!(t[t.len() - 1], 'Z');
    s.name = "".into();
    assert_eq!(build_pack_meta("p", &s, "main".into()).unwrap().name, "Agentic Worker");
}

#[test]
fn knowledge_corpus_bakes_text_without_vectors() {
    let corpus = build_knowledge_corpus(&spec(AgentKind::SingleTurn), &[knowledge("policy", "our refund policy is 30 days")]);
    let a = to_value(&corpus.annotation);
    assert_eq!(a["version"], 1);
    assert_eq!(a["strategy"], "embedding_retrieval");
    assert_eq!(a["knowledge_provider_id"], "provider.knowledge.default");
    assert_eq!(a["embedding_provider_id"], "provider.embedding.openai");
    assert_eq!(a["top_k"], 5);
    assert_eq!(a["total_chars"], 28);
    assert_eq!(a["truncated"], false);
    let file = &a["files"][0];
    assert_eq!(file["original_name"], "policy");
    assert_eq!(file["asset_path"], "assets/knowledge/policy.txt");
    assert_eq!(file["chars"], 28);
    assert!(file.get("vectors_asset_path").is_none(), "plain input must not carry vectors_asset_path");
    assert_eq!(corpus.assets.len(), 1);
    match asset(&corpus, "assets/knowledge/policy.txt") {
        Some(AssetBody::Text(t)) => assert_eq!(t, "our refund policy is 30 days"),
        _ => panic!("text asset missing"),
    }
    assert!(asset(&corpus, "assets/knowledge/policy.vec.json").is_none());
}

#[test]
fn knowledge_corpus_bakes_precomputed_vectors() {
    let input = KnowledgeInput {
        id: "policy".into(),
        text: "our refund policy is 30 days. contact support for exceptions".into(),
        precomputed: Some(PrecomputedVectors {
            embedding_model: "text-embedding-3-small".into(),
            dims: 3,
            chunks: vec![
                PrecomputedChunk {
                    chunk_index: 0,
                    chunk_text: "our refund policy is 30 days.".into(),
                    vector: vec!["0.1".into(), "0.2".into(), "0.3".into()],
                },
                PrecomputedChunk {
                    chunk_index: 1,
                    chunk_text: "contact support for exceptions".into(),
                    vector: vec!["0.4".into(), "0.5".into(), "0.6".into()],
                },
            ],
        }),
    };
    let corpus = build_knowledge_corpus(&spec(AgentKind::SingleTurn), &[input]);
    let a = to_value(&corpus.annotation);
    assert_eq!(a["files"][0]["vectors_asset_path"], "assets/knowledge/policy.vec.json");
    let doc = match asset(&corpus, "assets/knowledge/policy.vec.json") {
        Some(AssetBody::Document(d)) => to_value(d),
        _ => panic!("vector asset missing"),
    };
    assert_eq!(doc["embedding_model"], "text-embedding-3-small");
    assert_eq!(doc["dims"], 3);
    assert_eq!(doc["chunks"].as_array().unwrap().len(), 2);
    assert_eq!(doc["chunks"][0]["chunk_index"], 0);
    assert_eq!(doc["chunks"][0]["chunk_text"], "our refund policy is 30 days.");
    assert_eq!(doc["chunks"][0]["vector"], serde_json::from_str::<Value>("[0.1, 0.2, 0.3]").unwrap());
    assert_eq!(doc["chunks"][1]["chunk_index"], 1);
    assert!(asset(&corpus, "assets/knowledge/policy.txt").is_some());
}

#[test]
fn knowledge_corpus_uses_the_workers_knowledge_block() {
    let mut s = spec(AgentKind::SingleTurn);
    s.knowledge = Some(KnowledgeSpec {
        provider: "acme.knowledge".into(),
        provider_credential_ref: None,
        embedding: EmbeddingRef { provider: "acme.embedding".into(), model: "m".into(), credential_ref: None },
        top_k: 7,
        documents: vec![],
    });
    let a = to_value(&build_knowledge_corpus(&s, &[knowledge("k", "x")]).annotation);
    assert_eq!(a["knowledge_provider_id"], "acme.knowledge");
    assert_eq!(a["embedding_provider_id"], "acme.embedding");
    assert_eq!(a["top_k"], 7);
}

#[test]
fn knowledge_corpus_caps_each_file_and_the_total() {
    let long: String = "é".repeat(20_000);
    let docs: Vec<KnowledgeInput> = (0..8).map(|i| knowledge(&format!("d{i}"), &long)).collect();
    let corpus = build_knowledge_corpus(&spec(AgentKind::SingleTurn), &docs);
    let a = to_value(&corpus.annotation);
    // 6 files of 15 000 chars fit in 100 000; the seventh would overflow.
    assert_eq!(a["files"].as_array().unwrap().len(), 6);
    assert_eq!(a["total_chars"], 90_000);
    assert_eq!(a["truncated"], true);
    match asset(&corpus, "assets/knowledge/d0.txt") {
        Some(AssetBody::Text(t)) => assert_eq!(t.chars().count(), 15_000),
        _ => panic!("text asset missing"),
    }
}

#[test]
fn knowledge_corpus_takes_at_most_twenty_files() {
    let docs: Vec<KnowledgeInput> = (0..21).map(|i| knowledge(&format!("d{i}"), "x")).collect();
    let a = to_value(&build_knowledge_corpus(&spec(AgentKind::SingleTurn), &docs).annotation);
    assert_eq!(a["files"].as_array().unwrap().len(), 20);
    assert_eq!(a["truncated"], true);
    let docs: Vec<KnowledgeInput> = (0..20).map(|i| knowledge(&format!("d{i}"), "x")).collect();
    let a = to_value(&build_knowledge_corpus(&spec(AgentKind::SingleTurn), &docs).annotation);
    assert_eq!(a["truncated"], false);
}

#[test]
fn worker_pack_plan_gathers_everything() {
    let mut s = spec(AgentKind::AgentGraph);
    s.agent_graph = Some(AgentGraphSpec {
        coordinator: Coordinator { instructions: "route to a specialist".into() },
        specialists: vec![Specialist { name: "billing".into(), instructions: "handle billing".into(), tools: vec![] }],
    });
    let plan = worker_pack_plan(&s, &[]).unwrap();
    assert_eq!(plan.pack_id, "pack.dw.w");
    assert!(plan.knowledge.is_none());
    assert!(plan.agents.contains_key("w"));
    assert!(plan.agents.contains_key("billing"));
    assert_eq!(to_value(&plan.flow)["nodes"]["agent_graph"]["operation"], "pack.dw.w");
    let plan = worker_pack_plan(&spec(AgentKind::SingleTurn), &[knowledge("policy", "x")]).unwrap();
    assert!(plan.knowledge.is_some());
}

fn zip_with(entries: &[(&str, &[u8])]) -> Vec<u8> {
    let mut out = Vec::new();
    {
        let mut writer = ZipWriter::new(Cursor::new(&mut out));
        let options = SimpleFileOptions::default();
        for (name, bytes) in entries {
            writer.start_file(*name, options).unwrap();
            writer.write_all(bytes).unwrap();
        }
        writer.finish().unwrap();
    }
    out
}

fn read_entry(zip_bytes: &[u8], name: &str) -> Option<Vec<u8>> {
    let mut archive = ZipArchive::new(Cursor::new(zip_bytes)).ok()?;
    let mut entry = archive.by_name(name).ok()?;
    let mut buf = Vec::new();
    entry.read_to_end(&mut buf).ok()?;
    Some(buf)
}

#[test]
fn embed_dw_agents_round_trips_the_map() {
    let pack = zip_with(&[("manifest.cbor", b"x")]);
    let agents = agent_configs(&spec(AgentKind::SingleTurn));
    let json = br#"{"w":{"agent_id":"w"}}"#;
    let out = match embed_dw_agents(&pack, &agents, json).expect("embed must succeed").expect("sidecar written") {
        Resealing::Done(out) => out,
        Resealing::Pending { .. } => panic!("an unsealed pack needs no reseal"),
    };
    assert_eq!(read_entry(&out, "dw-agents.json").as_deref(), Some(&json[..]));
    assert!(read_entry(&out, "manifest.cbor").is_some(), "existing entries preserved");
}

#[test]
fn embed_dw_agents_skips_empty_map() {
    let pack = zip_with(&[("manifest.cbor", b"x")]);
    let mut s = spec(AgentKind::AgentGraph);
    s.agent_graph = None;
    let agents = agent_configs(&s);
    assert_eq!(agents.len(), 1);
    // A map is never empty for a spec; the empty case is an empty configuration set.
    let empty = greentic_dw_authoring::agents::AgentConfigs::new();
    assert!(embed_dw_agents(&pack, &empty, b"{}").unwrap().is_none());
}
