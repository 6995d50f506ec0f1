//! The decisions of assembling a worker `.gtpack`: the pack id, the main
//! flow document per agent kind, the pack metadata, the knowledge corpus
//! baked into the pack, and the agent configurations embedded beside it.
use std::path::PathBuf;
use vstd::prelude::*;
use crate::agents::{AgentConfigs, agent_configs, agent_configs_spec, opt_view};
use crate::cbor_flow_post::PostProcessError;
use crate::inject::{dw_agent_graph_node, edit_nodes_spec, empty_obj, inject_dw_agent_graph_node, inject_operala_call_node, jobj, jstr, operala_call_node};
use crate::json::{Json, JsonV, lemma_obj_get_only, entry_models, has_key, is_first_key, json_array, json_object, json_str, lemma_first_key, models, obj_get, obj_insert, object_get, push_entry, push_item};
use crate::loadable::{LoadableError, single_turn_doc, single_turn_main_ygtc};
use crate::model::{AgentKind, DeepWorkerSpec, KnowledgeInput, PrecomputedChunk, PrecomputedVectors, WorkerSpec};
use crate::project::{ProjectError, answer_document_spec, deep_worker_or_default_json, deep_worker_to_json, display_name, display_name_of, manifest_id_of, to_answer_document};
use crate::text::{chars_of, concat, decimal, decimal_string, string_from_chars};

verus! {

/// `std::path::PathBuf`, held opaque.
#[verifier::external_type_specification]
#[verifier::external_body]
pub struct ExPathBuf(PathBuf);

/// `semver::Error`, held opaque.
#[verifier::external_type_specification]
#[verifier::external_body]
pub struct ExSemverError(semver::Error);

/// `time::error::Format`, held opaque.
#[verifier::external_type_specification]
#[verifier::external_body]
pub struct ExTimeFormat(time::error::Format);

/// `anyhow::Error`, held opaque.
#[verifier::external_type_specification]
#[verifier::external_body]
pub struct ExAnyhowError(anyhow::Error);

/// Why assembling a worker pack failed.
#[derive(Debug)]
pub enum AssembleError {
    Project(ProjectError),
    Ygtc(String),
    /// The flow did not validate (the validator's message).
    FlowValidate(String),
    Version(semver::Error),
    Timestamp(time::error::Format),
    PackBuild(anyhow::Error),
    Io(std::io::Error),
    Sidecar(PostProcessError),
    Loadable(LoadableError),
    EmbedAgents(String),
}

/// A built worker `.gtpack`, ready to be loaded by the runner.
#[derive(Debug)]
pub struct WorkerPack {
    pub pack_path: PathBuf,
    pub pack_id: String,
}

/// The pack id of a worker: `pack.dw.<manifest id>`.
pub open spec fn pack_id_of(spec: WorkerSpec) -> Seq<char> {
    "pack.dw."@ + manifest_id_of(spec)
}

/// The skeleton the agent-graph and deep-worker flows start from: a
/// legacy-mode (`schema_version: 1`) messaging flow with no nodes, which
/// keeps native op-keys such as `operala.call` as they are written.
pub open spec fn minimal_messaging_entries() -> Seq<(Seq<char>, JsonV)> {
    seq![
        ("schema_version"@, JsonV::JNum("1"@)),
        ("id"@, jstr("main"@)),
        ("type"@, jstr("messaging"@)),
        ("nodes"@, empty_obj()),
    ]
}

/// The skeleton with `node` as its only node, keyed `key`.
pub open spec fn skeleton_with(key: Seq<char>, node: JsonV) -> JsonV {
    jobj(minimal_messaging_entries().update(3, ("nodes"@, jobj(seq![(key, node)]))))
}

/// The LLM binding stamped into a deep-worker node: provider and model.
pub open spec fn llm_binding(spec: WorkerSpec) -> JsonV {
    jobj(seq![("provider"@, jstr(spec.llm.provider@)), ("model"@, jstr(spec.llm.model@))])
}

/// The main flow document of a worker: the single `dw.agent` flow for a
/// single-turn worker; otherwise the skeleton with the `dw.agent_graph`
/// node (operation = pack id) or the `operala.call` node (target = pack
/// id, carrying the deep-worker block and the LLM binding).
pub open spec fn flow_document(spec: WorkerSpec, pack_id: Seq<char>) -> JsonV {
    match spec.kind {
        AgentKind::SingleTurn => single_turn_doc(spec.name@),
        AgentKind::AgentGraph => skeleton_with("agent_graph"@, dw_agent_graph_node(pack_id)),
        AgentKind::DeepWorker => skeleton_with(
            "deep_worker"@,
            operala_call_node(pack_id, deep_worker_or_default_json(spec), llm_binding(spec)),
        ),
    }
}

/// A deep worker's main flow holds one node, keyed `deep_worker`: an
/// `operala.call` node that targets the pack, ends the flow, and passes the
/// worker's deep-worker block (reflection and delegation as the block sets
/// them, both off without a block) and its LLM provider and model.
pub proof fn lemma_deep_worker_flow(spec: WorkerSpec, pack_id: Seq<char>)
    requires
        spec.kind == AgentKind::DeepWorker,
    ensures
        ({
            let d = flow_document(spec, pack_id)->JObj_0;
            let nodes = obj_get(d, "nodes"@);
            let node = obj_get(nodes->Some_0->JObj_0, "deep_worker"@);
            let n = node->Some_0->JObj_0;
            let input = obj_get(obj_get(n, "operala.call"@)->Some_0->JObj_0, "input"@)->Some_0->JObj_0;
            let dw = obj_get(input, "deep_worker"@)->Some_0->JObj_0;
            let llm = obj_get(input, "llm"@)->Some_0->JObj_0;
            let (reflection, delegation) = match spec.deep_worker {
                Some(b) => (b.reflection, b.delegation),
                None => (false, false),
            };
            &&& nodes is Some && nodes->Some_0 is JObj
            &&& node is Some && node->Some_0 is JObj
            &&& obj_get(n, "operation"@) == Some(JsonV::JStr(pack_id))
            &&& obj_get(n, "routing"@) == Some(crate::inject::terminal_routing())
            &&& obj_get(dw, "reflection"@) == Some(JsonV::JBool(reflection))
            &&& obj_get(dw, "delegation"@) == Some(JsonV::JBool(delegation))
            &&& obj_get(llm, "provider"@) == Some(JsonV::JStr(spec.llm.provider@))
            &&& obj_get(llm, "model"@) == Some(JsonV::JStr(spec.llm.model@))
        }),
{
    reveal_strlit("schema_version");
    reveal_strlit("id");
    reveal_strlit("type");
    reveal_strlit("nodes");
    reveal_strlit("deep_worker");
    reveal_strlit("provider");
    reveal_strlit("model");
    let dwj = deep_worker_or_default_json(spec);
    let node = operala_call_node(pack_id, dwj, llm_binding(spec));
    let d = flow_document(spec, pack_id)->JObj_0;
    assert(d[0].0.len() == 14 && d[1].0.len() == 2 && d[2].0.len() == 4 && d[3].0 == "nodes"@);
    assert("nodes"@.len() == 5);
    lemma_obj_get_only(d, "nodes"@, 3);
    let ns = seq![("deep_worker"@, node)];
    assert(d[3].1->JObj_0 == ns);
    lemma_obj_get_only(ns, "deep_worker"@, 0);
    crate::inject::lemma_operala_call_node_shape(pack_id, dwj, llm_binding(spec));
    match spec.deep_worker {
        Some(b) => crate::project::lemma_deep_worker_fields_of(b.iteration_budget, b.reflection, b.delegation, b.planning_model),
        None => crate::project::lemma_deep_worker_fields_of(8, false, false, None),
    }
    let l = llm_binding(spec)->JObj_0;
    assert(l[0].0.len() == 8 && l[1].0.len() == 5);
    lemma_obj_get_only(l, "provider"@, 0);
    lemma_obj_get_only(l, "model"@, 1);
}

fn minimal_messaging() -> (r: Json)
    ensures
        r@ == jobj(minimal_messaging_entries()),
{
    let mut e: Vec<(String, Json)> = Vec::new();
    assert(entry_models(e@) =~= Seq::empty());
    push_entry(&mut e, "schema_version", Json::Number("1".to_owned()));
    push_entry(&mut e, "id", json_str("main"));
    push_entry(&mut e, "type", json_str("messaging"));
    push_entry(&mut e, "nodes", crate::inject::empty_object());
    assert(entry_models(e@) =~= minimal_messaging_entries());
    json_object(e)
}

/// Inserting one node into the skeleton gives the skeleton with that node.
proof fn lemma_skeleton_insert(who: Seq<char>, key: Seq<char>, node: JsonV)
    ensures
        edit_nodes_spec(jobj(minimal_messaging_entries()), who, seq![(key, node)]) == Ok::<JsonV, Seq<char>>(
            skeleton_with(key, node),
        ),
{
    let e = minimal_messaging_entries();
    reveal_strlit("schema_version");
    reveal_strlit("id");
    reveal_strlit("type");
    reveal_strlit("nodes");
    assert(e[0].0 != "nodes"@) by {
        assert(e[0].0.len() != "nodes"@.len());
    }
    assert(e[1].0 != "nodes"@) by {
        assert(e[1].0.len() != "nodes"@.len());
    }
    assert(e[2].0 != "nodes"@) by {
        assert(e[2].0.len() != "nodes"@.len());
    }
    assert(is_first_key(e, "nodes"@, 3));
    lemma_first_key(e, "nodes"@, 3);
    assert(has_key(e, "nodes"@));
    assert(obj_get(e, "nodes"@) == Some(empty_obj()));
    let empty = Seq::<(Seq<char>, JsonV)>::empty();
    let ins = seq![(key, node)];
    assert(ins.drop_last() =~= Seq::<(Seq<char>, JsonV)>::empty());
    assert(crate::inject::nodes_fold(empty, ins.drop_last()) == empty);
    assert(!has_key(empty, key));
    assert(crate::inject::nodes_fold(empty, ins) =~= ins);
    assert(obj_insert(e, "nodes"@, jobj(ins)) == e.update(3, ("nodes"@, jobj(ins))));
}

/// The LLM binding of a worker, as JSON.
fn llm_binding_json(spec: &WorkerSpec) -> (r: Json)
    ensures
        r@ == llm_binding(*spec),
{
    let mut e: Vec<(String, Json)> = Vec::new();
    assert(entry_models(e@) =~= Seq::empty());
    push_entry(&mut e, "provider", Json::Str(spec.llm.provider.clone()));
    push_entry(&mut e, "model", Json::Str(spec.llm.model.clone()));
    assert(entry_models(e@) =~= llm_binding(*spec)->JObj_0);
    json_object(e)
}

/// Build the main flow document of `spec` for the pack `pack_id`.
pub fn build_flow_ygtc(spec: &WorkerSpec, pack_id: &str) -> (r: Json)
    requires
        !crate::text::is_blank(pack_id@),
    ensures
        r@ == flow_document(*spec, pack_id@),
{
    match spec.kind {
        AgentKind::SingleTurn => single_turn_main_ygtc(spec.name.as_str()),
        AgentKind::AgentGraph => {
            let base = minimal_messaging();
            proof {
                lemma_skeleton_insert("inject_dw_agent_graph_node"@, "agent_graph"@, dw_agent_graph_node(pack_id@));
                if pack_id@.len() == 0 {
                    assert(crate::text::is_blank(pack_id@));
                }
            }
            match inject_dw_agent_graph_node(Ok(base), pack_id) {
                Ok(d) => d,
                Err(_) => {
                    proof {
                        assert(false);
                    }
                    Json::Null
                },
            }
        },
        AgentKind::DeepWorker => {
            let dw = match &spec.deep_worker {
                Some(d) => deep_worker_to_json(d),
                None => {
                    let d = DeepWorkerSpec { iteration_budget: 8, reflection: false, delegation: false, planning_model: None };
                    deep_worker_to_json(&d)
                },
            };
            assert(dw@ == deep_worker_or_default_json(*spec));
            let llm = llm_binding_json(spec);
            let base = minimal_messaging();
            proof {
                lemma_skeleton_insert(
                    "inject_operala_call_node"@,
                    "deep_worker"@,
                    operala_call_node(pack_id@, dw@, llm@),
                );
            }
            match inject_operala_call_node(Ok(base), pack_id, &dw, &llm) {
                Ok(d) => d,
                Err(_) => {
                    proof {
                        assert(false);
                    }
                    Json::Null
                },
            }
        },
    }
}

/// The pack id of `spec`: `pack.dw.` followed by the answer document's
/// `manifest_id` (`dw-application` where it has none).
pub fn worker_pack_id(spec: &WorkerSpec) -> (r: Result<String, AssembleError>)
    ensures
        r matches Ok(id) && id@ == pack_id_of(*spec),
{
    let answer = match to_answer_document(spec) {
        Ok(a) => a,
        Err(e) => {
            return Err(AssembleError::Project(e));
        },
    };
    proof {
        let e = answer_document_spec(*spec)->JObj_0;
        assert(is_first_key(e, "manifest_id"@, 0));
        lemma_first_key(e, "manifest_id"@, 0);
        assert(has_key(e, "manifest_id"@));
    }
    let manifest_id = match object_get(&answer, "manifest_id") {
        Some(Json::Str(s)) => s.clone(),
        _ => "dw-application".to_owned(),
    };
    Ok(concat("pack.dw.", manifest_id.as_str()))
}

/// The metadata the pack is built with: its id, version (as text, `0.1.0`),
/// display name, description, entry flow and creation time (RFC 3339, UTC).
pub struct PackMetaSpec {
    pub pack_id: String,
    pub version: String,
    pub name: String,
    pub description: Option<String>,
    pub entry_flows: Vec<String>,
    pub created_at_utc: String,
}

/// An ASCII digit.
pub open spec fn is_digit(c: char) -> bool {
    '0' <= c && c <= '9'
}

/// The shape of an RFC 3339 UTC timestamp as the `time` crate writes it:
/// `YYYY-MM-DDTHH:MM:SS`, then `.` and one to nine fraction digits where the
/// second is not whole, then `Z`.
pub open spec fn rfc3339_utc_shape(s: Seq<char>) -> bool {
    &&& 20 <= s.len() <= 30
    &&& s[4] == '-' && s[7] == '-' && s[10] == 'T' && s[13] == ':' && s[16] == ':'
    &&& forall|i: int| #![trigger s[i]]
        (0 <= i < 4 || 5 <= i < 7 || 8 <= i < 10 || 11 <= i < 13 || 14 <= i < 16 || 17 <= i < 19) ==> is_digit(s[i])
    &&& s[s.len() - 1] == 'Z'
    &&& s.len() > 20 ==> (s[19] == '.' && forall|i: int| 20 <= i < s.len() - 1 ==> is_digit(#[trigger] s[i]))
}

/// `time::OffsetDateTime::now_utc()` formatted as RFC 3339. It reads the
/// clock, so only the text's shape is stated: four-digit year, month, day,
/// `T`, hour, minute, second, an optional fraction, and `Z` for UTC (the
/// crate's `Rfc3339` formatter, which fails only on a year outside
/// `0..10000`).
#[verifier::external_body]
fn now_rfc3339() -> (r: Result<String, time::error::Format>)
    ensures
        r matches Ok(t) ==> rfc3339_utc_shape(t@),
{
    time::OffsetDateTime::now_utc().format(&time::format_description::well_known::Rfc3339)
}

/// The pack metadata of `spec` for the pack `pack_id` whose entry flow is
/// `flow_id`. Only reading the clock can fail.
pub fn build_pack_meta(pack_id: &str, spec: &WorkerSpec, flow_id: String) -> (r: Result<PackMetaSpec, AssembleError>)
    ensures
        r matches Ok(m) ==> m.pack_id@ == pack_id@ && m.name@ == display_name_of(*spec) && opt_view(m.description)
            == opt_view(spec.description) && m.entry_flows@.len() == 1 && m.entry_flows@[0]@ == flow_id@
            && m.version@ == "0.1.0"@ && rfc3339_utc_shape(m.created_at_utc@),
        r matches Err(e) ==> e is Timestamp,
{
    let name = display_name(spec);
    let version = "0.1.0".to_owned();
    let created_at_utc = match now_rfc3339() {
        Ok(t) => t,
        Err(e) => {
            return Err(AssembleError::Timestamp(e));
        },
    };
    let mut entry_flows: Vec<String> = Vec::new();
    entry_flows.push(flow_id);
    Ok(PackMetaSpec {
        pack_id: pack_id.to_owned(),
        version,
        name,
        description: spec.description.clone(),
        entry_flows,
        created_at_utc,
    })
}

/// The body of a corpus asset: plain text (written as its UTF-8 bytes) or a
/// JSON document.
pub enum AssetBody {
    Text(String),
    Document(Json),
}

/// The model of an [`AssetBody`].
pub enum AssetBodyV {
    Text(Seq<char>),
    Document(JsonV),
}

/// One knowledge asset to write into the pack: its path and its body.
pub struct CorpusAsset {
    pub path: String,
    pub body: AssetBody,
}

pub open spec fn asset_view(a: CorpusAsset) -> (Seq<char>, AssetBodyV) {
    (a.path@, match a.body {
        AssetBody::Text(t) => AssetBodyV::Text(t@),
        AssetBody::Document(d) => AssetBodyV::Document(d@),
    })
}

pub open spec fn asset_views(s: Seq<CorpusAsset>) -> Seq<(Seq<char>, AssetBodyV)> {
    Seq::new(s.len(), |i: int| asset_view(s[i]))
}

/// The knowledge baked into a pack: the `knowledge_corpus.json` document
/// and the assets it names.
pub struct KnowledgeCorpus {
    pub annotation: Json,
    pub assets: Vec<CorpusAsset>,
}

/// The most characters kept of one document.
pub open spec fn per_file_cap() -> nat {
    15000
}

/// The most characters the corpus holds in all.
pub open spec fn total_cap() -> nat {
    100000
}

/// The most documents the corpus takes.
pub open spec fn max_files() -> nat {
    20
}

/// A document's text, cut to its first 15 000 characters.
pub open spec fn capped_text(t: Seq<char>) -> Seq<char> {
    if t.len() > per_file_cap() {
        t.subrange(0, per_file_cap() as int)
    } else {
        t
    }
}

pub open spec fn text_asset_path(id: Seq<char>) -> Seq<char> {
    "assets/knowledge/"@ + id + ".txt"@
}

pub open spec fn vectors_asset_path(id: Seq<char>) -> Seq<char> {
    "assets/knowledge/"@ + id + ".vec.json"@
}

/// An embedded chunk as JSON: index, text and vector components.
pub open spec fn chunk_doc(c: PrecomputedChunk) -> JsonV {
    jobj(
        seq![
            ("chunk_index"@, JsonV::JNum(decimal(c.chunk_index as nat))),
            ("chunk_text"@, jstr(c.chunk_text@)),
            ("vector"@, JsonV::JArr(Seq::new(c.vector@.len(), |j: int| JsonV::JNum(c.vector@[j]@)))),
        ],
    )
}

/// The `<id>.vec.json` document of precomputed embeddings.
pub open spec fn vectors_doc(v: PrecomputedVectors) -> JsonV {
    jobj(
        seq![
            ("embedding_model"@, jstr(v.embedding_model@)),
            ("dims"@, JsonV::JNum(decimal(v.dims as nat))),
            ("chunks"@, JsonV::JArr(Seq::new(v.chunks@.len(), |i: int| chunk_doc(v.chunks@[i])))),
        ],
    )
}

/// The corpus file entry of a document kept with `chars` characters.
pub open spec fn file_doc(item: KnowledgeInput, chars: nat) -> JsonV {
    jobj(
        seq![
            ("asset_path"@, jstr(text_asset_path(item.id@))),
            ("original_name"@, jstr(item.id@)),
            ("chars"@, JsonV::JNum(decimal(chars))),
        ] + match item.precomputed {
            Some(_) => seq![("vectors_asset_path"@, jstr(vectors_asset_path(item.id@)))],
            None => Seq::empty(),
        },
    )
}

/// The assets of a kept document: its text, and its vectors when it has
/// precomputed ones.
pub open spec fn item_assets(item: KnowledgeInput) -> Seq<(Seq<char>, AssetBodyV)> {
    seq![(text_asset_path(item.id@), AssetBodyV::Text(capped_text(item.text@)))] + match item.precomputed {
        Some(v) => seq![(vectors_asset_path(item.id@), AssetBodyV::Document(vectors_doc(v)))],
        None => Seq::empty(),
    }
}

/// The corpus built from documents in order: file entries, assets, the
/// running character total, and whether a document overflowed the total
/// cap (after which no further document is taken).
pub open spec fn corpus_fold(items: Seq<KnowledgeInput>) -> (Seq<JsonV>, Seq<(Seq<char>, AssetBodyV)>, nat, bool)
    decreases items.len(),
{
    if items.len() == 0 {
        (Seq::empty(), Seq::empty(), 0, false)
    } else {
        let (files, assets, total, over) = corpus_fold(items.drop_last());
        let item = items.last();
        let chars = capped_text(item.text@).len();
        if over || total + chars > total_cap() {
            (files, assets, total, true)
        } else {
            (files.push(file_doc(item, chars)), assets + item_assets(item), total + chars, false)
        }
    }
}

/// The documents the corpus looks at: the first twenty.
pub open spec fn considered(knowledge: Seq<KnowledgeInput>) -> Seq<KnowledgeInput> {
    if knowledge.len() > max_files() {
        knowledge.take(max_files() as int)
    } else {
        knowledge
    }
}

/// The knowledge provider, embedding provider and `top_k` the corpus
/// records: the worker's knowledge block, or the defaults.
pub open spec fn corpus_providers(spec: WorkerSpec) -> (Seq<char>, Seq<char>, u32) {
    match spec.knowledge {
        Some(k) => (k.provider@, k.embedding.provider@, k.top_k),
        None => ("provider.knowledge.default"@, "provider.embedding.openai"@, 5),
    }
}

/// The `knowledge_corpus.json` document.
pub open spec fn corpus_annotation(spec: WorkerSpec, knowledge: Seq<KnowledgeInput>) -> JsonV {
    let (files, assets, total, over) = corpus_fold(considered(knowledge));
    let (kp, ep, top_k) = corpus_providers(spec);
    jobj(
        seq![
            ("version"@, JsonV::JNum(decimal(1))),
            ("strategy"@, jstr("embedding_retrieval"@)),
            ("knowledge_provider_id"@, jstr(kp)),
            ("embedding_provider_id"@, jstr(ep)),
            ("top_k"@, JsonV::JNum(decimal(top_k as nat))),
            ("total_chars"@, JsonV::JNum(decimal(total))),
            ("truncated"@, JsonV::JBool(knowledge.len() > max_files() || over)),
            ("files"@, JsonV::JArr(files)),
        ],
    )
}

/// The assets of the corpus, in order.
pub open spec fn corpus_assets(knowledge: Seq<KnowledgeInput>) -> Seq<(Seq<char>, AssetBodyV)> {
    corpus_fold(considered(knowledge)).1
}

proof fn lemma_fold_within_caps(items: Seq<KnowledgeInput>)
    ensures
        corpus_fold(items).2 <= total_cap(),
        corpus_fold(items).0.len() <= items.len(),
    decreases items.len(),
{
    if items.len() > 0 {
        lemma_fold_within_caps(items.drop_last());
    }
}

/// The corpus stays within its caps: at most twenty files, at most
/// 100 000 characters in all, at most 15 000 of them from any document.
pub proof fn lemma_corpus_within_caps(knowledge: Seq<KnowledgeInput>, t: Seq<char>)
    ensures
        corpus_fold(considered(knowledge)).2 <= total_cap(),
        corpus_fold(considered(knowledge)).0.len() <= max_files(),
        capped_text(t).len() <= per_file_cap(),
{
    lemma_fold_within_caps(considered(knowledge));
}

/// The characters a run of documents contributes, each cut to its cap.
pub open spec fn capped_total(items: Seq<KnowledgeInput>) -> nat
    decreases items.len(),
{
    if items.len() == 0 {
        0
    } else {
        capped_total(items.drop_last()) + capped_text(items.last().text@).len()
    }
}

/// The assets of a run of documents, each document's in turn.
pub open spec fn assets_of(items: Seq<KnowledgeInput>) -> Seq<(Seq<char>, AssetBodyV)>
    decreases items.len(),
{
    if items.len() == 0 {
        Seq::empty()
    } else {
        assets_of(items.drop_last()) + item_assets(items.last())
    }
}

/// The corpus takes a prefix of the documents: the first `k` of them, each
/// with its own file entry and assets, as many as fit in the total cap. The
/// first document that would overflow the cap ends the corpus: it and every
/// later document are left out, and the corpus is marked as overflowed
/// exactly when some document was left out.
pub proof fn lemma_corpus_is_a_prefix(items: Seq<KnowledgeInput>)
    ensures
        ({
            let (files, assets, total, over) = corpus_fold(items);
            let k = files.len() as int;
            &&& k <= items.len()
            &&& forall|i: int| 0 <= i < k ==> #[trigger] files[i] == file_doc(items[i], capped_text(items[i].text@).len())
            &&& assets == assets_of(items.take(k))
            &&& total == capped_total(items.take(k))
            &&& total <= total_cap()
            &&& over <==> k < items.len()
            &&& k < items.len() ==> total + capped_text(items[k].text@).len() > total_cap()
        }),
    decreases items.len(),
{
    if items.len() == 0 {
        assert(items.take(0) =~= items);
    } else {
        let p = items.drop_last();
        lemma_corpus_is_a_prefix(p);
        let (f0, a0, t0, o0) = corpus_fold(p);
        let k0 = f0.len() as int;
        assert(p.take(k0) =~= items.take(k0));
        assert forall|i: int| 0 <= i < k0 implies p[i] == items[i] by {}
        if !o0 {
            assert(k0 == p.len());
            let item = items.last();
            let chars = capped_text(item.text@).len();
            if t0 + chars <= total_cap() {
                assert(items.take(k0 + 1) =~= items);
                assert(items.take(k0 + 1).drop_last() =~= items.take(k0));
                assert(items[k0] == item);
            } else {
                assert(items[k0] == item);
            }
        } else {
            assert(p[k0] == items[k0]);
        }
    }
}

/// The corpus document lists the file entries of the documents taken,
/// counts their characters, and is marked truncated exactly when a document
/// was left out: past the twentieth, or from the first that would overflow
/// the total cap on.
pub proof fn lemma_corpus_annotation_fields(spec: WorkerSpec, knowledge: Seq<KnowledgeInput>)
    ensures
        ({
            let items = considered(knowledge);
            let files = corpus_fold(items).0;
            let a = corpus_annotation(spec, knowledge)->JObj_0;
            &&& files.len() <= items.len()
            &&& obj_get(a, "files"@) == Some(JsonV::JArr(files))
            &&& obj_get(a, "total_chars"@) == Some(JsonV::JNum(decimal(capped_total(items.take(files.len() as int)))))
            &&& obj_get(a, "truncated"@) == Some(JsonV::JBool(files.len() < knowledge.len()))
        }),
{
    reveal_strlit("version");
    reveal_strlit("strategy");
    reveal_strlit("knowledge_provider_id");
    reveal_strlit("embedding_provider_id");
    reveal_strlit("top_k");
    reveal_strlit("total_chars");
    reveal_strlit("truncated");
    reveal_strlit("files");
    let items = considered(knowledge);
    lemma_corpus_is_a_prefix(items);
    let a = corpus_annotation(spec, knowledge)->JObj_0;
    assert(a[0].0.len() == 7 && a[1].0.len() == 8 && a[2].0.len() == 21 && a[3].0.len() == 21);
    assert(a[4].0 == "top_k"@ && a[5].0.len() == 11 && a[6].0.len() == 9 && a[7].0 == "files"@);
    assert("top_k"@ != "files"@) by {
        assert("top_k"@[0] != "files"@[0]);
    }
    assert("files"@.len() == 5);
    lemma_obj_get_only(a, "total_chars"@, 5);
    lemma_obj_get_only(a, "truncated"@, 6);
    lemma_obj_get_only(a, "files"@, 7);
}

fn chunk_to_json(c: &PrecomputedChunk) -> (r: Json)
    ensures
        r@ == chunk_doc(*c),
{
    let mut comps: Vec<Json> = Vec::new();
    let mut j: usize = 0;
    while j < c.vector.len()
        invariant
            0 <= j <= c.vector@.len(),
            models(comps@) =~= Seq::new(c.vector@.len(), |q: int| JsonV::JNum(c.vector@[q]@)).take(j as int),
        decreases c.vector@.len() - j,
    {
        push_item(&mut comps, Json::Number(c.vector[j].clone()));
        j = j + 1;
    }
    assert(models(comps@) =~= Seq::new(c.vector@.len(), |q: int| JsonV::JNum(c.vector@[q]@)));
    let mut e: Vec<(String, Json)> = Vec::new();
    assert(entry_models(e@) =~= Seq::empty());
    push_entry(&mut e, "chunk_index", Json::Number(decimal_string(c.chunk_index as u64)));
    push_entry(&mut e, "chunk_text", Json::Str(c.chunk_text.clone()));
    push_entry(&mut e, "vector", json_array(comps));
    assert(entry_models(e@) =~= chunk_doc(*c)->JObj_0);
    json_object(e)
}

/// The `<id>.vec.json` document of a document's precomputed embeddings.
pub fn vectors_to_json(v: &PrecomputedVectors) -> (r: Json)
    ensures
        r@ == vectors_doc(*v),
{
    let mut chunks: Vec<Json> = Vec::new();
    let mut i: usize = 0;
    while i < v.chunks.len()
        invariant
            0 <= i <= v.chunks@.len(),
            models(chunks@) =~= Seq::new(v.chunks@.len(), |q: int| chunk_doc(v.chunks@[q])).take(i as int),
        decreases v.chunks@.len() - i,
    {
        push_item(&mut chunks, chunk_to_json(&v.chunks[i]));
        i = i + 1;
    }
    assert(models(chunks@) =~= Seq::new(v.chunks@.len(), |q: int| chunk_doc(v.chunks@[q])));
    let mut e: Vec<(String, Json)> = Vec::new();
    assert(entry_models(e@) =~= Seq::empty());
    push_entry(&mut e, "embedding_model", Json::Str(v.embedding_model.clone()));
    push_entry(&mut e, "dims", Json::Number(decimal_string(v.dims as u64)));
    push_entry(&mut e, "chunks", json_array(chunks));
    assert(entry_models(e@) =~= vectors_doc(*v)->JObj_0);
    json_object(e)
}

/// A document's text cut to its first 15 000 characters, and how many
/// characters are kept.
fn cap_text(text: &str) -> (r: (String, usize))
    ensures
        r.0@ == capped_text(text@),
        r.1 == capped_text(text@).len(),
{
    let mut cs = chars_of(text);
    if cs.len() > 15000 {
        cs.truncate(15000);
        assert(cs@ =~= text@.subrange(0, 15000));
    }
    let n = cs.len();
    (string_from_chars(cs.as_slice()), n)
}

fn file_to_json(item: &KnowledgeInput, chars: usize) -> (r: Json)
    ensures
        r@ == file_doc(*item, chars as nat),
{
    let mut e: Vec<(String, Json)> = Vec::new();
    assert(entry_models(e@) =~= Seq::empty());
    let path = concat(concat("assets/knowledge/", item.id.as_str()).as_str(), ".txt");
    push_entry(&mut e, "asset_path", Json::Str(path));
    push_entry(&mut e, "original_name", Json::Str(item.id.clone()));
    push_entry(&mut e, "chars", Json::Number(decimal_string(chars as u64)));
    let ghost base = entry_models(e@);
    match &item.precomputed {
        Some(_) => {
            let vp = concat(concat("assets/knowledge/", item.id.as_str()).as_str(), ".vec.json");
            push_entry(&mut e, "vectors_asset_path", Json::Str(vp));
        },
        None => {},
    }
    assert(entry_models(e@) =~= file_doc(*item, chars as nat)->JObj_0);
    json_object(e)
}

/// Bake `knowledge` into a corpus: the first twenty documents, each cut to
/// 15 000 characters, taken in order while the running total stays within
/// 100 000 characters (the first that would overflow it ends the corpus and
/// marks it truncated, as does a twenty-first document). Each kept document
/// yields its `assets/knowledge/<id>.txt` asset and, with precomputed
/// embeddings, its `assets/knowledge/<id>.vec.json` asset, recorded on its
/// file entry as `vectors_asset_path`. The knowledge and embedding
/// providers and `top_k` come from the worker's knowledge block, else
/// `provider.knowledge.default`, `provider.embedding.openai` and 5.
pub fn build_knowledge_corpus(spec: &WorkerSpec, knowledge: &[KnowledgeInput]) -> (r: KnowledgeCorpus)
    ensures
        r.annotation@ == corpus_annotation(*spec, knowledge@),
        asset_views(r.assets@) == corpus_assets(knowledge@),
{
    let limit: usize = if knowledge.len() > 20 {
        20
    } else {
        knowledge.len()
    };
    let ghost items = considered(knowledge@);
    assert(items.len() == limit);
    let mut files: Vec<Json> = Vec::new();
    let mut assets: Vec<CorpusAsset> = Vec::new();
    let mut total: usize = 0;
    let mut over = false;
    let mut i: usize = 0;
    assert(items.take(0) =~= Seq::<KnowledgeInput>::empty());
    assert(models(files@) =~= Seq::<JsonV>::empty());
    assert(asset_views(assets@) =~= Seq::<(Seq<char>, AssetBodyV)>::empty());
    while i < limit
        invariant
            0 <= i <= limit,
            limit == items.len(),
            limit <= knowledge@.len(),
            items == considered(knowledge@),
            forall|q: int| 0 <= q < limit ==> items[q] == knowledge@[q],
            (models(files@), asset_views(assets@), total as nat, over) == corpus_fold(items.take(i as int)),
            total <= 100000,
        decreases limit - i,
    {
        let item = &knowledge[i];
        assert(items.take(i + 1).drop_last() =~= items.take(i as int));
        assert(items.take(i + 1).last() == *item);
        if !over {
            let (text, chars) = cap_text(item.text.as_str());
            if total + chars > 100000 {
                over = true;
            } else {
                push_item(&mut files, file_to_json(item, chars));
                let ghost before = assets@;
                let tpath = concat(concat("assets/knowledge/", item.id.as_str()).as_str(), ".txt");
                assets.push(CorpusAsset { path: tpath, body: AssetBody::Text(text) });
                match &item.precomputed {
                    Some(v) => {
                        let vpath = concat(concat("assets/knowledge/", item.id.as_str()).as_str(), ".vec.json");
                        assets.push(CorpusAsset { path: vpath, body: AssetBody::Document(vectors_to_json(v)) });
                    },
                    None => {},
                }
                assert(asset_views(assets@) =~= asset_views(before) + item_assets(*item));
                total = total + chars;
            }
        }
        i = i + 1;
    }
    assert(items.take(limit as int) =~= items);
    let (kp, ep, top_k) = match &spec.knowledge {
        Some(k) => (k.provider.clone(), k.embedding.provider.clone(), k.top_k),
        None => ("provider.knowledge.default".to_owned(), "provider.embedding.openai".to_owned(), 5u32),
    };
    let mut e: Vec<(String, Json)> = Vec::new();
    assert(entry_models(e@) =~= Seq::empty());
    push_entry(&mut e, "version", Json::Number(decimal_string(1)));
    push_entry(&mut e, "strategy", json_str("embedding_retrieval"));
    push_entry(&mut e, "knowledge_provider_id", Json::Str(kp));
    push_entry(&mut e, "embedding_provider_id", Json::Str(ep));
    push_entry(&mut e, "top_k", Json::Number(decimal_string(top_k as u64)));
    push_entry(&mut e, "total_chars", Json::Number(decimal_string(total as u64)));
    push_entry(&mut e, "truncated", Json::Bool(knowledge.len() > 20 || over));
    push_entry(&mut e, "files", json_array(files));
    assert(entry_models(e@) =~= corpus_annotation(*spec, knowledge@)->JObj_0);
    KnowledgeCorpus { annotation: json_object(e), assets }
}

/// Everything a worker pack is built from, decided from the spec and the
/// knowledge documents.
pub struct WorkerPackPlan {
    /// `pack.dw.<manifest id>`.
    pub pack_id: String,
    /// The main flow document.
    pub flow: Json,
    /// The knowledge corpus to bake, when any document is supplied.
    pub knowledge: Option<KnowledgeCorpus>,
    /// The agent configurations to embed as `dw-agents.json`.
    pub agents: AgentConfigs,
}

/// Decide what the worker pack of `spec` is built from: its pack id, its
/// main flow (operating on that pack id), the knowledge corpus when
/// `knowledge` is not empty, and its agent configurations.
pub fn worker_pack_plan(spec: &WorkerSpec, knowledge: &[KnowledgeInput]) -> (r: Result<WorkerPackPlan, AssembleError>)
    ensures
        r matches Ok(p) && p.pack_id@ == pack_id_of(*spec) && p.flow@ == flow_document(*spec, pack_id_of(*spec))
            && (knowledge@.len() == 0 <==> p.knowledge is None) && (p.knowledge matches Some(c) ==> (c.annotation@
            == corpus_annotation(*spec, knowledge@) && asset_views(c.assets@) == corpus_assets(knowledge@)))
            && p.agents.view_entries() == agent_configs_spec(*spec),
{
    let pack_id = match worker_pack_id(spec) {
        Ok(id) => id,
        Err(e) => {
            return Err(e);
        },
    };
    proof {
        reveal_strlit("pack.dw.");
        assert(pack_id@[0] == 'p');
        assert(!crate::text::is_white_space(pack_id@[0]));
    }
    let flow = build_flow_ygtc(spec, pack_id.as_str());
    let knowledge = if knowledge.len() == 0 {
        None
    } else {
        Some(build_knowledge_corpus(spec, knowledge))
    };
    let agents = agent_configs(spec);
    Ok(WorkerPackPlan { pack_id, flow, knowledge, agents })
}

} // verus!
