//! The canonical authoring format for an agentic worker.
use vstd::prelude::*;
use crate::json::{Json, JsonV};

verus! {

/// Which runtime shape a worker takes.
#[derive(Debug, Clone, Copy, PartialEq, Eq, Structural)]
pub enum AgentKind {
    SingleTurn,
    AgentGraph,
    DeepWorker,
}

impl Default for AgentKind {
    fn default() -> (r: AgentKind)
        ensures
            r == AgentKind::SingleTurn,
    {
        AgentKind::SingleTurn
    }
}

/// Full-parity worker model: everything a Designer worker carries.
#[derive(Debug, Clone, PartialEq)]
pub struct WorkerSpec {
    pub kind: AgentKind,
    pub name: String,
    pub description: Option<String>,
    pub tenant: Option<String>,
    pub llm: LlmRef,
    pub instructions: String,
    /// How the instructions are presented to the model; carried verbatim.
    pub prompt_mode: Option<String>,
    /// Optional tone hint; carried verbatim.
    pub tone: Option<String>,
    pub tools: Vec<String>,
    pub memory: Option<MemorySpec>,
    pub knowledge: Option<KnowledgeSpec>,
    pub guardrails: Vec<GuardrailRefSpec>,
    pub agent_graph: Option<AgentGraphSpec>,
    pub deep_worker: Option<DeepWorkerSpec>,
    pub locale: Option<String>,
    pub icon: Option<String>,
    pub vertical: Option<String>,
    pub opening_message: Option<String>,
    pub extension_tools: Vec<ExtensionToolBinding>,
}

/// The worker's LLM binding.
#[derive(Debug, Clone, PartialEq)]
pub struct LlmRef {
    pub provider: String,
    pub model: String,
    pub credential_ref: Option<String>,
}

/// Short-term memory: either a bare on/off switch (the built-in provider
/// when on) or a named provider of its own.
#[derive(Debug, Clone, PartialEq)]
pub enum ShortTermSpec {
    Enabled(bool),
    Provider(ProviderRef),
}

impl Default for ShortTermSpec {
    fn default() -> (r: ShortTermSpec)
        ensures
            r == ShortTermSpec::Enabled(false),
    {
        ShortTermSpec::Enabled(false)
    }
}

impl From<bool> for ShortTermSpec {
    fn from(enabled: bool) -> (r: ShortTermSpec) {
        ShortTermSpec::Enabled(enabled)
    }
}

impl vstd::std_specs::convert::FromSpecImpl<bool> for ShortTermSpec {
    open spec fn obeys_from_spec() -> bool {
        true
    }

    open spec fn from_spec(enabled: bool) -> ShortTermSpec {
        ShortTermSpec::Enabled(enabled)
    }
}

/// The worker's memory tiers.
#[derive(Debug, Clone, PartialEq)]
pub struct MemorySpec {
    pub short_term: ShortTermSpec,
    pub long_term: Option<ProviderRef>,
}

/// A memory provider binding. `params` are the entries of a JSON object
/// forwarded to the provider verbatim.
#[derive(Debug, Clone, PartialEq)]
pub struct ProviderRef {
    pub provider: String,
    pub credential_ref: Option<String>,
    pub params: Vec<(String, Json)>,
}

/// The worker's knowledge block.
#[derive(Debug, Clone, PartialEq)]
pub struct KnowledgeSpec {
    pub provider: String,
    pub provider_credential_ref: Option<String>,
    pub embedding: EmbeddingRef,
    pub top_k: u32,
    /// Local file paths to bake into the corpus (CLI); ignored when `KnowledgeInput`s are supplied directly.
    pub documents: Vec<String>,
}

/// The `top_k` a knowledge block takes when it names none.
pub fn default_top_k() -> (r: u32)
    ensures
        r == 5,
{
    5
}

/// The embedding provider and model of a knowledge block.
#[derive(Debug, Clone, PartialEq)]
pub struct EmbeddingRef {
    pub provider: String,
    pub model: String,
    pub credential_ref: Option<String>,
}

/// A guardrail: a bare capability id, or a capability id with its own
/// configuration object.
#[derive(Debug, Clone, PartialEq)]
pub enum GuardrailRefSpec {
    CapId(String),
    Full { cap_id: String, config: Json },
}

impl GuardrailRefSpec {
    pub open spec fn cap_id_spec(&self) -> Seq<char> {
        match self {
            GuardrailRefSpec::CapId(c) => c@,
            GuardrailRefSpec::Full { cap_id, .. } => cap_id@,
        }
    }

    /// The configuration: JSON `null` for a bare capability id.
    pub open spec fn config_spec(&self) -> JsonV {
        match self {
            GuardrailRefSpec::CapId(_) => JsonV::JNull,
            GuardrailRefSpec::Full { config, .. } => config@,
        }
    }

    /// The guardrail's capability id.
    pub fn cap_id(&self) -> (r: &str)
        ensures
            r@ == self.cap_id_spec(),
    {
        match self {
            GuardrailRefSpec::CapId(c) => c.as_str(),
            GuardrailRefSpec::Full { cap_id, .. } => cap_id.as_str(),
        }
    }

    /// The guardrail's configuration: `null` for a bare capability id.
    pub fn config(&self) -> (r: Json)
        ensures
            r@ == self.config_spec(),
    {
        match self {
            GuardrailRefSpec::CapId(_) => Json::Null,
            GuardrailRefSpec::Full { config, .. } => config.copy(),
        }
    }
}

impl<'a> From<&'a str> for GuardrailRefSpec {
    fn from(cap_id: &'a str) -> (r: GuardrailRefSpec) {
        GuardrailRefSpec::CapId(cap_id.to_owned())
    }
}

impl<'a> vstd::std_specs::convert::FromSpecImpl<&'a str> for GuardrailRefSpec {
    /// A `String` cannot be named from a `&str` in a specification, so the
    /// conversion is left unstated here; `From<String>` states it.
    open spec fn obeys_from_spec() -> bool {
        false
    }

    open spec fn from_spec(cap_id: &'a str) -> GuardrailRefSpec {
        vstd::pervasive::arbitrary()
    }
}

impl From<String> for GuardrailRefSpec {
    fn from(cap_id: String) -> (r: GuardrailRefSpec) {
        GuardrailRefSpec::CapId(cap_id)
    }
}

impl vstd::std_specs::convert::FromSpecImpl<String> for GuardrailRefSpec {
    open spec fn obeys_from_spec() -> bool {
        true
    }

    open spec fn from_spec(cap_id: String) -> GuardrailRefSpec {
        GuardrailRefSpec::CapId(cap_id)
    }
}

/// A coordinator routing to specialists.
#[derive(Debug, Clone, PartialEq)]
pub struct AgentGraphSpec {
    pub coordinator: Coordinator,
    pub specialists: Vec<Specialist>,
}

/// The coordinator's instructions.
#[derive(Debug, Clone, PartialEq)]
pub struct Coordinator {
    pub instructions: String,
}

/// One specialist of an agent graph.
#[derive(Debug, Clone, PartialEq)]
pub struct Specialist {
    pub name: String,
    pub instructions: String,
    pub tools: Vec<String>,
}

/// The deep-worker loop settings.
#[derive(Debug, Clone, PartialEq)]
pub struct DeepWorkerSpec {
    pub iteration_budget: u32,
    pub reflection: bool,
    pub delegation: bool,
    pub planning_model: Option<String>,
}

/// The iteration budget a deep-worker block takes when it names none.
pub fn default_iteration_budget() -> (r: u32)
    ensures
        r == 8,
{
    8
}

impl Default for DeepWorkerSpec {
    fn default() -> (r: DeepWorkerSpec)
        ensures
            r.iteration_budget == 8,
            !r.reflection,
            !r.delegation,
            r.planning_model is None,
    {
        DeepWorkerSpec { iteration_budget: 8, reflection: false, delegation: false, planning_model: None }
    }
}

/// Knowledge document text supplied by the caller (DB for the Designer, local files for the CLI).
#[derive(Debug, Clone, PartialEq)]
pub struct KnowledgeInput {
    pub id: String,
    pub text: String,
    /// Chunk embeddings computed ahead of time, baked next to the text.
    pub precomputed: Option<PrecomputedVectors>,
}

/// Precomputed chunk embeddings for one knowledge document.
#[derive(Debug, Clone, PartialEq)]
pub struct PrecomputedVectors {
    pub embedding_model: String,
    pub dims: u32,
    pub chunks: Vec<PrecomputedChunk>,
}

/// One embedded chunk. Each vector component is held as the decimal text
/// it is written out with.
#[derive(Debug, Clone, PartialEq)]
pub struct PrecomputedChunk {
    pub chunk_index: u32,
    pub chunk_text: String,
    pub vector: Vec<String>,
}

/// A Designer extension tool bound onto a worker. The agentic-worker
/// metadata and the secret requirements are carried as the JSON they are
/// exchanged in.
#[derive(Debug, Clone, PartialEq)]
pub struct ExtensionToolBinding {
    pub extension_id: String,
    pub extension_version: String,
    pub tool_name: String,
    pub description: String,
    pub input_schema_json: String,
    pub output_schema_json: Option<String>,
    pub capabilities: Vec<String>,
    pub agentic_worker_metadata: Json,
    pub secret_requirements: Vec<Json>,
    pub usage_note: Option<String>,
}

impl Default for ExtensionToolBinding {
    fn default() -> (r: ExtensionToolBinding)
        ensures
            r.extension_id@.len() == 0,
            r.tool_name@.len() == 0,
            r.description@.len() == 0,
            r.input_schema_json@.len() == 0,
            r.capabilities@.len() == 0,
            r.agentic_worker_metadata@ == JsonV::JObj(Seq::empty()),
            r.secret_requirements@.len() == 0,
            r.output_schema_json is None,
            r.usage_note is None,
    {
        let r = ExtensionToolBinding {
            extension_id: String::new(),
            extension_version: String::new(),
            tool_name: String::new(),
            description: String::new(),
            input_schema_json: String::new(),
            output_schema_json: None,
            capabilities: Vec::new(),
            agentic_worker_metadata: crate::json::json_object(Vec::new()),
            secret_requirements: Vec::new(),
            usage_note: None,
        };
        proof {
            assert(crate::json::entry_models(Seq::<(String, Json)>::empty()) =~= Seq::empty());
        }
        r
    }
}

} // verus!
