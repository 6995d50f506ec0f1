//! Runtime agent configurations (`dw-agents.json`) derived from a
//! [`WorkerSpec`]: one per agent, keyed by agent id in `String` order.
use vstd::prelude::*;
use crate::json::{Json, JsonV, entry_models, push_entry};
use crate::model::{AgentKind, ExtensionToolBinding, GuardrailRefSpec, ProviderRef, ShortTermSpec, WorkerSpec};
use crate::ordered::{kinsert, kget, keys_sorted, kkeys, kview, sorted_insert, sorted_get, lemma_kinsert_keys, lemma_kinsert_sorted};
use crate::text::{is_blank, is_blank_exec};

verus! {

/// What `serde_json::from_str::<serde_json::Value>` makes of a text: whether
/// it is one JSON document.
pub uninterp spec fn json_text_valid(text: Seq<char>) -> bool;

/// Wraps `serde_json::from_str::<serde_json::Value>`: claims only that the
/// result tells whether the text parses, as [`json_text_valid`] names it;
/// the parsed value is dropped.
#[verifier::external_body]
fn parses_as_json(raw: &str) -> (r: bool)
    ensures
        r == json_text_valid(raw@),
{
    serde_json::from_str::<serde_json::Value>(raw).is_ok()
}

pub open spec fn opt_view(o: Option<String>) -> Option<Seq<char>> {
    match o {
        Some(s) => Some(s@),
        None => None,
    }
}

/// A tool an agent may call. `input_schema` is the author's JSON-schema
/// text, present only when it is not blank and parses as JSON.
#[derive(Debug, Clone, PartialEq)]
pub struct ToolRef {
    pub extension_id: String,
    pub tool_name: String,
    pub description: Option<String>,
    pub input_schema: Option<String>,
}

/// The model of a [`ToolRef`].
pub struct ToolRefV {
    pub extension_id: Seq<char>,
    pub tool_name: Seq<char>,
    pub description: Option<Seq<char>>,
    pub input_schema: Option<Seq<char>>,
}

impl View for ToolRef {
    type V = ToolRefV;

    open spec fn view(&self) -> ToolRefV {
        ToolRefV {
            extension_id: self.extension_id@,
            tool_name: self.tool_name@,
            description: opt_view(self.description),
            input_schema: opt_view(self.input_schema),
        }
    }
}

/// A guardrail an agent runs under: its capability id and configuration.
#[derive(Debug, Clone, PartialEq)]
pub struct GuardrailRef {
    pub cap_id: String,
    pub offer_id: Option<String>,
    pub config: Json,
}

/// The model of a [`GuardrailRef`].
pub struct GuardrailRefV {
    pub cap_id: Seq<char>,
    pub offer_id: Option<Seq<char>>,
    pub config: JsonV,
}

impl View for GuardrailRef {
    type V = GuardrailRefV;

    open spec fn view(&self) -> GuardrailRefV {
        GuardrailRefV { cap_id: self.cap_id@, offer_id: opt_view(self.offer_id), config: self.config@ }
    }
}

/// The LLM an agent calls: provider, model and credential reference.
#[derive(Debug, Clone, PartialEq)]
pub struct LlmProviderRef {
    pub provider: String,
    pub model: String,
    pub credential_ref: Option<String>,
}

/// The runtime's default agent limits.
#[derive(Debug, Clone, Copy, PartialEq, Eq, Structural)]
pub struct AgentLimits {}

/// A provider bound to a memory or knowledge capability.
#[derive(Debug, Clone, PartialEq)]
pub struct MemoryProviderRef {
    pub provider: String,
    pub capability: String,
    pub params: Vec<(String, Json)>,
    pub credential_ref: Option<String>,
}

/// The model of a [`MemoryProviderRef`].
pub struct MemoryProviderRefV {
    pub provider: Seq<char>,
    pub capability: Seq<char>,
    pub params: Seq<(Seq<char>, JsonV)>,
    pub credential_ref: Option<Seq<char>>,
}

impl View for MemoryProviderRef {
    type V = MemoryProviderRefV;

    open spec fn view(&self) -> MemoryProviderRefV {
        MemoryProviderRefV {
            provider: self.provider@,
            capability: self.capability@,
            params: entry_models(self.params@),
            credential_ref: opt_view(self.credential_ref),
        }
    }
}

pub open spec fn opt_mpr(o: Option<MemoryProviderRef>) -> Option<MemoryProviderRefV> {
    match o {
        Some(m) => Some(m@),
        None => None,
    }
}

/// An agent's short- and long-term memory providers.
#[derive(Debug, Clone, PartialEq)]
pub struct MemorySettings {
    pub short_term: Option<MemoryProviderRef>,
    pub long_term: Option<MemoryProviderRef>,
}

/// The model of [`MemorySettings`].
pub struct MemorySettingsV {
    pub short_term: Option<MemoryProviderRefV>,
    pub long_term: Option<MemoryProviderRefV>,
}

impl View for MemorySettings {
    type V = MemorySettingsV;

    open spec fn view(&self) -> MemorySettingsV {
        MemorySettingsV { short_term: opt_mpr(self.short_term), long_term: opt_mpr(self.long_term) }
    }
}

/// An agent's knowledge and embedding providers and how many passages it retrieves.
#[derive(Debug, Clone, PartialEq)]
pub struct KnowledgeSettings {
    pub knowledge: Option<MemoryProviderRef>,
    pub embedding: Option<MemoryProviderRef>,
    pub top_k: usize,
}

/// The model of [`KnowledgeSettings`].
pub struct KnowledgeSettingsV {
    pub knowledge: Option<MemoryProviderRefV>,
    pub embedding: Option<MemoryProviderRefV>,
    pub top_k: nat,
}

impl View for KnowledgeSettings {
    type V = KnowledgeSettingsV;

    open spec fn view(&self) -> KnowledgeSettingsV {
        KnowledgeSettingsV {
            knowledge: opt_mpr(self.knowledge),
            embedding: opt_mpr(self.embedding),
            top_k: self.top_k as nat,
        }
    }
}

/// One agent's runtime configuration.
#[derive(Debug, Clone, PartialEq)]
pub struct AgentConfig {
    pub agent_id: String,
    pub system_prompt: String,
    pub tools: Vec<ToolRef>,
    pub guardrails: Vec<GuardrailRef>,
    pub llm: LlmProviderRef,
    pub limits: AgentLimits,
    pub memory: Option<MemorySettings>,
    pub knowledge: Option<KnowledgeSettings>,
    pub conversational: bool,
    pub opening_message: Option<String>,
}

/// The model of an [`AgentConfig`].
pub struct AgentConfigV {
    pub agent_id: Seq<char>,
    pub system_prompt: Seq<char>,
    pub tools: Seq<ToolRefV>,
    pub guardrails: Seq<GuardrailRefV>,
    pub llm: (Seq<char>, Seq<char>, Option<Seq<char>>),
    pub memory: Option<MemorySettingsV>,
    pub knowledge: Option<KnowledgeSettingsV>,
    pub conversational: bool,
    pub opening_message: Option<Seq<char>>,
}

pub open spec fn tool_views(s: Seq<ToolRef>) -> Seq<ToolRefV> {
    Seq::new(s.len(), |i: int| s[i]@)
}

pub open spec fn guardrail_views(s: Seq<GuardrailRef>) -> Seq<GuardrailRefV> {
    Seq::new(s.len(), |i: int| s[i]@)
}

impl View for AgentConfig {
    type V = AgentConfigV;

    open spec fn view(&self) -> AgentConfigV {
        AgentConfigV {
            agent_id: self.agent_id@,
            system_prompt: self.system_prompt@,
            tools: tool_views(self.tools@),
            guardrails: guardrail_views(self.guardrails@),
            llm: (self.llm.provider@, self.llm.model@, opt_view(self.llm.credential_ref)),
            memory: match self.memory {
                Some(m) => Some(m@),
                None => None,
            },
            knowledge: match self.knowledge {
                Some(k) => Some(k@),
                None => None,
            },
            conversational: self.conversational,
            opening_message: opt_view(self.opening_message),
        }
    }
}

// ---------------------------------------------------------------------
// Tool references
// ---------------------------------------------------------------------

/// A string tool id used verbatim for both fields, with no author contract.
pub open spec fn string_tool_ref(t: Seq<char>) -> ToolRefV {
    ToolRefV { extension_id: t, tool_name: t, description: None, input_schema: None }
}

pub open spec fn tool_refs_from_strings_spec(tools: Seq<String>) -> Seq<ToolRefV> {
    Seq::new(tools.len(), |i: int| string_tool_ref(tools[i]@))
}

/// The author schema text: `None` when blank or not JSON.
pub open spec fn input_schema_of(raw: Seq<char>) -> Option<Seq<char>> {
    if is_blank(raw) {
        None
    } else if json_text_valid(raw) {
        Some(raw)
    } else {
        None
    }
}

/// The binding carries the `agentic_worker` capability tag.
pub open spec fn is_agentic(b: ExtensionToolBinding) -> bool {
    exists|i: int| 0 <= i < b.capabilities@.len() && b.capabilities@[i]@ == "agentic_worker"@
}

pub open spec fn extension_tool_ref(b: ExtensionToolBinding) -> ToolRefV {
    ToolRefV {
        extension_id: b.extension_id@,
        tool_name: b.tool_name@,
        description: if is_blank(b.description@) { None } else { Some(b.description@) },
        input_schema: input_schema_of(b.input_schema_json@),
    }
}

pub open spec fn has_tool_key(s: Seq<ToolRefV>, ext: Seq<char>, tool: Seq<char>) -> bool {
    exists|i: int| 0 <= i < s.len() && s[i].extension_id == ext && s[i].tool_name == tool
}

/// The agentic bindings in order, each `(extension_id, tool_name)` pair
/// kept at its first occurrence only.
pub open spec fn tool_refs_from_extension_tools_spec(bs: Seq<ExtensionToolBinding>) -> Seq<ToolRefV>
    decreases bs.len(),
{
    if bs.len() == 0 {
        Seq::empty()
    } else {
        let prev = tool_refs_from_extension_tools_spec(bs.drop_last());
        let b = bs.last();
        if is_agentic(b) && !has_tool_key(prev, b.extension_id@, b.tool_name@) {
            prev.push(extension_tool_ref(b))
        } else {
            prev
        }
    }
}

/// An author's JSON-schema text, kept only when it is not blank and parses
/// as JSON.
pub fn parse_input_schema(raw: &str) -> (r: Option<String>)
    ensures
        opt_view(r) == input_schema_of(raw@),
{
    if is_blank_exec(raw) {
        return None;
    }
    if parses_as_json(raw) {
        Some(raw.to_owned())
    } else {
        None
    }
}

/// Plain tool ids as tool references, the id standing for both extension
/// and tool name.
pub fn tool_refs_from_strings(tools: &Vec<String>) -> (r: Vec<ToolRef>)
    ensures
        tool_views(r@) == tool_refs_from_strings_spec(tools@),
{
    let mut out: Vec<ToolRef> = Vec::new();
    let mut i: usize = 0;
    while i < tools.len()
        invariant
            0 <= i <= tools.len(),
            tool_views(out@) =~= tool_refs_from_strings_spec(tools@).take(i as int),
        decreases tools.len() - i,
    {
        let t = ToolRef {
            extension_id: tools[i].clone(),
            tool_name: tools[i].clone(),
            description: None,
            input_schema: None,
        };
        let ghost before = tool_views(out@);
        out.push(t);
        assert(t@ == string_tool_ref(tools@[i as int]@));
        assert(tool_views(out@) =~= before.push(t@));
        assert(tool_refs_from_strings_spec(tools@).take(i + 1) =~= tool_refs_from_strings_spec(tools@).take(i as int).push(string_tool_ref(tools@[i as int]@)));
        i = i + 1;
    }
    assert(tool_refs_from_strings_spec(tools@).take(tools.len() as int) =~= tool_refs_from_strings_spec(tools@));
    out
}

fn has_capability(b: &ExtensionToolBinding) -> (r: bool)
    ensures
        r == is_agentic(*b),
{
    let mut i: usize = 0;
    while i < b.capabilities.len()
        invariant
            0 <= i <= b.capabilities.len(),
            forall|j: int| 0 <= j < i ==> b.capabilities@[j]@ != "agentic_worker"@,
        decreases b.capabilities.len() - i,
    {
        if b.capabilities[i] == "agentic_worker".to_owned() {
            return true;
        }
        i = i + 1;
    }
    false
}

fn has_key(refs: &Vec<ToolRef>, ext: &String, tool: &String) -> (r: bool)
    ensures
        r == has_tool_key(tool_views(refs@), ext@, tool@),
{
    let mut i: usize = 0;
    while i < refs.len()
        invariant
            0 <= i <= refs.len(),
            forall|j: int| 0 <= j < i ==> !(#[trigger] tool_views(refs@)[j].extension_id == ext@ && tool_views(refs@)[j].tool_name == tool@),
        decreases refs.len() - i,
    {
        if refs[i].extension_id == *ext && refs[i].tool_name == *tool {
            assert(tool_views(refs@)[i as int].extension_id == ext@);
            return true;
        }
        i = i + 1;
    }
    false
}

/// Filter `bindings` to those exposing the `agentic_worker` capability and
/// map each to a [`ToolRef`], preserving order and dropping later
/// duplicates of an already-seen `(extension_id, tool_name)` pair.
pub fn tool_refs_from_extension_tools(bindings: &Vec<ExtensionToolBinding>) -> (r: Vec<ToolRef>)
    ensures
        tool_views(r@) == tool_refs_from_extension_tools_spec(bindings@),
{
    let mut tools: Vec<ToolRef> = Vec::new();
    let mut i: usize = 0;
    assert(bindings@.take(0) =~= Seq::<ExtensionToolBinding>::empty());
    assert(tool_views(tools@) =~= Seq::empty());
    while i < bindings.len()
        invariant
            0 <= i <= bindings.len(),
            tool_views(tools@) == tool_refs_from_extension_tools_spec(bindings@.take(i as int)),
        decreases bindings.len() - i,
    {
        let binding = &bindings[i];
        assert(bindings@.take(i + 1).drop_last() =~= bindings@.take(i as int));
        assert(bindings@.take(i + 1).last() == *binding);
        if has_capability(binding) && !has_key(&tools, &binding.extension_id, &binding.tool_name) {
            let description = if is_blank_exec(binding.description.as_str()) {
                None
            } else {
                Some(binding.description.clone())
            };
            let t = ToolRef {
                extension_id: binding.extension_id.clone(),
                tool_name: binding.tool_name.clone(),
                description,
                input_schema: parse_input_schema(binding.input_schema_json.as_str()),
            };
            let ghost before = tool_views(tools@);
            tools.push(t);
            assert(tool_views(tools@) =~= before.push(t@));
        }
        i = i + 1;
    }
    assert(bindings@.take(bindings.len() as int) =~= bindings@);
    tools
}

/// `base` with each entry of `extra` appended unless an equal entry is
/// already there.
pub open spec fn merge_refs(base: Seq<ToolRefV>, extra: Seq<ToolRefV>) -> Seq<ToolRefV>
    decreases extra.len(),
{
    if extra.len() == 0 {
        base
    } else {
        let prev = merge_refs(base, extra.drop_last());
        if prev.contains(extra.last()) {
            prev
        } else {
            prev.push(extra.last())
        }
    }
}

fn opt_eq(a: &Option<String>, b: &Option<String>) -> (r: bool)
    ensures
        r == (opt_view(*a) == opt_view(*b)),
{
    match (a, b) {
        (Some(x), Some(y)) => *x == *y,
        (None, None) => true,
        _ => false,
    }
}

fn copy_tool_ref(t: &ToolRef) -> (r: ToolRef)
    ensures
        r@ == t@,
{
    ToolRef {
        extension_id: t.extension_id.clone(),
        tool_name: t.tool_name.clone(),
        description: t.description.clone(),
        input_schema: t.input_schema.clone(),
    }
}

fn tool_ref_eq(a: &ToolRef, b: &ToolRef) -> (r: bool)
    ensures
        r == (a@ == b@),
{
    a.extension_id == b.extension_id && a.tool_name == b.tool_name && opt_eq(&a.description, &b.description)
        && opt_eq(&a.input_schema, &b.input_schema)
}

fn contains_ref(refs: &Vec<ToolRef>, t: &ToolRef) -> (r: bool)
    ensures
        r == tool_views(refs@).contains(t@),
{
    let mut i: usize = 0;
    while i < refs.len()
        invariant
            0 <= i <= refs.len(),
            forall|j: int| 0 <= j < i ==> tool_views(refs@)[j] != t@,
        decreases refs.len() - i,
    {
        if tool_ref_eq(&refs[i], t) {
            assert(tool_views(refs@)[i as int] == t@);
            return true;
        }
        i = i + 1;
    }
    false
}

// ---------------------------------------------------------------------
// Memory, knowledge, guardrails
// ---------------------------------------------------------------------

pub open spec fn mpr(provider: Seq<char>, capability: Seq<char>, params: Seq<(Seq<char>, JsonV)>, credential_ref: Option<Seq<char>>) -> MemoryProviderRefV {
    MemoryProviderRefV { provider, capability, params, credential_ref }
}

/// A bare `true` binds the built-in `greentic.memory.short_term` provider.
pub open spec fn short_term_spec(s: ShortTermSpec) -> Option<MemoryProviderRefV> {
    match s {
        ShortTermSpec::Enabled(false) => None,
        ShortTermSpec::Enabled(true) => Some(mpr("greentic.memory.short_term"@, "cap://memory/short-term"@, Seq::empty(), None)),
        ShortTermSpec::Provider(p) => Some(mpr(p.provider@, "cap://memory/short-term"@, entry_models(p.params@), opt_view(p.credential_ref))),
    }
}

pub open spec fn long_term_spec(o: Option<ProviderRef>) -> Option<MemoryProviderRefV> {
    match o {
        Some(p) => Some(mpr(p.provider@, "cap://memory/long-term"@, entry_models(p.params@), opt_view(p.credential_ref))),
        None => None,
    }
}

/// The runtime memory settings: absent when the spec has no memory block
/// or neither tier is set.
pub open spec fn memory_settings_spec(spec: WorkerSpec) -> Option<MemorySettingsV> {
    match spec.memory {
        None => None,
        Some(m) => {
            let s = short_term_spec(m.short_term);
            let l = long_term_spec(m.long_term);
            if s is None && l is None {
                None
            } else {
                Some(MemorySettingsV { short_term: s, long_term: l })
            }
        },
    }
}

/// The runtime knowledge settings; the embedding model travels in the
/// embedding provider's `params["model"]`.
pub open spec fn knowledge_settings_spec(spec: WorkerSpec) -> Option<KnowledgeSettingsV> {
    match spec.knowledge {
        None => None,
        Some(k) => Some(KnowledgeSettingsV {
            knowledge: Some(mpr(k.provider@, "cap://dw.knowledge"@, Seq::empty(), opt_view(k.provider_credential_ref))),
            embedding: Some(mpr(k.embedding.provider@, "cap://dw.embedding"@, seq![("model"@, JsonV::JStr(k.embedding.model@))], opt_view(k.embedding.credential_ref))),
            top_k: k.top_k as nat,
        }),
    }
}

pub open spec fn guardrail_ref_spec(g: GuardrailRefSpec) -> GuardrailRefV {
    GuardrailRefV { cap_id: g.cap_id_spec(), offer_id: None, config: g.config_spec() }
}

pub open spec fn guardrail_refs_spec(spec: WorkerSpec) -> Seq<GuardrailRefV> {
    Seq::new(spec.guardrails@.len(), |i: int| guardrail_ref_spec(spec.guardrails@[i]))
}

fn copy_params(p: &Vec<(String, Json)>) -> (r: Vec<(String, Json)>)
    ensures
        entry_models(r@) == entry_models(p@),
{
    let mut out: Vec<(String, Json)> = Vec::new();
    let mut i: usize = 0;
    while i < p.len()
        invariant
            0 <= i <= p.len(),
            entry_models(out@) =~= entry_models(p@).take(i as int),
        decreases p.len() - i,
    {
        let k = p[i].0.clone();
        let x = p[i].1.copy();
        let ghost before = entry_models(out@);
        out.push((k, x));
        assert(entry_models(out@) =~= before.push((k@, x@)));
        assert(entry_models(p@).take(i + 1) =~= entry_models(p@).take(i as int).push((p@[i as int].0@, p@[i as int].1@)));
        i = i + 1;
    }
    assert(entry_models(p@).take(p.len() as int) =~= entry_models(p@));
    out
}

fn provider_ref(p: &ProviderRef, capability: &str) -> (r: MemoryProviderRef)
    ensures
        r@ == mpr(p.provider@, capability@, entry_models(p.params@), opt_view(p.credential_ref)),
{
    MemoryProviderRef {
        provider: p.provider.clone(),
        capability: capability.to_owned(),
        params: copy_params(&p.params),
        credential_ref: p.credential_ref.clone(),
    }
}

/// The runtime memory settings of a worker: its short-term tier (the
/// built-in provider, a named one, or none) and its long-term provider;
/// none when neither tier is set.
pub fn build_memory_settings(spec: &WorkerSpec) -> (r: Option<MemorySettings>)
    ensures
        match r {
            Some(m) => memory_settings_spec(*spec) == Some(m@),
            None => memory_settings_spec(*spec) is None,
        },
{
    let mem = match &spec.memory {
        Some(m) => m,
        None => return None,
    };
    let short_term = match &mem.short_term {
        ShortTermSpec::Enabled(false) => None,
        ShortTermSpec::Enabled(true) => {
            let empty: Vec<(String, Json)> = Vec::new();
            assert(entry_models(empty@) =~= Seq::empty());
            Some(MemoryProviderRef {
                provider: "greentic.memory.short_term".to_owned(),
                capability: "cap://memory/short-term".to_owned(),
                params: empty,
                credential_ref: None,
            })
        },
        ShortTermSpec::Provider(p) => Some(provider_ref(p, "cap://memory/short-term")),
    };
    let long_term = match &mem.long_term {
        Some(p) => Some(provider_ref(p, "cap://memory/long-term")),
        None => None,
    };
    assert(opt_mpr(short_term) == short_term_spec(mem.short_term));
    assert(opt_mpr(long_term) == long_term_spec(mem.long_term));
    if short_term.is_none() && long_term.is_none() {
        None
    } else {
        Some(MemorySettings { short_term, long_term })
    }
}

/// The runtime knowledge settings of a worker's knowledge block: the
/// knowledge provider, the embedding provider (with its model as a
/// parameter) and `top_k`.
pub fn build_knowledge_settings(spec: &WorkerSpec) -> (r: Option<KnowledgeSettings>)
    ensures
        match r {
            Some(k) => knowledge_settings_spec(*spec) == Some(k@),
            None => knowledge_settings_spec(*spec) is None,
        },
{
    let knowledge = match &spec.knowledge {
        Some(k) => k,
        None => return None,
    };
    let empty: Vec<(String, Json)> = Vec::new();
    assert(entry_models(empty@) =~= Seq::empty());
    let mut embedding_params: Vec<(String, Json)> = Vec::new();
    assert(entry_models(embedding_params@) =~= Seq::empty());
    push_entry(&mut embedding_params, "model", Json::Str(knowledge.embedding.model.clone()));
    assert(entry_models(embedding_params@) =~= seq![("model"@, JsonV::JStr(knowledge.embedding.model@))]);
    Some(KnowledgeSettings {
        knowledge: Some(MemoryProviderRef {
            provider: knowledge.provider.clone(),
            capability: "cap://dw.knowledge".to_owned(),
            params: empty,
            credential_ref: knowledge.provider_credential_ref.clone(),
        }),
        embedding: Some(MemoryProviderRef {
            provider: knowledge.embedding.provider.clone(),
            capability: "cap://dw.embedding".to_owned(),
            params: embedding_params,
            credential_ref: knowledge.embedding.credential_ref.clone(),
        }),
        top_k: knowledge.top_k as usize,
    })
}

/// The worker's guardrails as runtime references: a bare capability id
/// gets a `null` configuration, the full shape keeps its own.
pub fn build_guardrail_refs(spec: &WorkerSpec) -> (r: Vec<GuardrailRef>)
    ensures
        guardrail_views(r@) == guardrail_refs_spec(*spec),
{
    let mut out: Vec<GuardrailRef> = Vec::new();
    let mut i: usize = 0;
    while i < spec.guardrails.len()
        invariant
            0 <= i <= spec.guardrails.len(),
            guardrail_views(out@) =~= guardrail_refs_spec(*spec).take(i as int),
        decreases spec.guardrails.len() - i,
    {
        let g = &spec.guardrails[i];
        let r = GuardrailRef { cap_id: g.cap_id().to_owned(), offer_id: None, config: g.config() };
        let ghost before = guardrail_views(out@);
        out.push(r);
        assert(guardrail_views(out@) =~= before.push(r@));
        assert(guardrail_refs_spec(*spec).take(i + 1) =~= guardrail_refs_spec(*spec).take(i as int).push(guardrail_ref_spec(spec.guardrails@[i as int])));
        i = i + 1;
    }
    assert(guardrail_refs_spec(*spec).take(spec.guardrails.len() as int) =~= guardrail_refs_spec(*spec));
    out
}


// ---------------------------------------------------------------------
// Agent configurations
// ---------------------------------------------------------------------

/// One agent's configuration: its own id, prompt and tools; the worker's
/// guardrails, LLM, memory and knowledge; worker-level extension tools
/// only when `include_extension_tools`; one-shot (not conversational).
pub open spec fn agent_config_spec(
    spec: WorkerSpec,
    agent_id: Seq<char>,
    system_prompt: Seq<char>,
    tools: Seq<String>,
    include_extension_tools: bool,
) -> AgentConfigV {
    AgentConfigV {
        agent_id,
        system_prompt,
        tools: if include_extension_tools {
            merge_refs(tool_refs_from_strings_spec(tools), tool_refs_from_extension_tools_spec(spec.extension_tools@))
        } else {
            tool_refs_from_strings_spec(tools)
        },
        guardrails: guardrail_refs_spec(spec),
        llm: (spec.llm.provider@, spec.llm.model@, opt_view(spec.llm.credential_ref)),
        memory: memory_settings_spec(spec),
        knowledge: knowledge_settings_spec(spec),
        conversational: false,
        opening_message: None,
    }
}

/// Build one [`AgentConfig`]. `include_extension_tools` gates whether the
/// worker-level `extension_tools` are folded in after the agent's own tools
/// (skipping any equal to one already listed).
pub fn build_agent_config(
    spec: &WorkerSpec,
    agent_id: &String,
    system_prompt: &String,
    tools: &Vec<String>,
    include_extension_tools: bool,
) -> (r: AgentConfig)
    ensures
        r@ == agent_config_spec(*spec, agent_id@, system_prompt@, tools@, include_extension_tools),
{
    let mut tool_refs = tool_refs_from_strings(tools);
    let ghost base = tool_views(tool_refs@);
    if include_extension_tools {
        let extra = tool_refs_from_extension_tools(&spec.extension_tools);
        let ghost ev = tool_views(extra@);
        let mut i: usize = 0;
        assert(ev.take(0) =~= Seq::<ToolRefV>::empty());
        while i < extra.len()
            invariant
                0 <= i <= extra.len(),
                ev == tool_views(extra@),
                tool_views(tool_refs@) == merge_refs(base, ev.take(i as int)),
            decreases extra.len() - i,
        {
            assert(ev.take(i + 1).drop_last() =~= ev.take(i as int));
            assert(ev.take(i + 1).last() == extra@[i as int]@);
            if !contains_ref(&tool_refs, &extra[i]) {
                let t = copy_tool_ref(&extra[i]);
                let ghost before = tool_views(tool_refs@);
                tool_refs.push(t);
                assert(tool_views(tool_refs@) =~= before.push(t@));
            }
            i = i + 1;
        }
        assert(ev.take(extra.len() as int) =~= ev);
    } else {
        assert(merge_refs(base, Seq::empty()) == base);
    }
    AgentConfig {
        agent_id: agent_id.clone(),
        system_prompt: system_prompt.clone(),
        tools: tool_refs,
        guardrails: build_guardrail_refs(spec),
        llm: LlmProviderRef {
            provider: spec.llm.provider.clone(),
            model: spec.llm.model.clone(),
            credential_ref: spec.llm.credential_ref.clone(),
        },
        limits: AgentLimits {},
        memory: build_memory_settings(spec),
        knowledge: build_knowledge_settings(spec),
        conversational: false,
        opening_message: None,
    }
}


/// The keyed views of agent configurations.
pub open spec fn config_views(t: Seq<(Seq<char>, AgentConfig)>) -> Seq<(Seq<char>, AgentConfigV)> {
    Seq::new(t.len(), |i: int| (t[i].0, t[i].1@))
}

/// Inserting commutes with taking views of the values.
proof fn lemma_kinsert_views(t: Seq<(Seq<char>, AgentConfig)>, k: Seq<char>, v: AgentConfig)
    ensures
        config_views(kinsert(t, k, v)) == kinsert(config_views(t), k, v@),
    decreases t.len(),
{
    let a = config_views(kinsert(t, k, v));
    let b = kinsert(config_views(t), k, v@);
    let ct = config_views(t);
    if t.len() == 0 {
        assert(a =~= b);
    } else if t[0].0 == k {
        assert(ct[0].0 == k);
        assert(a =~= b);
    } else if str_lt_k(k, t[0].0) {
        assert(a =~= b);
    } else {
        lemma_kinsert_views(t.drop_first(), k, v);
        assert(config_views(t.drop_first()) =~= ct.drop_first());
        assert(a =~= b);
    }
}

pub open spec fn str_lt_k(a: Seq<char>, b: Seq<char>) -> bool {
    crate::ordered::str_lt(a, b)
}

/// The specialists' configurations inserted, in order, over `base`.
pub open spec fn specialists_fold(
    spec: WorkerSpec,
    base: Seq<(Seq<char>, AgentConfigV)>,
    s: Seq<crate::model::Specialist>,
) -> Seq<(Seq<char>, AgentConfigV)>
    decreases s.len(),
{
    if s.len() == 0 {
        base
    } else {
        let sp = s.last();
        kinsert(
            specialists_fold(spec, base, s.drop_last()),
            sp.name@,
            agent_config_spec(spec, sp.name@, sp.instructions@, sp.tools@, false),
        )
    }
}

/// The agents of `spec`, keyed by agent id: for an agent-graph worker
/// with a graph, the coordinator (keyed by the worker's name, with the
/// coordinator's instructions and the worker's tools) and then each
/// specialist (keyed by its own name, a later one replacing an earlier
/// one with the same key); otherwise the one agent keyed by the worker's
/// name.
pub open spec fn agent_configs_spec(spec: WorkerSpec) -> Seq<(Seq<char>, AgentConfigV)> {
    match (spec.kind, spec.agent_graph) {
        (AgentKind::AgentGraph, Some(g)) => specialists_fold(
            spec,
            seq![(spec.name@, agent_config_spec(spec, spec.name@, g.coordinator.instructions@, spec.tools@, true))],
            g.specialists@,
        ),
        _ => seq![(spec.name@, agent_config_spec(spec, spec.name@, spec.instructions@, spec.tools@, true))],
    }
}

/// The names of a run of specialists.
pub open spec fn specialist_name_set(s: Seq<crate::model::Specialist>) -> Set<Seq<char>> {
    Set::new(|n: Seq<char>| exists|i: int| 0 <= i < s.len() && s[i].name@ == n)
}

proof fn lemma_specialists_fold_keys(spec: WorkerSpec, base: Seq<(Seq<char>, AgentConfigV)>, s: Seq<crate::model::Specialist>)
    requires
        keys_sorted(base),
    ensures
        kkeys(specialists_fold(spec, base, s)) == kkeys(base).union(specialist_name_set(s)),
        keys_sorted(specialists_fold(spec, base, s)),
    decreases s.len(),
{
    if s.len() == 0 {
        assert(specialist_name_set(s) =~= Set::<Seq<char>>::empty());
        assert(kkeys(base).union(specialist_name_set(s)) =~= kkeys(base));
    } else {
        let prev = specialists_fold(spec, base, s.drop_last());
        let sp = s.last();
        let c = agent_config_spec(spec, sp.name@, sp.instructions@, sp.tools@, false);
        lemma_specialists_fold_keys(spec, base, s.drop_last());
        lemma_kinsert_keys(prev, sp.name@, c);
        lemma_kinsert_sorted(prev, sp.name@, c);
        assert(specialist_name_set(s) =~= specialist_name_set(s.drop_last()).insert(sp.name@)) by {
            assert forall|n: Seq<char>| specialist_name_set(s).contains(n) implies specialist_name_set(s.drop_last()).insert(sp.name@).contains(n) by {
                let i = choose|i: int| 0 <= i < s.len() && s[i].name@ == n;
                if i < s.len() - 1 {
                    assert(s.drop_last()[i].name@ == n);
                }
            }
            assert forall|n: Seq<char>| specialist_name_set(s.drop_last()).insert(sp.name@).contains(n) implies specialist_name_set(s).contains(n) by {
                if n != sp.name@ {
                    let i = choose|i: int| 0 <= i < s.drop_last().len() && s.drop_last()[i].name@ == n;
                    assert(s[i].name@ == n);
                } else {
                    assert(s[s.len() - 1].name@ == n);
                }
            }
        }
        assert(kkeys(base).union(specialist_name_set(s)) =~= kkeys(base).union(specialist_name_set(s.drop_last())).insert(sp.name@));
    }
}

/// The agents of a worker are keyed by the worker's name and, for an
/// agent-graph worker with a graph, by each specialist's name, and by
/// nothing else; the keys come in key order, each once.
pub proof fn lemma_agent_config_keys(spec: WorkerSpec)
    ensures
        kkeys(agent_configs_spec(spec)) == match (spec.kind, spec.agent_graph) {
            (AgentKind::AgentGraph, Some(g)) => set![spec.name@].union(specialist_name_set(g.specialists@)),
            _ => set![spec.name@],
        },
        keys_sorted(agent_configs_spec(spec)),
{
    match (spec.kind, spec.agent_graph) {
        (AgentKind::AgentGraph, Some(g)) => {
            let base = seq![(spec.name@, agent_config_spec(spec, spec.name@, g.coordinator.instructions@, spec.tools@, true))];
            assert(kkeys(base) =~= set![spec.name@]) by {
                assert(base[0].0 == spec.name@);
            }
            lemma_specialists_fold_keys(spec, base, g.specialists@);
        },
        _ => {
            let only = agent_configs_spec(spec);
            assert(kkeys(only) =~= set![spec.name@]) by {
                assert(only[0].0 == spec.name@);
            }
        },
    }
}

/// Every configuration's `agent_id` is the key it is stored under.
pub open spec fn keyed_by_agent_id(t: Seq<(Seq<char>, AgentConfigV)>) -> bool {
    forall|i: int| 0 <= i < t.len() ==> (#[trigger] t[i]).1.agent_id == t[i].0
}

proof fn lemma_kinsert_keyed(t: Seq<(Seq<char>, AgentConfigV)>, k: Seq<char>, v: AgentConfigV)
    requires
        keyed_by_agent_id(t),
        v.agent_id == k,
    ensures
        keyed_by_agent_id(kinsert(t, k, v)),
    decreases t.len(),
{
    let r = kinsert(t, k, v);
    if t.len() == 0 {
    } else if t[0].0 == k {
        assert forall|i: int| 0 <= i < r.len() implies (#[trigger] r[i]).1.agent_id == r[i].0 by {
            if i > 0 {
                assert(r[i] == t[i]);
            }
        }
    } else if crate::ordered::str_lt(k, t[0].0) {
        assert forall|i: int| 0 <= i < r.len() implies (#[trigger] r[i]).1.agent_id == r[i].0 by {
            if i > 0 {
                assert(r[i] == t[i - 1]);
            }
        }
    } else {
        let t0 = t.drop_first();
        assert forall|i: int| 0 <= i < t0.len() implies (#[trigger] t0[i]).1.agent_id == t0[i].0 by {
            assert(t0[i] == t[i + 1]);
        }
        lemma_kinsert_keyed(t0, k, v);
        let r0 = kinsert(t0, k, v);
        assert forall|i: int| 0 <= i < r.len() implies (#[trigger] r[i]).1.agent_id == r[i].0 by {
            if i > 0 {
                assert(r[i] == r0[i - 1]);
            }
        }
    }
}

proof fn lemma_specialists_fold_keyed(spec: WorkerSpec, base: Seq<(Seq<char>, AgentConfigV)>, s: Seq<crate::model::Specialist>)
    requires
        keyed_by_agent_id(base),
    ensures
        keyed_by_agent_id(specialists_fold(spec, base, s)),
    decreases s.len(),
{
    if s.len() > 0 {
        lemma_specialists_fold_keyed(spec, base, s.drop_last());
        let sp = s.last();
        lemma_kinsert_keyed(
            specialists_fold(spec, base, s.drop_last()),
            sp.name@,
            agent_config_spec(spec, sp.name@, sp.instructions@, sp.tools@, false),
        );
    }
}

/// Each agent's configuration names the agent it is stored under; a worker
/// that is not an agent graph with a graph has the one agent under its name,
/// prompted with the worker's instructions.
pub proof fn lemma_agent_configs_keyed(spec: WorkerSpec)
    ensures
        keyed_by_agent_id(agent_configs_spec(spec)),
        !(spec.kind == AgentKind::AgentGraph && spec.agent_graph is Some) ==> (agent_configs_spec(spec).len() == 1
            && agent_configs_spec(spec)[0].0 == spec.name@ && agent_configs_spec(spec)[0].1.system_prompt
            == spec.instructions@),
{
    match (spec.kind, spec.agent_graph) {
        (AgentKind::AgentGraph, Some(g)) => {
            let base = seq![(spec.name@, agent_config_spec(spec, spec.name@, g.coordinator.instructions@, spec.tools@, true))];
            assert(base[0].1.agent_id == base[0].0);
            lemma_specialists_fold_keyed(spec, base, g.specialists@);
        },
        _ => {
            let only = agent_configs_spec(spec);
            assert(only[0].1.agent_id == only[0].0);
        },
    }
}

/// Folding in specialists none of which is named `k` leaves the lookup of
/// `k` as it was.
proof fn lemma_specialists_fold_other(spec: WorkerSpec, base: Seq<(Seq<char>, AgentConfigV)>, s: Seq<crate::model::Specialist>, k: Seq<char>)
    requires
        forall|i: int| 0 <= i < s.len() ==> (#[trigger] s[i]).name@ != k,
    ensures
        kget(specialists_fold(spec, base, s), k) == kget(base, k),
    decreases s.len(),
{
    if s.len() > 0 {
        let t = s.drop_last();
        assert forall|i: int| 0 <= i < t.len() implies (#[trigger] t[i]).name@ != k by {
            assert(t[i] == s[i]);
        }
        lemma_specialists_fold_other(spec, base, t, k);
        let sp = s.last();
        assert(sp == s[s.len() - 1]);
        crate::ordered::lemma_kinsert_get(
            specialists_fold(spec, base, t),
            sp.name@,
            agent_config_spec(spec, sp.name@, sp.instructions@, sp.tools@, false),
            k,
        );
    }
}

/// The coordinator of an agent graph is the agent stored under the worker's
/// name: its configuration names that agent and is prompted with the
/// coordinator's instructions (where no specialist takes the worker's name,
/// which would replace it).
pub proof fn lemma_coordinator_config(spec: WorkerSpec)
    requires
        spec.kind == AgentKind::AgentGraph,
        spec.agent_graph is Some,
        forall|i: int| 0 <= i < spec.agent_graph->0.specialists@.len() ==> (#[trigger] spec.agent_graph->0.specialists@[i]).name@
            != spec.name@,
    ensures
        kget(agent_configs_spec(spec), spec.name@) matches Some(c) && c.agent_id == spec.name@ && c.system_prompt
            == spec.agent_graph->0.coordinator.instructions@,
{
    let g = spec.agent_graph->0;
    let base = seq![(spec.name@, agent_config_spec(spec, spec.name@, g.coordinator.instructions@, spec.tools@, true))];
    lemma_specialists_fold_other(spec, base, g.specialists@, spec.name@);
    assert(base[0].0 == spec.name@);
}

/// A specialist is the agent stored under its own name, prompted with its
/// own instructions: where it is the last specialist of that name and no
/// other agent shares it, the configuration stored under its name carries
/// its instructions.
pub proof fn lemma_specialist_config(spec: WorkerSpec, i: int)
    requires
        spec.kind == AgentKind::AgentGraph,
        spec.agent_graph is Some,
        0 <= i < spec.agent_graph->0.specialists@.len(),
        forall|j: int| i < j < spec.agent_graph->0.specialists@.len() ==> (#[trigger] spec.agent_graph->0.specialists@[j]).name@
            != spec.agent_graph->0.specialists@[i].name@,
    ensures
        ({
            let sp = spec.agent_graph->0.specialists@[i];
            kget(agent_configs_spec(spec), sp.name@) matches Some(c) && c.agent_id == sp.name@ && c.system_prompt
                == sp.instructions@
        }),
{
    let g = spec.agent_graph->0;
    let s = g.specialists@;
    let sp = s[i];
    let base = seq![(spec.name@, agent_config_spec(spec, spec.name@, g.coordinator.instructions@, spec.tools@, true))];
    let pre = s.take(i + 1);
    let post = s.skip(i + 1);
    assert(pre.last() == sp);
    lemma_specialists_fold_split(spec, base, pre, post);
    assert(pre + post =~= s);
    assert forall|j: int| 0 <= j < post.len() implies (#[trigger] post[j]).name@ != sp.name@ by {
        assert(post[j] == s[i + 1 + j]);
    }
    lemma_specialists_fold_other(spec, specialists_fold(spec, base, pre), post, sp.name@);
    assert(pre.drop_last() =~= s.take(i));
    crate::ordered::lemma_kinsert_get(
        specialists_fold(spec, base, pre.drop_last()),
        sp.name@,
        agent_config_spec(spec, sp.name@, sp.instructions@, sp.tools@, false),
        sp.name@,
    );
}

/// Folding in two runs of specialists is folding in the first, then the
/// second.
proof fn lemma_specialists_fold_split(spec: WorkerSpec, base: Seq<(Seq<char>, AgentConfigV)>, a: Seq<crate::model::Specialist>, b: Seq<crate::model::Specialist>)
    ensures
        specialists_fold(spec, base, a + b) == specialists_fold(spec, specialists_fold(spec, base, a), b),
    decreases b.len(),
{
    if b.len() == 0 {
        assert(a + b =~= a);
    } else {
        lemma_specialists_fold_split(spec, base, a, b.drop_last());
        assert((a + b).drop_last() =~= a + b.drop_last());
        assert((a + b).last() == b.last());
    }
}

/// Agent configurations keyed by agent id, kept in key order with each key
/// once (the shape of a `BTreeMap<String, AgentConfig>`).
pub struct AgentConfigs {
    entries: Vec<(String, AgentConfig)>,
}

impl AgentConfigs {
    #[verifier::type_invariant]
    spec fn sorted(self) -> bool {
        keys_sorted(kview(self.entries@))
    }

    /// The configurations by key, in key order.
    pub closed spec fn view_entries(self) -> Seq<(Seq<char>, AgentConfigV)> {
        config_views(kview(self.entries@))
    }

    /// No configurations.
    pub fn new() -> (r: AgentConfigs)
        ensures
            r.view_entries() == Seq::<(Seq<char>, AgentConfigV)>::empty(),
    {
        let r = AgentConfigs { entries: Vec::new() };
        assert(r.view_entries() =~= Seq::<(Seq<char>, AgentConfigV)>::empty());
        r
    }

    /// The number of configurations.
    pub fn len(&self) -> (r: usize)
        ensures
            r == self.view_entries().len(),
    {
        self.entries.len()
    }

    /// The configuration of `agent_id`, if there is one.
    pub fn get(&self, agent_id: &str) -> (r: Option<&AgentConfig>)
        ensures
            r matches Some(c) ==> kget(self.view_entries(), agent_id@) == Some(c@),
            r is None ==> kget(self.view_entries(), agent_id@) is None,
    {
        let r = sorted_get(&self.entries, agent_id);
        proof {
            lemma_kget_views(kview(self.entries@), agent_id@);
        }
        r
    }

    /// Whether `agent_id` has a configuration.
    pub fn contains_key(&self, agent_id: &str) -> (r: bool)
        ensures
            r == (kget(self.view_entries(), agent_id@) is Some),
    {
        self.get(agent_id).is_some()
    }

    /// The entries, in key order.
    pub fn entries(&self) -> (r: &[(String, AgentConfig)])
        ensures
            config_views(kview(r@)) == self.view_entries(),
    {
        self.entries.as_slice()
    }
}

proof fn lemma_kget_views(t: Seq<(Seq<char>, AgentConfig)>, k: Seq<char>)
    ensures
        kget(config_views(t), k) == match kget(t, k) {
            Some(c) => Some(c@),
            None => None,
        },
    decreases t.len(),
{
    if t.len() > 0 {
        lemma_kget_views(t.drop_first(), k);
        assert(config_views(t.drop_first()) =~= config_views(t).drop_first());
    }
}

/// Build one [`AgentConfig`] per agent in `spec`: `SingleTurn`/`DeepWorker`
/// yield one config keyed by `spec.name`; `AgentGraph` yields the
/// coordinator (keyed `spec.name`) plus one config per specialist (keyed
/// by the specialist's own `name`).
pub fn agent_configs(spec: &WorkerSpec) -> (r: AgentConfigs)
    ensures
        r.view_entries() == agent_configs_spec(*spec),
{
    let mut map: Vec<(String, AgentConfig)> = Vec::new();
    assert(keys_sorted(kview(map@)));
    match (&spec.kind, &spec.agent_graph) {
        (AgentKind::AgentGraph, Some(graph)) => {
            let c = build_agent_config(spec, &spec.name, &graph.coordinator.instructions, &spec.tools, true);
            let ghost cv = c@;
            sorted_insert(&mut map, spec.name.clone(), c);
            proof {
                lemma_kinsert_views(kview(Seq::<(String, AgentConfig)>::empty()), spec.name@, c);
                assert(kview(Seq::<(String, AgentConfig)>::empty()) =~= Seq::empty());
                assert(config_views(Seq::<(Seq<char>, AgentConfig)>::empty()) =~= Seq::empty());
            }
            let ghost base = config_views(kview(map@));
            assert(base =~= seq![(spec.name@, cv)]);
            let mut i: usize = 0;
            assert(graph.specialists@.take(0) =~= Seq::<crate::model::Specialist>::empty());
            while i < graph.specialists.len()
                invariant
                    0 <= i <= graph.specialists.len(),
                    keys_sorted(kview(map@)),
                    config_views(kview(map@)) == specialists_fold(*spec, base, graph.specialists@.take(i as int)),
                decreases graph.specialists.len() - i,
            {
                let sp = &graph.specialists[i];
                let c = build_agent_config(spec, &sp.name, &sp.instructions, &sp.tools, false);
                let ghost before = kview(map@);
                sorted_insert(&mut map, sp.name.clone(), c);
                proof {
                    lemma_kinsert_views(before, sp.name@, c);
                    assert(graph.specialists@.take(i + 1).drop_last() =~= graph.specialists@.take(i as int));
                    assert(graph.specialists@.take(i + 1).last() == *sp);
                }
                i = i + 1;
            }
            assert(graph.specialists@.take(graph.specialists.len() as int) =~= graph.specialists@);
        },
        _ => {
            let c = build_agent_config(spec, &spec.name, &spec.instructions, &spec.tools, true);
            sorted_insert(&mut map, spec.name.clone(), c);
            proof {
                lemma_kinsert_views(kview(Seq::<(String, AgentConfig)>::empty()), spec.name@, c);
                assert(kview(Seq::<(String, AgentConfig)>::empty()) =~= Seq::empty());
                assert(config_views(Seq::<(Seq<char>, AgentConfig)>::empty()) =~= Seq::empty());
            }
        },
    }
    AgentConfigs { entries: map }
}

} // verus!
