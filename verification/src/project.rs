//! Project a [`WorkerSpec`] into the untyped "answer document" JSON that the
//! pack assembler consumes: top-level `manifest_id` / `display_name` /
//! `manifest` (with nested `metadata`, `capability_plan`, `defaults`,
//! `behavior_scaffold`) / `provider_overrides` / `locale` / `tenant`, plus
//! optional `extension_tools` / `guardrails` / `executing_node`.
use vstd::prelude::*;
use crate::json::{Json, JsonV, has_key, obj_get, lemma_obj_get_only, entry_models, models, push_entry, push_item, json_object, json_array, json_str, json_opt_string, opt_str_model};
use crate::model::{AgentKind, DeepWorkerSpec, ExtensionToolBinding, GuardrailRefSpec, WorkerSpec};
use crate::ordered::{kinsert, keys_sorted, kkeys, kview, sorted_insert, lemma_kinsert_keys, lemma_kinsert_sorted};
use crate::slug::{slug_spec, slugify};
use crate::text::{decimal, decimal_string, is_blank, is_blank_exec};

verus! {

/// Errors produced while projecting a [`WorkerSpec`] into an answer
/// document. `MissingLlm` is kept for parity with the Designer's mapping
/// errors even though `WorkerSpec.llm` is not optional.
#[derive(Debug, Clone, Copy, PartialEq, Eq, Structural)]
pub enum ProjectError {
    MissingLlm,
}

impl ProjectError {
    /// The error's message.
    pub fn message(&self) -> (r: String)
        ensures
            r@ == "missing LLM binding \u{2014} at least one enabled provider with cap://llm/chat is required"@,
    {
        "missing LLM binding \u{2014} at least one enabled provider with cap://llm/chat is required".to_owned()
    }
}

pub open spec fn jstr(s: Seq<char>) -> JsonV {
    JsonV::JStr(s)
}

pub open spec fn empty_arr() -> JsonV {
    JsonV::JArr(Seq::empty())
}

/// A JSON array of strings.
pub open spec fn str_array(s: Seq<Seq<char>>) -> JsonV {
    JsonV::JArr(Seq::new(s.len(), |i: int| JsonV::JStr(s[i])))
}

pub open spec fn views_of(s: Seq<String>) -> Seq<Seq<char>> {
    Seq::new(s.len(), |i: int| s[i]@)
}

/// The JSON a deep-worker block is exchanged as (camelCase keys,
/// `planningModel` only when set).
pub open spec fn deep_worker_json(budget: u32, reflection: bool, delegation: bool, planning: Option<String>) -> JsonV {
    JsonV::JObj(
        seq![
            ("iterationBudget"@, JsonV::JNum(decimal(budget as nat))),
            ("reflection"@, JsonV::JBool(reflection)),
            ("delegation"@, JsonV::JBool(delegation)),
        ] + match planning {
            Some(p) => seq![("planningModel"@, JsonV::JStr(p@))],
            None => Seq::empty(),
        },
    )
}

/// The deep-worker block of `spec`, or the default block when it has none.
pub open spec fn deep_worker_or_default_json(spec: WorkerSpec) -> JsonV {
    match spec.deep_worker {
        Some(d) => deep_worker_json(d.iteration_budget, d.reflection, d.delegation, d.planning_model),
        None => deep_worker_json(8, false, false, None),
    }
}

/// The `executing_node` marker the runner reads to pick the flow node:
/// none for a single-turn worker.
pub open spec fn executing_node_spec(spec: WorkerSpec) -> Option<JsonV> {
    match spec.kind {
        AgentKind::SingleTurn => None,
        AgentKind::AgentGraph => Some(JsonV::JObj(seq![("kind"@, jstr("dw.agent_graph"@))])),
        AgentKind::DeepWorker => Some(
            JsonV::JObj(
                seq![
                    ("kind"@, jstr("operala.call"@)),
                    ("deep_worker"@, deep_worker_or_default_json(spec)),
                ],
            ),
        ),
    }
}

/// The JSON of a deep-worker block.
pub fn deep_worker_to_json(d: &DeepWorkerSpec) -> (r: Json)
    ensures
        r@ == deep_worker_json(d.iteration_budget, d.reflection, d.delegation, d.planning_model),
{
    let mut v: Vec<(String, Json)> = Vec::new();
    assert(entry_models(v@) =~= Seq::empty());
    push_entry(&mut v, "iterationBudget", Json::Number(decimal_string(d.iteration_budget as u64)));
    push_entry(&mut v, "reflection", Json::Bool(d.reflection));
    push_entry(&mut v, "delegation", Json::Bool(d.delegation));
    let ghost base = entry_models(v@);
    assert(base =~= seq![
            ("iterationBudget"@, JsonV::JNum(decimal(d.iteration_budget as nat))),
            ("reflection"@, JsonV::JBool(d.reflection)),
            ("delegation"@, JsonV::JBool(d.delegation)),
        ]);
    match &d.planning_model {
        Some(p) => {
            push_entry(&mut v, "planningModel", Json::Str(p.clone()));
        },
        None => {},
    }
    proof {
        assert(entry_models(v@) =~= base + match d.planning_model {
            Some(p) => seq![("planningModel"@, JsonV::JStr(p@))],
            None => Seq::empty(),
        });
    }
    json_object(v)
}

/// Map the worker's [`AgentKind`] onto the `executing_node` marker the
/// runner reads to pick the right flow node. `SingleTurn` needs no special
/// node, so it maps to `None`.
pub fn executing_node(spec: &WorkerSpec) -> (r: Option<Json>)
    ensures
        r is None <==> executing_node_spec(*spec) is None,
        r matches Some(j) ==> executing_node_spec(*spec) == Some(j@),
{
    match spec.kind {
        AgentKind::SingleTurn => None,
        AgentKind::AgentGraph => {
            let mut v: Vec<(String, Json)> = Vec::new();
            assert(entry_models(v@) =~= Seq::empty());
            push_entry(&mut v, "kind", json_str("dw.agent_graph"));
            assert(entry_models(v@) =~= seq![("kind"@, jstr("dw.agent_graph"@))]);
            Some(json_object(v))
        },
        AgentKind::DeepWorker => {
            let dw = match &spec.deep_worker {
                Some(d) => deep_worker_to_json(d),
                None => deep_worker_to_json(&DeepWorkerSpec::default()),
            };
            let mut v: Vec<(String, Json)> = Vec::new();
            assert(entry_models(v@) =~= Seq::empty());
            push_entry(&mut v, "kind", json_str("operala.call"));
            push_entry(&mut v, "deep_worker", dw);
            assert(entry_models(v@) =~= seq![
                    ("kind"@, jstr("operala.call"@)),
                    ("deep_worker"@, deep_worker_or_default_json(*spec)),
                ]);
            Some(json_object(v))
        },
    }
}


/// The capability set fold: each capability inserted into a sorted,
/// duplicate-free list.
pub open spec fn cap_fold(s: Seq<Seq<char>>) -> Seq<(Seq<char>, ())>
    decreases s.len(),
{
    if s.len() == 0 {
        Seq::empty()
    } else {
        kinsert(cap_fold(s.drop_last()), s.last(), ())
    }
}

pub open spec fn fold_keys(t: Seq<(Seq<char>, ())>) -> Seq<Seq<char>> {
    Seq::new(t.len(), |i: int| t[i].0)
}

/// `tools` plus `cap://llm/chat`, sorted and deduplicated.
pub open spec fn caps_of(spec: WorkerSpec) -> Seq<Seq<char>> {
    fold_keys(cap_fold(views_of(spec.tools@).push("cap://llm/chat"@)))
}

/// The capability list is strictly increasing and holds exactly the
/// listed capabilities.
pub proof fn lemma_cap_fold(s: Seq<Seq<char>>)
    ensures
        keys_sorted(cap_fold(s)),
        kkeys(cap_fold(s)) == s.to_set(),
    decreases s.len(),
{
    if s.len() > 0 {
        lemma_cap_fold(s.drop_last());
        lemma_kinsert_sorted(cap_fold(s.drop_last()), s.last(), ());
        lemma_kinsert_keys(cap_fold(s.drop_last()), s.last(), ());
        assert(s.to_set() =~= s.drop_last().to_set().insert(s.last())) by {
            assert forall|x: Seq<char>| s.to_set().contains(x) implies s.drop_last().to_set().insert(
                s.last(),
            ).contains(x) by {
                let i = choose|i: int| 0 <= i < s.len() && s[i] == x;
                if i < s.len() - 1 {
                    assert(s.drop_last()[i] == x);
                }
            }
            assert forall|x: Seq<char>| s.drop_last().to_set().insert(s.last()).contains(
                x,
            ) implies s.to_set().contains(x) by {
                if x != s.last() {
                    let i = choose|i: int| 0 <= i < s.drop_last().len() && s.drop_last()[i] == x;
                    assert(s[i] == x);
                }
            }
        }
    } else {
        assert(s.to_set() =~= Set::empty());
        assert(kkeys(cap_fold(s)) =~= Set::empty());
    }
}

/// The required capabilities of `spec`: its tools and `cap://llm/chat`,
/// in `String` order, each once.
pub fn required_capabilities(spec: &WorkerSpec) -> (r: Vec<String>)
    ensures
        views_of(r@) == caps_of(*spec),
{
    let mut t: Vec<(String, ())> = Vec::new();
    let ghost tools = views_of(spec.tools@);
    assert(kview(t@) =~= cap_fold(tools.take(0)));
    let mut i: usize = 0;
    while i < spec.tools.len()
        invariant
            0 <= i <= spec.tools.len(),
            tools == views_of(spec.tools@),
            kview(t@) == cap_fold(tools.take(i as int)),
            keys_sorted(kview(t@)),
        decreases spec.tools.len() - i,
    {
        proof {
            lemma_cap_fold(tools.take(i as int));
            assert(tools.take(i + 1).drop_last() =~= tools.take(i as int));
        }
        sorted_insert(&mut t, spec.tools[i].clone(), ());
        i = i + 1;
    }
    assert(tools.take(spec.tools.len() as int) =~= tools);
    sorted_insert(&mut t, "cap://llm/chat".to_owned(), ());
    assert(tools.push("cap://llm/chat"@).drop_last() =~= tools);
    let mut r: Vec<String> = Vec::new();
    let mut j: usize = 0;
    while j < t.len()
        invariant
            0 <= j <= t.len(),
            views_of(r@) =~= fold_keys(kview(t@)).take(j as int),
        decreases t.len() - j,
    {
        let ghost before = views_of(r@);
        let k = t[j].0.clone();
        r.push(k);
        assert(views_of(r@) =~= before.push(k@));
        assert(fold_keys(kview(t@)).take(j + 1) =~= fold_keys(kview(t@)).take(j as int).push(t@[j as int].0@));
        j = j + 1;
    }
    assert(fold_keys(kview(t@)).take(t.len() as int) =~= fold_keys(kview(t@)));
    r
}

/// A JSON array of the given strings.
pub fn str_array_json(v: &Vec<String>) -> (r: Json)
    ensures
        r@ == str_array(views_of(v@)),
{
    let mut out: Vec<Json> = Vec::new();
    let mut i: usize = 0;
    while i < v.len()
        invariant
            0 <= i <= v.len(),
            models(out@) =~= str_array(views_of(v@))->JArr_0.take(i as int),
        decreases v.len() - i,
    {
        push_item(&mut out, Json::Str(v[i].clone()));
        assert(models(out@) =~= str_array(views_of(v@))->JArr_0.take(i + 1));
        i = i + 1;
    }
    assert(str_array(views_of(v@))->JArr_0.take(v.len() as int) =~= str_array(views_of(v@))->JArr_0);
    json_array(out)
}

/// The worker's display name: its name, or `Agentic Worker` when empty.
pub open spec fn display_name_of(spec: WorkerSpec) -> Seq<char> {
    if spec.name@.len() == 0 {
        "Agentic Worker"@
    } else {
        spec.name@
    }
}

/// The worker's display name.
pub fn display_name(spec: &WorkerSpec) -> (r: String)
    ensures
        r@ == display_name_of(*spec),
{
    if spec.name.as_str().is_empty() {
        "Agentic Worker".to_owned()
    } else {
        spec.name.clone()
    }
}

/// `slug(spec.name)`, or `dw-application` when the slug is empty.
pub open spec fn manifest_id_of(spec: WorkerSpec) -> Seq<char> {
    if slug_spec(spec.name@).len() > 0 {
        slug_spec(spec.name@)
    } else {
        "dw-application"@
    }
}

/// The worker's manifest id.
pub fn resolve_manifest_id(spec: &WorkerSpec) -> (r: String)
    ensures
        r@ == manifest_id_of(*spec),
{
    let slug = slugify(spec.name.as_str());
    if !slug.as_str().is_empty() {
        return slug;
    }
    "dw-application".to_owned()
}

/// An entry holding the string when it is present, nothing otherwise.
pub open spec fn opt_entry(k: Seq<char>, o: Option<String>) -> Seq<(Seq<char>, JsonV)> {
    match o {
        Some(x) => seq![(k, jstr(x@))],
        None => Seq::empty(),
    }
}

/// The usage note entry: present when the note is present and not blank.
pub open spec fn usage_entry(o: Option<String>) -> Seq<(Seq<char>, JsonV)> {
    match o {
        Some(n) => if is_blank(n@) {
            Seq::empty()
        } else {
            seq![("usage_note"@, jstr(n@))]
        },
        None => Seq::empty(),
    }
}

/// The `defaults.values` object.
pub open spec fn defaults_values_spec(spec: WorkerSpec) -> JsonV {
    JsonV::JObj(
        seq![("display_name"@, jstr(display_name_of(spec)))] + opt_entry("worker_default_locale"@, spec.locale) + seq![("system_prompt"@, jstr(spec.instructions@))] + opt_entry("opening_message"@, spec.opening_message),
    )
}

fn build_defaults_values(spec: &WorkerSpec, display_name: &str) -> (r: Json)
    requires
        display_name@ == display_name_of(*spec),
    ensures
        r@ == defaults_values_spec(*spec),
{
    let mut v: Vec<(String, Json)> = Vec::new();
    assert(entry_models(v@) =~= Seq::empty());
    push_entry(&mut v, "display_name", json_str(display_name));
    let ghost e1 = entry_models(v@);
    match &spec.locale {
        Some(l) => push_entry(&mut v, "worker_default_locale", Json::Str(l.clone())),
        None => {},
    }
    let ghost p1 = opt_entry("worker_default_locale"@, spec.locale);
    assert(entry_models(v@) =~= e1 + p1);
    push_entry(&mut v, "system_prompt", Json::Str(spec.instructions.clone()));
    let ghost e2 = entry_models(v@);
    match &spec.opening_message {
        Some(o) => push_entry(&mut v, "opening_message", Json::Str(o.clone())),
        None => {},
    }
    let ghost p2 = opt_entry("opening_message"@, spec.opening_message);
    assert(entry_models(v@) =~= e2 + p2);
    assert(entry_models(v@) =~= defaults_values_spec(*spec)->JObj_0);
    json_object(v)
}

/// The `ExtensionTool` document of one binding.
pub open spec fn extension_tool_doc(b: ExtensionToolBinding) -> JsonV {
    JsonV::JObj(
        seq![
            ("extension_id"@, jstr(b.extension_id@)),
            ("extension_version"@, jstr(b.extension_version@)),
            ("tool_name"@, jstr(b.tool_name@)),
            ("description"@, jstr(b.description@)),
            ("input_schema_json"@, jstr(b.input_schema_json@)),
        ] + opt_entry("output_schema_json"@, b.output_schema_json) + seq![
            ("capabilities"@, str_array(views_of(b.capabilities@))),
            ("agentic_worker_metadata"@, b.agentic_worker_metadata@),
        ] + usage_entry(b.usage_note),
    )
}

/// Serialize one [`ExtensionToolBinding`] into the snake_case
/// `ExtensionTool` shape; a blank usage note is left out.
pub fn extension_tool_to_doc(b: &ExtensionToolBinding) -> (r: Json)
    ensures
        r@ == extension_tool_doc(*b),
{
    let mut m: Vec<(String, Json)> = Vec::new();
    assert(entry_models(m@) =~= Seq::empty());
    push_entry(&mut m, "extension_id", Json::Str(b.extension_id.clone()));
    push_entry(&mut m, "extension_version", Json::Str(b.extension_version.clone()));
    push_entry(&mut m, "tool_name", Json::Str(b.tool_name.clone()));
    push_entry(&mut m, "description", Json::Str(b.description.clone()));
    push_entry(&mut m, "input_schema_json", Json::Str(b.input_schema_json.clone()));
    let ghost e1 = entry_models(m@);
    match &b.output_schema_json {
        Some(o) => push_entry(&mut m, "output_schema_json", Json::Str(o.clone())),
        None => {},
    }
    let ghost p1 = opt_entry("output_schema_json"@, b.output_schema_json);
    assert(entry_models(m@) =~= e1 + p1);
    push_entry(&mut m, "capabilities", str_array_json(&b.capabilities));
    push_entry(&mut m, "agentic_worker_metadata", b.agentic_worker_metadata.copy());
    let ghost e2 = entry_models(m@);
    match &b.usage_note {
        Some(n) => {
            if !is_blank_exec(n.as_str()) {
                push_entry(&mut m, "usage_note", Json::Str(n.clone()));
            }
        },
        None => {},
    }
    let ghost p2 = usage_entry(b.usage_note);
    assert(entry_models(m@) =~= e2 + p2);
    assert(entry_models(m@) =~= extension_tool_doc(*b)->JObj_0);
    json_object(m)
}

/// The runner's `GuardrailRef` shape of one guardrail: `cap_id` and
/// `config` (`null` for a bare capability id).
pub open spec fn guardrail_doc(g: GuardrailRefSpec) -> JsonV {
    JsonV::JObj(seq![("cap_id"@, jstr(g.cap_id_spec())), ("config"@, g.config_spec())])
}

/// A guardrail as the answer document carries it: `{cap_id, config}`.
pub fn guardrail_to_doc(g: &GuardrailRefSpec) -> (r: Json)
    ensures
        r@ == guardrail_doc(*g),
{
    let mut m: Vec<(String, Json)> = Vec::new();
    assert(entry_models(m@) =~= Seq::empty());
    push_entry(&mut m, "cap_id", json_str(g.cap_id()));
    push_entry(&mut m, "config", g.config());
    assert(entry_models(m@) =~= guardrail_doc(*g)->JObj_0);
    json_object(m)
}

/// The `manifest` object of the answer document.
pub open spec fn manifest_spec(spec: WorkerSpec) -> JsonV {
    JsonV::JObj(
        seq![
            ("metadata"@, JsonV::JObj(seq![
                ("id"@, jstr(manifest_id_of(spec))),
                ("name"@, jstr(display_name_of(spec))),
                ("summary"@, opt_str_model(spec.description)),
                ("category"@, opt_str_model(spec.vertical)),
                ("tags"@, empty_arr()),
                ("maturity"@, jstr("experimental"@)),
            ])),
            ("capability_plan"@, JsonV::JObj(seq![
                ("required_capabilities"@, str_array(caps_of(spec))),
                ("optional_capabilities"@, empty_arr()),
                ("default_provider_ids"@, JsonV::JObj(seq![("cap://llm/chat"@, jstr(spec.llm.provider@))])),
            ])),
            ("defaults"@, JsonV::JObj(seq![("values"@, defaults_values_spec(spec))])),
            ("behavior_scaffold"@, JsonV::JObj(seq![
                ("default_mode_behavior"@, JsonV::JObj(seq![("question_block_ids"@, empty_arr())])),
            ])),
        ],
    )
}

/// The answer document of `spec`.
pub open spec fn answer_document_spec(spec: WorkerSpec) -> JsonV {
    JsonV::JObj(
        seq![
            ("manifest_id"@, jstr(manifest_id_of(spec))),
            ("display_name"@, jstr(display_name_of(spec))),
            ("manifest"@, manifest_spec(spec)),
            ("provider_overrides"@, JsonV::JObj(seq![("cap://llm/chat"@, jstr(spec.llm.provider@))])),
            ("locale"@, opt_str_model(spec.locale)),
            ("tenant"@, opt_str_model(spec.tenant)),
        ] + (if spec.extension_tools@.len() > 0 {
            seq![("extension_tools"@, JsonV::JArr(Seq::new(spec.extension_tools@.len(), |i: int| extension_tool_doc(spec.extension_tools@[i]))))]
        } else {
            Seq::empty()
        }) + (if spec.guardrails@.len() > 0 {
            seq![("guardrails"@, JsonV::JArr(Seq::new(spec.guardrails@.len(), |i: int| guardrail_doc(spec.guardrails@[i]))))]
        } else {
            Seq::empty()
        }) + match executing_node_spec(spec) {
            Some(n) => seq![("executing_node"@, n)],
            None => Seq::empty(),
        },
    )
}

/// The answer document carries `executing_node` exactly when the worker
/// has an executing node, holding it; `extension_tools` exactly when the
/// worker binds extension tools; `guardrails` exactly when it lists
/// guardrails.
pub proof fn lemma_answer_document_keys(spec: WorkerSpec)
    ensures
        ({
            let e = answer_document_spec(spec)->JObj_0;
            &&& obj_get(e, "executing_node"@) == executing_node_spec(spec)
            &&& has_key(e, "extension_tools"@) <==> spec.extension_tools@.len() > 0
            &&& has_key(e, "guardrails"@) <==> spec.guardrails@.len() > 0
        }),
{
    reveal_strlit("manifest_id");
    reveal_strlit("display_name");
    reveal_strlit("manifest");
    reveal_strlit("provider_overrides");
    reveal_strlit("locale");
    reveal_strlit("tenant");
    reveal_strlit("extension_tools");
    reveal_strlit("guardrails");
    reveal_strlit("executing_node");
    let e = answer_document_spec(spec)->JObj_0;
    let base = seq![
        ("manifest_id"@, jstr(manifest_id_of(spec))),
        ("display_name"@, jstr(display_name_of(spec))),
        ("manifest"@, manifest_spec(spec)),
        ("provider_overrides"@, JsonV::JObj(seq![("cap://llm/chat"@, jstr(spec.llm.provider@))])),
        ("locale"@, opt_str_model(spec.locale)),
        ("tenant"@, opt_str_model(spec.tenant)),
    ];
    let ext = if spec.extension_tools@.len() > 0 {
        seq![("extension_tools"@, JsonV::JArr(Seq::new(spec.extension_tools@.len(), |i: int| extension_tool_doc(spec.extension_tools@[i]))))]
    } else {
        Seq::empty()
    };
    let gr = if spec.guardrails@.len() > 0 {
        seq![("guardrails"@, JsonV::JArr(Seq::new(spec.guardrails@.len(), |i: int| guardrail_doc(spec.guardrails@[i]))))]
    } else {
        Seq::empty()
    };
    let ex = match executing_node_spec(spec) {
        Some(n) => seq![("executing_node"@, n)],
        None => Seq::empty(),
    };
    assert(e =~= base + ext + gr + ex);
    let b = base.len() as int;
    assert forall|j: int| 0 <= j < e.len() implies {
        let l = (#[trigger] e[j]).0.len();
        ||| (j < b && l != 15 && l != 10 && l != 14)
        ||| (b <= j < b + ext.len() && e[j].0 == "extension_tools"@)
        ||| (b + ext.len() <= j < b + ext.len() + gr.len() && e[j].0 == "guardrails"@)
        ||| (b + ext.len() + gr.len() <= j && e[j].0 == "executing_node"@)
    } by {
        if j < b {
            assert(e[j] == base[j]);
        } else if j < b + ext.len() {
            assert(e[j] == ext[j - b]);
        } else if j < b + ext.len() + gr.len() {
            assert(e[j] == gr[j - b - ext.len()]);
        } else {
            assert(e[j] == ex[j - b - ext.len() - gr.len()]);
        }
    }
    if ex.len() > 0 {
        let i = b + ext.len() + gr.len();
        assert(e[i] == ex[0]);
        lemma_obj_get_only(e, "executing_node"@, i);
    } else {
        assert forall|j: int| 0 <= j < e.len() implies (#[trigger] e[j]).0 != "executing_node"@ by {
            assert("executing_node"@.len() == 14);
            assert("extension_tools"@.len() == 15);
            assert("guardrails"@.len() == 10);
        }
    }
    if ext.len() > 0 {
        assert(e[b] == ext[0]);
    } else {
        assert forall|j: int| 0 <= j < e.len() implies (#[trigger] e[j]).0 != "extension_tools"@ by {
            assert("executing_node"@.len() == 14);
            assert("extension_tools"@.len() == 15);
            assert("guardrails"@.len() == 10);
        }
    }
    if gr.len() > 0 {
        assert(e[b + ext.len()] == gr[0]);
    } else {
        assert(!has_key(e, "guardrails"@));
    }
}

/// The deep-worker JSON carries each field of the block under its own key:
/// the budget under `iterationBudget`, `reflection` under `reflection`,
/// `delegation` under `delegation`, and the planning model, when set,
/// under `planningModel`.
pub proof fn lemma_deep_worker_json_fields(d: DeepWorkerSpec)
    ensures
        ({
            let e = deep_worker_json(d.iteration_budget, d.reflection, d.delegation, d.planning_model)->JObj_0;
            &&& obj_get(e, "iterationBudget"@) == Some(JsonV::JNum(decimal(d.iteration_budget as nat)))
            &&& obj_get(e, "reflection"@) == Some(JsonV::JBool(d.reflection))
            &&& obj_get(e, "delegation"@) == Some(JsonV::JBool(d.delegation))
            &&& obj_get(e, "planningModel"@) == match d.planning_model {
                Some(p) => Some(JsonV::JStr(p@)),
                None => None::<JsonV>,
            }
        }),
{
    lemma_deep_worker_fields_of(d.iteration_budget, d.reflection, d.delegation, d.planning_model);
}

/// The deep-worker JSON of given field values carries each under its key.
pub proof fn lemma_deep_worker_fields_of(budget: u32, reflection: bool, delegation: bool, planning: Option<String>)
    ensures
        ({
            let e = deep_worker_json(budget, reflection, delegation, planning)->JObj_0;
            &&& obj_get(e, "iterationBudget"@) == Some(JsonV::JNum(decimal(budget as nat)))
            &&& obj_get(e, "reflection"@) == Some(JsonV::JBool(reflection))
            &&& obj_get(e, "delegation"@) == Some(JsonV::JBool(delegation))
            &&& obj_get(e, "planningModel"@) == match planning {
                Some(p) => Some(JsonV::JStr(p@)),
                None => None::<JsonV>,
            }
        }),
{
    reveal_strlit("iterationBudget");
    reveal_strlit("reflection");
    reveal_strlit("delegation");
    reveal_strlit("planningModel");
    let e = deep_worker_json(budget, reflection, delegation, planning)->JObj_0;
    assert("reflection"@ != "delegation"@) by {
        assert("reflection"@[0] != "delegation"@[0]);
    }
    assert("iterationBudget"@.len() == 15 && "planningModel"@.len() == 13 && "reflection"@.len() == 10);
    assert(e[0].0 == "iterationBudget"@ && e[1].0 == "reflection"@ && e[2].0 == "delegation"@);
    assert(forall|j: int| 3 <= j < e.len() ==> (#[trigger] e[j]).0 == "planningModel"@);
    lemma_obj_get_only(e, "iterationBudget"@, 0);
    lemma_obj_get_only(e, "reflection"@, 1);
    lemma_obj_get_only(e, "delegation"@, 2);
    if planning is Some {
        lemma_obj_get_only(e, "planningModel"@, 3);
    } else {
        assert(!has_key(e, "planningModel"@));
    }
}

/// A deep worker's executing node is an `operala.call` marker carrying the
/// worker's deep-worker block: its reflection and delegation flags are the
/// block's own (both off for a worker without a block).
pub proof fn lemma_executing_node_deep_worker(spec: WorkerSpec)
    requires
        spec.kind == AgentKind::DeepWorker,
    ensures
        ({
            let node = executing_node_spec(spec);
            let n = node->Some_0->JObj_0;
            let dw = obj_get(n, "deep_worker"@)->Some_0->JObj_0;
            let (reflection, delegation) = match spec.deep_worker {
                Some(d) => (d.reflection, d.delegation),
                None => (false, false),
            };
            &&& node is Some && node->Some_0 is JObj
            &&& obj_get(n, "kind"@) == Some(jstr("operala.call"@))
            &&& obj_get(n, "deep_worker"@) is Some && obj_get(n, "deep_worker"@)->Some_0 is JObj
            &&& obj_get(dw, "reflection"@) == Some(JsonV::JBool(reflection))
            &&& obj_get(dw, "delegation"@) == Some(JsonV::JBool(delegation))
        }),
{
    reveal_strlit("kind");
    reveal_strlit("deep_worker");
    let n = executing_node_spec(spec)->Some_0->JObj_0;
    assert(n[0].0 == "kind"@ && n[1].0 == "deep_worker"@);
    assert("kind"@.len() != "deep_worker"@.len());
    lemma_obj_get_only(n, "kind"@, 0);
    lemma_obj_get_only(n, "deep_worker"@, 1);
    match spec.deep_worker {
        Some(d) => lemma_deep_worker_fields_of(d.iteration_budget, d.reflection, d.delegation, d.planning_model),
        None => lemma_deep_worker_fields_of(8, false, false, None),
    }
}

/// The manifest's default provider for `cap://llm/chat` is the worker's LLM
/// provider, the same binding the answer document's `provider_overrides`
/// carries.
pub proof fn lemma_answer_document_provider(spec: WorkerSpec)
    ensures
        ({
            let e = answer_document_spec(spec)->JObj_0;
            let po = obj_get(e, "provider_overrides"@);
            let m = obj_get(e, "manifest"@);
            let cp = obj_get(m->Some_0->JObj_0, "capability_plan"@);
            let dp = obj_get(cp->Some_0->JObj_0, "default_provider_ids"@);
            &&& po is Some && po->Some_0 is JObj
            &&& obj_get(po->Some_0->JObj_0, "cap://llm/chat"@) == Some(JsonV::JStr(spec.llm.provider@))
            &&& m is Some && m->Some_0 is JObj
            &&& cp is Some && cp->Some_0 is JObj
            &&& dp is Some && dp->Some_0 is JObj
            &&& obj_get(dp->Some_0->JObj_0, "cap://llm/chat"@) == Some(JsonV::JStr(spec.llm.provider@))
        }),
{
    reveal_strlit("manifest_id");
    reveal_strlit("display_name");
    reveal_strlit("manifest");
    reveal_strlit("provider_overrides");
    reveal_strlit("locale");
    reveal_strlit("tenant");
    reveal_strlit("extension_tools");
    reveal_strlit("guardrails");
    reveal_strlit("executing_node");
    reveal_strlit("metadata");
    reveal_strlit("capability_plan");
    reveal_strlit("defaults");
    reveal_strlit("behavior_scaffold");
    reveal_strlit("required_capabilities");
    reveal_strlit("optional_capabilities");
    reveal_strlit("default_provider_ids");
    let e = answer_document_spec(spec)->JObj_0;
    let base = seq![
        ("manifest_id"@, jstr(manifest_id_of(spec))),
        ("display_name"@, jstr(display_name_of(spec))),
        ("manifest"@, manifest_spec(spec)),
        ("provider_overrides"@, JsonV::JObj(seq![("cap://llm/chat"@, jstr(spec.llm.provider@))])),
        ("locale"@, opt_str_model(spec.locale)),
        ("tenant"@, opt_str_model(spec.tenant)),
    ];
    let ext = if spec.extension_tools@.len() > 0 {
        seq![("extension_tools"@, JsonV::JArr(Seq::new(spec.extension_tools@.len(), |i: int| extension_tool_doc(spec.extension_tools@[i]))))]
    } else {
        Seq::empty()
    };
    let gr = if spec.guardrails@.len() > 0 {
        seq![("guardrails"@, JsonV::JArr(Seq::new(spec.guardrails@.len(), |i: int| guardrail_doc(spec.guardrails@[i]))))]
    } else {
        Seq::empty()
    };
    let ex = match executing_node_spec(spec) {
        Some(n) => seq![("executing_node"@, n)],
        None => Seq::empty(),
    };
    assert(e =~= base + ext + gr + ex);
    let b = base.len() as int;
    assert forall|j: int| 0 <= j < e.len() implies {
        let l = (#[trigger] e[j]).0.len();
        ||| (j == 2 && e[j].0 == "manifest"@)
        ||| (j == 3 && e[j].0 == "provider_overrides"@)
        ||| (j != 2 && j != 3 && l != 8 && l != 18)
    } by {
        if j < b {
            assert(e[j] == base[j]);
        } else if j < b + ext.len() {
            assert(e[j] == ext[j - b]);
        } else if j < b + ext.len() + gr.len() {
            assert(e[j] == gr[j - b - ext.len()]);
        } else {
            assert(e[j] == ex[j - b - ext.len() - gr.len()]);
        }
    }
    assert(e[2] == base[2] && e[3] == base[3]);
    assert forall|j: int| 0 <= j < e.len() && j != 2 implies (#[trigger] e[j]).0 != "manifest"@ by {
        assert("manifest"@.len() == 8);
    }
    assert forall|j: int| 0 <= j < e.len() && j != 3 implies (#[trigger] e[j]).0 != "provider_overrides"@ by {
        assert("provider_overrides"@.len() == 18);
    }
    lemma_obj_get_only(e, "manifest"@, 2);
    lemma_obj_get_only(e, "provider_overrides"@, 3);
    let po = seq![("cap://llm/chat"@, jstr(spec.llm.provider@))];
    lemma_obj_get_only(po, "cap://llm/chat"@, 0);
    let m = manifest_spec(spec)->JObj_0;
    assert(m[0].0.len() == 8 && m[1].0 == "capability_plan"@ && m[2].0.len() == 8 && m[3].0.len() == 17);
    assert("capability_plan"@.len() == 15);
    lemma_obj_get_only(m, "capability_plan"@, 1);
    let cp = m[1].1->JObj_0;
    assert(cp[0].0.len() == 21 && cp[1].0.len() == 21 && cp[2].0 == "default_provider_ids"@);
    assert("default_provider_ids"@.len() == 20);
    lemma_obj_get_only(cp, "default_provider_ids"@, 2);
    let dp = cp[2].1->JObj_0;
    lemma_obj_get_only(dp, "cap://llm/chat"@, 0);
}

fn empty_array() -> (r: Json)
    ensures
        r@ == empty_arr(),
{
    let v: Vec<Json> = Vec::new();
    assert(models(v@) =~= Seq::empty());
    json_array(v)
}

fn single_entry(k: &str, x: Json) -> (r: Json)
    ensures
        r@ == JsonV::JObj(seq![(k@, x@)]),
{
    let mut m: Vec<(String, Json)> = Vec::new();
    assert(entry_models(m@) =~= Seq::empty());
    push_entry(&mut m, k, x);
    assert(entry_models(m@) =~= seq![(k@, x@)]);
    json_object(m)
}

fn build_manifest(spec: &WorkerSpec, manifest_id: &str, display_name: &str) -> (r: Json)
    requires
        manifest_id@ == manifest_id_of(*spec),
        display_name@ == display_name_of(*spec),
    ensures
        r@ == manifest_spec(*spec),
{
    let mut meta: Vec<(String, Json)> = Vec::new();
    assert(entry_models(meta@) =~= Seq::empty());
    push_entry(&mut meta, "id", json_str(manifest_id));
    push_entry(&mut meta, "name", json_str(display_name));
    push_entry(&mut meta, "summary", json_opt_string(&spec.description));
    push_entry(&mut meta, "category", json_opt_string(&spec.vertical));
    push_entry(&mut meta, "tags", empty_array());
    push_entry(&mut meta, "maturity", json_str("experimental"));
    assert(entry_models(meta@) =~= manifest_spec(*spec)->JObj_0[0].1->JObj_0);
    let caps = required_capabilities(spec);
    let mut plan: Vec<(String, Json)> = Vec::new();
    assert(entry_models(plan@) =~= Seq::empty());
    push_entry(&mut plan, "required_capabilities", str_array_json(&caps));
    push_entry(&mut plan, "optional_capabilities", empty_array());
    push_entry(&mut plan, "default_provider_ids", single_entry("cap://llm/chat", Json::Str(spec.llm.provider.clone())));
    assert(entry_models(plan@) =~= manifest_spec(*spec)->JObj_0[1].1->JObj_0);
    let mut m: Vec<(String, Json)> = Vec::new();
    assert(entry_models(m@) =~= Seq::empty());
    push_entry(&mut m, "metadata", json_object(meta));
    push_entry(&mut m, "capability_plan", json_object(plan));
    push_entry(&mut m, "defaults", single_entry("values", build_defaults_values(spec, display_name)));
    push_entry(&mut m, "behavior_scaffold", single_entry("default_mode_behavior", single_entry("question_block_ids", empty_array())));
    assert(entry_models(m@) =~= manifest_spec(*spec)->JObj_0);
    json_object(m)
}

/// Convert a [`WorkerSpec`] into the AnswerDocument JSON the pack builder
/// expects.
pub fn to_answer_document(spec: &WorkerSpec) -> (r: Result<Json, ProjectError>)
    ensures
        r matches Ok(doc) && doc@ == answer_document_spec(*spec),
{
    let manifest_id = resolve_manifest_id(spec);
    let display_name = display_name(spec);
    let mut doc: Vec<(String, Json)> = Vec::new();
    assert(entry_models(doc@) =~= Seq::empty());
    push_entry(&mut doc, "manifest_id", json_str(manifest_id.as_str()));
    push_entry(&mut doc, "display_name", json_str(display_name.as_str()));
    push_entry(&mut doc, "manifest", build_manifest(spec, manifest_id.as_str(), display_name.as_str()));
    push_entry(&mut doc, "provider_overrides", single_entry("cap://llm/chat", Json::Str(spec.llm.provider.clone())));
    push_entry(&mut doc, "locale", json_opt_string(&spec.locale));
    push_entry(&mut doc, "tenant", json_opt_string(&spec.tenant));
    let ghost e1 = entry_models(doc@);
    if spec.extension_tools.len() > 0 {
        let mut tools: Vec<Json> = Vec::new();
        let mut i: usize = 0;
        while i < spec.extension_tools.len()
            invariant
                0 <= i <= spec.extension_tools.len(),
                models(tools@) =~= Seq::new(spec.extension_tools@.len(), |i: int| extension_tool_doc(spec.extension_tools@[i])).take(i as int),
            decreases spec.extension_tools.len() - i,
        {
            push_item(&mut tools, extension_tool_to_doc(&spec.extension_tools[i]));
            assert(models(tools@) =~= Seq::new(spec.extension_tools@.len(), |i: int| extension_tool_doc(spec.extension_tools@[i])).take(i + 1));
            i = i + 1;
        }
        assert(models(tools@) =~= Seq::new(spec.extension_tools@.len(), |i: int| extension_tool_doc(spec.extension_tools@[i])));
        push_entry(&mut doc, "extension_tools", json_array(tools));
    }
    let ghost p1 = if spec.extension_tools@.len() > 0 {
        seq![("extension_tools"@, JsonV::JArr(Seq::new(spec.extension_tools@.len(), |i: int| extension_tool_doc(spec.extension_tools@[i]))))]
    } else {
        Seq::empty()
    };
    assert(entry_models(doc@) =~= e1 + p1);
    let ghost e2 = entry_models(doc@);
    if spec.guardrails.len() > 0 {
        let mut gs: Vec<Json> = Vec::new();
        let mut i: usize = 0;
        while i < spec.guardrails.len()
            invariant
                0 <= i <= spec.guardrails.len(),
                models(gs@) =~= Seq::new(spec.guardrails@.len(), |i: int| guardrail_doc(spec.guardrails@[i])).take(i as int),
            decreases spec.guardrails.len() - i,
        {
            push_item(&mut gs, guardrail_to_doc(&spec.guardrails[i]));
            assert(models(gs@) =~= Seq::new(spec.guardrails@.len(), |i: int| guardrail_doc(spec.guardrails@[i])).take(i + 1));
            i = i + 1;
        }
        assert(models(gs@) =~= Seq::new(spec.guardrails@.len(), |i: int| guardrail_doc(spec.guardrails@[i])));
        push_entry(&mut doc, "guardrails", json_array(gs));
    }
    let ghost p2 = if spec.guardrails@.len() > 0 {
        seq![("guardrails"@, JsonV::JArr(Seq::new(spec.guardrails@.len(), |i: int| guardrail_doc(spec.guardrails@[i]))))]
    } else {
        Seq::empty()
    };
    assert(entry_models(doc@) =~= e2 + p2);
    let ghost e3 = entry_models(doc@);
    match executing_node(spec) {
        Some(node) => push_entry(&mut doc, "executing_node", node),
        None => {},
    }
    let ghost p3 = match executing_node_spec(*spec) {
        Some(n) => seq![("executing_node"@, n)],
        None => Seq::empty(),
    };
    assert(entry_models(doc@) =~= e3 + p3);
    assert(entry_models(doc@) =~= answer_document_spec(*spec)->JObj_0);
    Ok(json_object(doc))
}

} // verus!
