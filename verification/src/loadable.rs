//! Turning a built `.gtpack` into one the runner loads: the single-turn
//! flow document, and the decision whether the pack's `manifest.cbor` can
//! stay or a runner manifest has to be synthesized (flows empty, to be
//! filled from the pack's `flows/*.ygtc` sources).
use greentic_types::PackId;
use vstd::prelude::*;
use crate::archive::{EntryV, archive_entries, archive_source, entry_names, zip_entries, zip_open, zip_readable, zip_read_ok};
use crate::cbor_flow_post::{
    FlowFill, PostProcessError, copyable, fill_owed, flow_sources, flows_are_text, manifest_of, read_entry_at, read_names,
    rewritable, string_views,
};
use crate::inject::{jobj, jstr, empty_obj, out_routing, user_text_map};
use crate::json::{Json, JsonV, obj_get, lemma_obj_get_only, entry_models, json_object, json_str, push_entry};
use crate::manifest::{decoded_manifest, manifest_flow_count, pack_id_new, valid_identifier};

verus! {

/// Why a pack could not be made runner-loadable.
#[derive(Debug)]
pub enum LoadableError {
    /// The pack file could not be read.
    Read(std::io::Error),
    /// The pack file could not be written back.
    Write(std::io::Error),
    /// The pack id is not a valid identifier: the id and the reason.
    PackId(String, String),
    /// The runner manifest could not be encoded.
    Encode(String),
    /// Rewriting the archive failed.
    Post(PostProcessError),
}

/// The single-turn flow: one `dw.agent` node keyed `agent` whose
/// `operation` is the agent id, mapping the inbound text into `user_text`
/// (the reserved `in_map` key), with terminal routing.
pub open spec fn single_turn_doc(agent_id: Seq<char>) -> JsonV {
    jobj(
        seq![
            ("id"@, jstr("main"@)),
            ("type"@, jstr("messaging"@)),
            ("start"@, jstr("agent"@)),
            ("nodes"@, jobj(seq![
                ("agent"@, jobj(seq![
                    ("dw.agent"@, empty_obj()),
                    ("operation"@, jstr(agent_id)),
                    ("in_map"@, user_text_map()),
                    ("routing"@, out_routing()),
                ])),
            ])),
        ],
    )
}

/// The single-turn flow starts at its one node, keyed `agent`, which runs
/// the agent `agent_id` on the inbound text and ends the flow
/// (`[{"out": true}]`).
pub proof fn lemma_single_turn_doc_shape(agent_id: Seq<char>)
    ensures
        ({
            let d = single_turn_doc(agent_id)->JObj_0;
            let nodes = obj_get(d, "nodes"@);
            let node = obj_get(nodes->Some_0->JObj_0, "agent"@);
            let n = node->Some_0->JObj_0;
            &&& obj_get(d, "start"@) == Some(JsonV::JStr("agent"@))
            &&& nodes is Some && nodes->Some_0 is JObj
            &&& node is Some && node->Some_0 is JObj
            &&& obj_get(n, "operation"@) == Some(JsonV::JStr(agent_id))
            &&& obj_get(n, "in_map"@) == Some(JsonV::JObj(seq![("user_text"@, JsonV::JStr("{{in.text}}"@))]))
            &&& obj_get(n, "routing"@) == Some(crate::inject::terminal_routing())
        }),
{
    reveal_strlit("id");
    reveal_strlit("type");
    reveal_strlit("start");
    reveal_strlit("nodes");
    reveal_strlit("agent");
    reveal_strlit("dw.agent");
    reveal_strlit("operation");
    reveal_strlit("in_map");
    reveal_strlit("routing");
    let d = single_turn_doc(agent_id)->JObj_0;
    assert(d[0].0.len() == 2 && d[1].0.len() == 4 && d[2].0 == "start"@ && d[3].0 == "nodes"@);
    assert("start"@ != "nodes"@) by {
        assert("start"@[0] != "nodes"@[0]);
    }
    lemma_obj_get_only(d, "start"@, 2);
    lemma_obj_get_only(d, "nodes"@, 3);
    let ns = d[3].1->JObj_0;
    lemma_obj_get_only(ns, "agent"@, 0);
    let n = ns[0].1->JObj_0;
    assert(n[0].0.len() == 8 && n[1].0.len() == 9 && n[2].0.len() == 6 && n[3].0.len() == 7);
    lemma_obj_get_only(n, "operation"@, 1);
    lemma_obj_get_only(n, "in_map"@, 2);
    lemma_obj_get_only(n, "routing"@, 3);
}

/// The YGTC document of a single-turn worker's main flow. The agent id is
/// a string value of the document, so it comes back from the YGTC text
/// exactly as given, whatever characters it holds.
pub fn single_turn_main_ygtc(agent_id: &str) -> (r: Json)
    ensures
        r@ == single_turn_doc(agent_id@),
{
    let mut node: Vec<(String, Json)> = Vec::new();
    assert(entry_models(node@) =~= Seq::empty());
    push_entry(&mut node, "dw.agent", crate::inject::empty_object());
    push_entry(&mut node, "operation", json_str(agent_id));
    push_entry(&mut node, "in_map", crate::inject::user_text_map_json());
    push_entry(&mut node, "routing", crate::inject::out_routing_json());
    let ghost node_e = seq![
        ("dw.agent"@, empty_obj()),
        ("operation"@, jstr(agent_id@)),
        ("in_map"@, user_text_map()),
        ("routing"@, out_routing()),
    ];
    assert(entry_models(node@) =~= node_e);
    let mut nodes: Vec<(String, Json)> = Vec::new();
    assert(entry_models(nodes@) =~= Seq::empty());
    push_entry(&mut nodes, "agent", json_object(node));
    assert(entry_models(nodes@) =~= seq![("agent"@, jobj(node_e))]);
    let mut doc: Vec<(String, Json)> = Vec::new();
    assert(entry_models(doc@) =~= Seq::empty());
    push_entry(&mut doc, "id", json_str("main"));
    push_entry(&mut doc, "type", json_str("messaging"));
    push_entry(&mut doc, "start", json_str("agent"));
    push_entry(&mut doc, "nodes", json_object(nodes));
    assert(entry_models(doc@) =~= single_turn_doc(agent_id@)->JObj_0);
    json_object(doc)
}

/// The contents of the first entry named `n`, if any.
pub open spec fn first_named(e: Seq<EntryV>, n: Seq<char>) -> Option<Seq<u8>>
    decreases e.len(),
{
    if e.len() == 0 {
        None
    } else if e[0].0 == n {
        Some(e[0].1)
    } else {
        first_named(e.drop_first(), n)
    }
}

/// The pack already carries a `manifest.cbor` that decodes.
pub open spec fn carries_runner_manifest(pack: Seq<u8>) -> bool {
    first_named(zip_entries(pack), "manifest.cbor"@) matches Some(m) && decoded_manifest(m) is Ok
}

/// Whether the pack carries a decodable `manifest.cbor`. A pack that cannot
/// be opened, or whose manifest cannot be read, counts as carrying none; on
/// a pack that reads in full the answer is exact.
pub fn has_runner_manifest(pack_bytes: &[u8]) -> (r: bool)
    ensures
        r ==> carries_runner_manifest(pack_bytes@),
        first_named(zip_entries(pack_bytes@), "manifest.cbor"@) is None ==> !r,
        (first_named(zip_entries(pack_bytes@), "manifest.cbor"@) matches Some(m) && decoded_manifest(m) is Err)
            ==> !r,
        zip_readable(pack_bytes@) ==> (r <==> carries_runner_manifest(pack_bytes@)),
{
    let mut archive = match zip_open(pack_bytes) {
        Ok(a) => a,
        Err(_) => {
            return false;
        },
    };
    let names = match read_names(&archive) {
        Ok(n) => n,
        Err(_) => {
            return false;
        },
    };
    let ghost src = archive_entries(archive);
    let mut i: usize = 0;
    assert(names@.len() == string_views(names@).len());
    assert(src.skip(0) =~= src);
    while i < names.len()
        invariant
            0 <= i <= names@.len(),
            names@.len() == src.len(),
            string_views(names@) == entry_names(src),
            archive_entries(archive) == src,
            src == zip_entries(pack_bytes@),
            archive_source(archive) == pack_bytes@,
            first_named(src, "manifest.cbor"@) == first_named(src.skip(i as int), "manifest.cbor"@),
        decreases names@.len() - i,
    {
        assert(string_views(names@)[i as int] == names@[i as int]@);
        assert(src.skip(i as int).drop_first() =~= src.skip(i + 1));
        assert(src.skip(i as int)[0] == src[i as int]);
        proof {
            if zip_readable(pack_bytes@) {
                assert(zip_read_ok(pack_bytes@, i as int));
            }
        }
        if names[i] == "manifest.cbor".to_owned() {
            let bytes = match read_entry_at(&mut archive, i, &names[i]) {
                Ok(b) => b,
                Err(_) => {
                    return false;
                },
            };
            return match manifest_flow_count(bytes.as_slice()) {
                Ok(_) => true,
                Err(_) => false,
            };
        }
        i = i + 1;
    }
    assert(src.skip(names@.len() as int) =~= Seq::<EntryV>::empty());
    false
}

/// What making a pack runner-loadable needs first.
pub enum ManifestStep {
    /// The pack's `manifest.cbor` decodes: keep it.
    Keep,
    /// Synthesize a runner manifest under this (validated) pack id, with
    /// no flows yet, and inject it as `manifest.cbor`.
    Synthesize(PackId),
}

/// Decide whether the pack's own `manifest.cbor` can stay or a runner
/// manifest has to be synthesized; in the latter case `pack_id` has to be a
/// valid identifier, or the pack is refused with `PackId`.
pub fn runner_manifest_step(pack_bytes: &[u8], pack_id: &str) -> (r: Result<ManifestStep, LoadableError>)
    ensures
        r matches Ok(ManifestStep::Keep) ==> carries_runner_manifest(pack_bytes@),
        r matches Ok(ManifestStep::Synthesize(_)) ==> valid_identifier(pack_id@),
        r matches Err(e) ==> (e matches LoadableError::PackId(id, _) && id@ == pack_id@ && !valid_identifier(pack_id@)),
        !carries_runner_manifest(pack_bytes@) ==> (r is Ok <==> valid_identifier(pack_id@)),
        !carries_runner_manifest(pack_bytes@) ==> !(r matches Ok(ManifestStep::Keep)),
        (zip_readable(pack_bytes@) && carries_runner_manifest(pack_bytes@)) ==> (r matches Ok(ManifestStep::Keep)),
{
    if has_runner_manifest(pack_bytes) {
        return Ok(ManifestStep::Keep);
    }
    match pack_id_new(pack_id) {
        Ok(id) => Ok(ManifestStep::Synthesize(id)),
        Err(m) => Err(LoadableError::PackId(pack_id.to_owned(), m)),
    }
}

/// Under a key held by entry `i` alone, the first entry with that key is
/// entry `i`.
proof fn lemma_first_named_only(e: Seq<EntryV>, n: Seq<char>, i: int)
    requires
        0 <= i < e.len(),
        e[i].0 == n,
        forall|j: int| 0 <= j < e.len() && j != i ==> (#[trigger] e[j]).0 != n,
    ensures
        first_named(e, n) == Some(e[i].1),
    decreases e.len(),
{
    if i > 0 {
        let t = e.drop_first();
        assert(e[0].0 != n);
        assert forall|j: int| 0 <= j < t.len() && j != i - 1 implies (#[trigger] t[j]).0 != n by {
            assert(t[j] == e[j + 1]);
        }
        lemma_first_named_only(t, n, i - 1);
    }
}

/// Under `manifest.cbor` held by entry `i` alone, the last such entry is
/// entry `i`.
proof fn lemma_manifest_of_only(e: Seq<EntryV>, i: int)
    requires
        0 <= i < e.len(),
        e[i].0 == "manifest.cbor"@,
        forall|j: int| 0 <= j < e.len() && j != i ==> (#[trigger] e[j]).0 != "manifest.cbor"@,
    ensures
        manifest_of(e) == Some(e[i].1),
    decreases e.len(),
{
    if i < e.len() - 1 {
        let t = e.drop_last();
        assert(e[e.len() - 1].0 != "manifest.cbor"@);
        assert forall|j: int| 0 <= j < t.len() && j != i implies (#[trigger] t[j]).0 != "manifest.cbor"@ by {
            assert(t[j] == e[j]);
        }
        lemma_manifest_of_only(t, i);
    }
}

/// Making a pack runner-loadable is stable. On a pack that reads in full,
/// whose entries can be copied and whose flow sources are text, and that
/// carries a `manifest.cbor` that decodes and already lists flows (or has
/// no flow source to fill it from), the manifest step keeps the manifest
/// and filling the flows leaves the pack as it is.
pub proof fn lemma_loadable_stable(pack: Seq<u8>)
    requires
        rewritable(pack),
        flows_are_text(zip_entries(pack)),
        manifest_of(zip_entries(pack)) matches Some(m) && decoded_manifest(m) matches Ok(n) && (n > 0 || flow_sources(
            zip_entries(pack),
        ).len() == 0),
    ensures
        carries_runner_manifest(pack),
        fill_owed(zip_entries(pack), Ok(FlowFill::Unchanged)),
{
    let e = zip_entries(pack);
    assert(copyable(e));
    reveal_strlit("manifest.cbor");
    if forall|j: int| 0 <= j < e.len() ==> (#[trigger] e[j]).0 != "manifest.cbor"@ {
        lemma_manifest_of_absent(e);
    }
    let i = choose|i: int| 0 <= i < e.len() && (#[trigger] e[i]).0 == "manifest.cbor"@;
    assert forall|j: int| 0 <= j < e.len() && j != i implies (#[trigger] e[j]).0 != "manifest.cbor"@ by {
        if j < i {
            assert(e[j].0 != e[i].0);
        } else {
            assert(e[i].0 != e[j].0);
        }
    }
    lemma_first_named_only(e, "manifest.cbor"@, i);
    lemma_manifest_of_only(e, i);
}

/// Without an entry named `manifest.cbor` there is no manifest.
proof fn lemma_manifest_of_absent(e: Seq<EntryV>)
    requires
        forall|j: int| 0 <= j < e.len() ==> (#[trigger] e[j]).0 != "manifest.cbor"@,
    ensures
        manifest_of(e) is None,
    decreases e.len(),
{
    if e.len() > 0 {
        let t = e.drop_last();
        assert(e[e.len() - 1].0 != "manifest.cbor"@);
        assert forall|j: int| 0 <= j < t.len() implies (#[trigger] t[j]).0 != "manifest.cbor"@ by {
            assert(t[j] == e[j]);
        }
        lemma_manifest_of_absent(t);
    }
}

} // verus!
