use std::io::{Cursor, Write};

use greentic_dw_authoring::cbor_flow_post::{populate_manifest_flows, FlowFill, PostProcessError};
use greentic_dw_authoring::loadable::{has_runner_manifest, runner_manifest_step, LoadableError, ManifestStep};
use zip::write::SimpleFileOptions;
use zip::ZipWriter;

fn zip_with(entries: &[(&str, &[u8])]) -> Vec<u8> {
    let mut out = Vec::new();
    {
        let mut writer = ZipWriter::new(Cursor::new(&mut out));
        let options = SimpleFileOptions::default();
        for (name, bytes) in entries {
            writer.start_file(*name, options).unwrap();
            writer.write_all(bytes).unwrap();
        }
        writer.finish().unwrap();
    }
    out
}

fn empty_manifest(pack_id: &str) -> Vec<u8> {
    let manifest = greentic_types::PackManifest {
        schema_version: "1".to_string(),
        pack_id: greentic_types::PackId::new(pack_id).unwrap(),
        name: None,
        version: "0.1.0".parse().unwrap(),
        kind: greentic_types::PackKind::Application,
        publisher: "greentic-designer".to_string(),
        components: vec![],
        flows: vec![],
        dependencies: vec![],
        capabilities: vec![],
        secret_requirements: vec![],
        signatures: Default::default(),
        bootstrap: None,
        extensions: None,
        agents: Default::default(),
    };
    greentic_types::encode_pack_manifest(&manifest).unwrap()
}

#[test]
fn populate_refuses_a_pack_without_manifest() {
    let pack = zip_with(&[("flows/main.ygtc", b"id: main\n")]);
    assert!(matches!(populate_manifest_flows(&pack), Err(PostProcessError::MissingManifest)));
}

#[test]
fn populate_leaves_a_pack_without_flow_sources() {
    let pack = zip_with(&[("manifest.cbor", b"whatever"), ("readme.txt", b"x")]);
    assert!(matches!(populate_manifest_flows(&pack), Ok(FlowFill::Unchanged)));
}

#[test]
fn populate_collects_sources_by_logical_name() {
    let manifest = empty_manifest("greentic.dw.greeter");
    let pack = zip_with(&[
        ("flows/main.ygtc", b"id: main\n"),
        ("manifest.cbor", &manifest),
        ("flows/main/flow.ygtc", b"id: nested\n"),
        ("flows/other.json", b"{}"),
    ]);
    match populate_manifest_flows(&pack).expect("plan") {
        FlowFill::Compile { sources, manifest: m } => {
            let got: Vec<(String, String)> = sources.into_iter().map(|s| (s.name, s.ygtc)).collect();
            assert_eq!(
                got,
                vec![
                    ("main".to_string(), "id: main\n".to_string()),
                    ("main/flow".to_string(), "id: nested\n".to_string()),
                ]
            );
            assert_eq!(m, manifest);
        }
        FlowFill::Unchanged => panic!("expected sources to compile"),
    }
}

#[test]
fn populate_strips_repeated_prefixes_and_suffixes() {
    let manifest = empty_manifest("p");
    let pack = zip_with(&[("flows/flows/x.ygtc.ygtc", b"a: 1\n"), ("manifest.cbor", &manifest)]);
    match populate_manifest_flows(&pack).unwrap() {
        FlowFill::Compile { sources, .. } => assert_eq!(sources[0].name, "x"),
        FlowFill::Unchanged => panic!("expected sources to compile"),
    }
}

#[test]
fn populate_reports_an_undecodable_manifest() {
    let pack = zip_with(&[("flows/main.ygtc", b"id: main\n"), ("manifest.cbor", b"not cbor")]);
    assert!(matches!(populate_manifest_flows(&pack), Err(PostProcessError::DecodeManifest(_))));
}

#[test]
fn runner_manifest_is_kept_when_it_decodes() {
    let manifest = empty_manifest("pack.dw.w");
    let pack = zip_with(&[("manifest.cbor", &manifest)]);
    assert!(has_runner_manifest(&pack));
    assert!(matches!(runner_manifest_step(&pack, "pack.dw.w"), Ok(ManifestStep::Keep)));
}

#[test]
fn runner_manifest_is_synthesized_when_absent_or_broken() {
    let pack = zip_with(&[("placeholder.txt", b"x")]);
    assert!(!has_runner_manifest(&pack));
    assert!(matches!(runner_manifest_step(&pack, "greentic.dw.greeter"), Ok(ManifestStep::Synthesize(_))));
    let broken = zip_with(&[("manifest.cbor", b"junk")]);
    assert!(!has_runner_manifest(&broken));
    assert!(matches!(runner_manifest_step(&broken, "pack.dw.w"), Ok(ManifestStep::Synthesize(_))));
}

#[test]
fn runner_manifest_refuses_an_invalid_pack_id() {
    let pack = zip_with(&[("placeholder.txt", b"x")]);
    match runner_manifest_step(&pack, "bad id!") {
        Err(LoadableError::PackId(id, _)) => assert_eq!(id, "bad id!"),
        _ => panic!("expected a PackId error"),
    }
    assert!(matches!(runner_manifest_step(&pack, ""), Err(LoadableError::PackId(_, _))));
}

#[test]
fn populate_refuses_bytes_that_are_not_a_zip_as_open_zip() {
    assert!(matches!(
        populate_manifest_flows(b"not a zip"),
        Err(PostProcessError::OpenZip(_))
    ));
}

#[test]
fn rewrite_manifest_refuses_bytes_that_are_not_a_zip_as_open_zip() {
    assert!(matches!(
        greentic_dw_authoring::cbor_flow_post::rewrite_manifest(b"not a zip", b"m"),
        Err(PostProcessError::OpenZip(_))
    ));
    assert!(matches!(
        greentic_dw_authoring::seal::reseal_plan(b"not a zip"),
        Err(PostProcessError::OpenZip(_))
    ));
}
