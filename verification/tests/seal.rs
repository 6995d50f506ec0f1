use std::io::{Cursor, Read, Write};

use greentic_dw_authoring::cbor_flow_post::{inject_sidecar, remove_entries, PostProcessError};
use greentic_dw_authoring::seal::{
    media_type_for, reseal_inventory, reseal_plan, reseal_write, rewrite_manifest_resealing, ResealPlan, Resealing,
    SbomDocument, SbomEncoding, SbomEntry,
};
use zip::write::SimpleFileOptions;
use zip::{ZipArchive, ZipWriter};

fn zip_with(entries: &[(&str, &[u8])]) -> Vec<u8> {
    let mut out = Vec::new();
    {
        let mut writer = ZipWriter::new(Cursor::new(&mut out));
        let options = SimpleFileOptions::default();
        for (name, bytes) in entries {
            writer.start_file(*name, options).unwrap();
            writer.write_all(bytes).unwrap();
        }
        writer.finish().unwrap();
    }
    out
}

fn read_entry(zip_bytes: &[u8], name: &str) -> Option<Vec<u8>> {
    let mut archive = ZipArchive::new(Cursor::new(zip_bytes)).ok()?;
    let mut entry = archive.by_name(name).ok()?;
    let mut buf = Vec::new();
    entry.read_to_end(&mut buf).ok()?;
    Some(buf)
}

fn names(zip_bytes: &[u8]) -> Vec<String> {
    let archive = ZipArchive::new(Cursor::new(zip_bytes)).unwrap();
    archive.file_names().map(|n| n.unwrap().to_string()).collect()
}

#[test]
fn sbom_entry_names_follow_the_encoding() {
    assert_eq!(SbomEncoding::Json.entry_name(), "sbom.json");
    assert_eq!(SbomEncoding::Cbor.entry_name(), "sbom.cbor");
}

#[test]
fn media_types_follow_the_extension() {
    assert_eq!(media_type_for("manifest.cbor"), "application/cbor");
    assert_eq!(media_type_for("dw-agents.json"), "application/json");
    assert_eq!(media_type_for("components/x.wasm"), "application/wasm");
    assert_eq!(media_type_for("flows/main/flow.ygtc"), "application/yaml");
    assert_eq!(media_type_for("a.yaml"), "application/yaml");
    assert_eq!(media_type_for("a.yml"), "application/yaml");
    assert_eq!(media_type_for("assets/knowledge/policy.txt"), "application/octet-stream");
    assert_eq!(media_type_for("cbor"), "application/octet-stream");
}

#[test]
fn reseal_leaves_an_unsealed_archive() {
    let pack = zip_with(&[("manifest.cbor", b"m")]);
    assert!(matches!(reseal_plan(&pack), Ok(ResealPlan::Unsealed)));
}

#[test]
fn reseal_prefers_json_and_sorts_contents() {
    let pack = zip_with(&[("z.txt", b"z"), ("sbom.cbor", b"c"), ("sbom.json", b"j"), ("a.cbor", b"a")]);
    match reseal_plan(&pack).unwrap() {
        ResealPlan::Reseal { encoding, contents, sbom } => {
            assert_eq!(encoding, SbomEncoding::Json);
            assert_eq!(sbom, b"j");
            let paths: Vec<&str> = contents.iter().map(|(p, _)| p.as_str()).collect();
            assert_eq!(paths, vec!["a.cbor", "sbom.cbor", "sbom.json", "z.txt"]);
        }
        ResealPlan::Unsealed => panic!("expected a reseal"),
    }
}

#[test]
fn reseal_inventory_lists_content_with_hashes_and_known_media() {
    let contents: Vec<(String, Vec<u8>)> = vec![
        ("a.cbor".into(), b"aaa".to_vec()),
        ("policy.txt".into(), b"30 days".to_vec()),
        ("sbom.json".into(), b"{}".to_vec()),
        ("signatures/pack.sig".into(), b"sig".to_vec()),
    ];
    let old = SbomDocument {
        format: "greentic-sbom-v1".into(),
        files: vec![SbomEntry {
            path: "policy.txt".into(),
            size: 1,
            hash_blake3: "stale".into(),
            media_type: "text/plain".into(),
        }],
    };
    let new = reseal_inventory(&contents, &old);
    assert_eq!(new.format, "greentic-sbom-v1");
    let rows: Vec<(&str, u64, &str)> =
        new.files.iter().map(|f| (f.path.as_str(), f.size, f.media_type.as_str())).collect();
    assert_eq!(rows, vec![("a.cbor", 3, "application/cbor"), ("policy.txt", 7, "text/plain")]);
    assert_eq!(new.files[1].hash_blake3, blake3::hash(b"30 days").to_hex().to_string());
}

#[test]
fn reseal_write_drops_signatures_and_replaces_the_sbom() {
    let contents: Vec<(String, Vec<u8>)> = vec![
        ("a.cbor".into(), b"aaa".to_vec()),
        ("sbom.json".into(), b"old".to_vec()),
        ("signatures/chain.pem".into(), b"pem".to_vec()),
        ("signatures/pack.sig".into(), b"sig".to_vec()),
    ];
    let out = reseal_write(&contents, SbomEncoding::Json, b"new-sbom").unwrap();
    assert_eq!(names(&out), vec!["a.cbor", "sbom.json"]);
    assert_eq!(read_entry(&out, "sbom.json").as_deref(), Some(&b"new-sbom"[..]));
    assert_eq!(read_entry(&out, "a.cbor").as_deref(), Some(&b"aaa"[..]));
}

#[test]
fn resealed_sbom_matches_the_archive() {
    let pack = zip_with(&[
        ("manifest.cbor", b"m"),
        ("sbom.json", b"{}"),
        ("dw-agents.json", b"{\"w\":{}}"),
        ("signatures/pack.sig", b"s"),
    ]);
    let (encoding, contents) = match reseal_plan(&pack).unwrap() {
        ResealPlan::Reseal { encoding, contents, .. } => (encoding, contents),
        ResealPlan::Unsealed => panic!("expected a reseal"),
    };
    let doc = reseal_inventory(&contents, &SbomDocument { format: "f".into(), files: vec![] });
    let out = reseal_write(&contents, encoding, b"encoded").unwrap();
    let listed: Vec<(String, String)> = doc.files.iter().map(|f| (f.path.clone(), f.hash_blake3.clone())).collect();
    let archive: Vec<(String, String)> = names(&out)
        .into_iter()
        .filter(|n| n != "sbom.json")
        .map(|n| {
            let bytes = read_entry(&out, &n).unwrap();
            (n, blake3::hash(&bytes).to_hex().to_string())
        })
        .collect();
    assert_eq!(listed, archive);
}

fn encode(doc: &SbomDocument) -> Vec<u8> {
    let mut out = doc.format.clone();
    for f in &doc.files {
        out.push_str(&format!("\n{} {} {} {}", f.path, f.size, f.hash_blake3, f.media_type));
    }
    out.into_bytes()
}

fn entries(zip_bytes: &[u8]) -> Vec<(String, Vec<u8>)> {
    names(zip_bytes).into_iter().map(|n| {
        let b = read_entry(zip_bytes, &n).unwrap();
        (n, b)
    }).collect()
}

#[test]
fn reseal_is_idempotent() {
    let pack = zip_with(&[
        ("z.ygtc", b"id: main\n"),
        ("sbom.json", b"{}"),
        ("manifest.cbor", b"m"),
        ("signatures/chain.pem", b"pem"),
    ]);
    let old = SbomDocument {
        format: "f".into(),
        files: vec![SbomEntry { path: "manifest.cbor".into(), size: 0, hash_blake3: String::new(), media_type: "custom".into() }],
    };
    let (encoding, contents) = match reseal_plan(&pack).unwrap() {
        ResealPlan::Reseal { encoding, contents, .. } => (encoding, contents),
        ResealPlan::Unsealed => panic!("expected a reseal"),
    };
    let first_doc = reseal_inventory(&contents, &old);
    let first = reseal_write(&contents, encoding, &encode(&first_doc)).unwrap();

    let (encoding2, contents2) = match reseal_plan(&first).unwrap() {
        ResealPlan::Reseal { encoding, contents, .. } => (encoding, contents),
        ResealPlan::Unsealed => panic!("expected a reseal"),
    };
    assert_eq!(contents2, entries(&first));
    let second_doc = reseal_inventory(&contents2, &first_doc);
    let rows = |d: &SbomDocument| -> Vec<(String, u64, String, String)> {
        d.files.iter().map(|f| (f.path.clone(), f.size, f.hash_blake3.clone(), f.media_type.clone())).collect()
    };
    assert_eq!(rows(&second_doc), rows(&first_doc));
    assert_eq!(rows(&first_doc)[0].3, "custom");
    let second = reseal_write(&contents2, encoding2, &encode(&second_doc)).unwrap();
    assert_eq!(entries(&second), entries(&first));
}

#[test]
fn sealed_sidecar_injection_reseals_the_rewritten_pack() {
    let pack = zip_with(&[
        ("manifest.cbor", b"m"),
        ("sbom.json", b"{}"),
        ("signatures/pack.sig", b"sig"),
        ("signatures/chain.pem", b"pem"),
    ]);
    let (encoding, contents, sbom) = match inject_sidecar(&pack, "dw-agents.json", b"agents").unwrap() {
        Resealing::Pending { encoding, contents, sbom } => (encoding, contents, sbom),
        Resealing::Done(_) => panic!("a sealed pack must be resealed"),
    };
    assert_eq!(sbom, b"{}".to_vec());
    let paths: Vec<&str> = contents.iter().map(|(p, _)| p.as_str()).collect();
    assert_eq!(paths, vec!["dw-agents.json", "manifest.cbor", "sbom.json", "signatures/chain.pem", "signatures/pack.sig"]);
    let doc = reseal_inventory(&contents, &SbomDocument { format: "f".into(), files: vec![] });
    let listed: Vec<&str> = doc.files.iter().map(|f| f.path.as_str()).collect();
    assert_eq!(listed, vec!["dw-agents.json", "manifest.cbor"]);
    let out = reseal_write(&contents, encoding, b"new-sbom").unwrap();
    assert_eq!(names(&out), vec!["dw-agents.json", "manifest.cbor", "sbom.json"]);
    assert_eq!(read_entry(&out, "dw-agents.json").as_deref(), Some(&b"agents"[..]));
    assert_eq!(read_entry(&out, "sbom.json").as_deref(), Some(&b"new-sbom"[..]));
}

#[test]
fn sealed_rewrites_of_an_unsealed_pack_are_final() {
    let pack = zip_with(&[("manifest.cbor", b"m"), ("flows/a.ygtc", b"x")]);
    match inject_sidecar(&pack, "extra", b"e").unwrap() {
        Resealing::Done(out) => assert_eq!(read_entry(&out, "extra").as_deref(), Some(&b"e"[..])),
        Resealing::Pending { .. } => panic!("nothing to reseal"),
    }
    match remove_entries(&pack, &["flows/a.ygtc"]).unwrap() {
        Resealing::Done(out) => assert_eq!(names(&out), vec!["manifest.cbor"]),
        Resealing::Pending { .. } => panic!("nothing to reseal"),
    }
    match rewrite_manifest_resealing(&pack, b"new").unwrap() {
        Resealing::Done(out) => assert_eq!(read_entry(&out, "manifest.cbor").as_deref(), Some(&b"new"[..])),
        Resealing::Pending { .. } => panic!("nothing to reseal"),
    }
    assert!(matches!(
        inject_sidecar(b"not a zip", "x", b"y"),
        Err(PostProcessError::OpenZip(_))
    ));
}
