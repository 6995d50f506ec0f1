use std::io::{Cursor, Read, Write};

use greentic_dw_authoring::cbor_flow_post::{self as post, rewrite_manifest, PostProcessError};
use greentic_dw_authoring::seal::Resealing;
use zip::write::SimpleFileOptions;
use zip::{ZipArchive, ZipWriter};

fn zip_with(entries: &[(&str, &[u8])]) -> Vec<u8> {
    let mut out = Vec::new();
    {
        let mut writer = ZipWriter::new(Cursor::new(&mut out));
        let options = SimpleFileOptions::default();
        for (name, bytes) in entries {
            writer.start_file(*name, options).unwrap();
            writer.write_all(bytes).unwrap();
        }
        writer.finish().unwrap();
    }
    out
}

/// The rewrite of an unsealed pack: final as it is.
fn done(r: Result<Resealing, PostProcessError>) -> Result<Vec<u8>, PostProcessError> {
    match r? {
        Resealing::Done(out) => Ok(out),
        Resealing::Pending { .. } => panic!("an unsealed pack needs no reseal"),
    }
}

fn inject_sidecar(pack: &[u8], name: &str, bytes: &[u8]) -> Result<Vec<u8>, PostProcessError> {
    done(post::inject_sidecar(pack, name, bytes))
}

fn remove_entries(pack: &[u8], names: &[&str]) -> Result<Vec<u8>, PostProcessError> {
    done(post::remove_entries(pack, names))
}

fn build_two_entry_zip() -> Vec<u8> {
    zip_with(&[("manifest.cbor", b"manifest-bytes"), ("flows/main.ygtc", b"flow: yaml")])
}

fn read_entry(zip_bytes: &[u8], name: &str) -> Option<Vec<u8>> {
    let mut archive = ZipArchive::new(Cursor::new(zip_bytes)).ok()?;
    let mut entry = archive.by_name(name).ok()?;
    let mut buf = Vec::new();
    entry.read_to_end(&mut buf).ok()?;
    Some(buf)
}

fn names(zip_bytes: &[u8]) -> Vec<String> {
    let archive = ZipArchive::new(Cursor::new(zip_bytes)).unwrap();
    archive.file_names().map(|n| n.unwrap().to_string()).collect()
}

#[test]
fn inject_sidecar_adds_new_entry_and_preserves_existing() {
    let pack = build_two_entry_zip();
    let new_bytes = b"loading-step-cbor-payload";
    let patched = inject_sidecar(&pack, "loading_steps.cbor", new_bytes).expect("inject");

    assert_eq!(read_entry(&patched, "manifest.cbor").as_deref(), Some(&b"manifest-bytes"[..]));
    assert_eq!(read_entry(&patched, "flows/main.ygtc").as_deref(), Some(&b"flow: yaml"[..]));
    assert_eq!(read_entry(&patched, "loading_steps.cbor").as_deref(), Some(&new_bytes[..]));
}

#[test]
fn inject_sidecar_replaces_existing_entry() {
    let pack = build_two_entry_zip();
    let first = inject_sidecar(&pack, "loading_steps.cbor", b"v1").expect("inject");
    let second = inject_sidecar(&first, "loading_steps.cbor", b"v2").expect("re-inject");
    assert_eq!(read_entry(&second, "loading_steps.cbor").as_deref(), Some(&b"v2"[..]));
}

#[test]
fn remove_entries_drops_named_entries_and_keeps_the_rest() {
    let pack = build_two_entry_zip();
    let patched = remove_entries(&pack, &["flows/main.ygtc"]).expect("remove_entries must succeed");

    assert_eq!(read_entry(&patched, "manifest.cbor").as_deref(), Some(&b"manifest-bytes"[..]));
    assert!(read_entry(&patched, "flows/main.ygtc").is_none(), "removed entry must be gone");
}

#[test]
fn remove_entries_is_idempotent_for_missing_names() {
    let pack = build_two_entry_zip();
    let patched = remove_entries(&pack, &["does/not/exist.ygtc"]).expect("missing name is a no-op");

    assert_eq!(read_entry(&patched, "manifest.cbor").as_deref(), Some(&b"manifest-bytes"[..]));
    assert_eq!(read_entry(&patched, "flows/main.ygtc").as_deref(), Some(&b"flow: yaml"[..]));
}

#[test]
fn inject_sidecar_moves_the_replaced_entry_last_and_keeps_order() {
    let pack = zip_with(&[("a", b"1"), ("b", b"2"), ("c", b"3")]);
    let patched = inject_sidecar(&pack, "b", b"new").unwrap();
    assert_eq!(names(&patched), vec!["a", "c", "b"]);
    assert_eq!(read_entry(&patched, "b").as_deref(), Some(&b"new"[..]));
    assert_eq!(read_entry(&patched, "a").as_deref(), Some(&b"1"[..]));
}

#[test]
fn remove_entries_drops_several_names() {
    let pack = zip_with(&[("a", b"1"), ("b", b"2"), ("c", b"3")]);
    let patched = remove_entries(&pack, &["a", "c", "zzz"]).unwrap();
    assert_eq!(names(&patched), vec!["b"]);
}

#[test]
fn rewriting_refuses_bytes_that_are_not_a_zip() {
    assert!(inject_sidecar(b"not a zip", "x", b"y").is_err());
    assert!(remove_entries(b"not a zip", &["x"]).is_err());
}

#[test]
fn rewrite_manifest_replaces_in_place() {
    let pack = zip_with(&[("a", b"1"), ("manifest.cbor", b"old"), ("z", b"2")]);
    let out = rewrite_manifest(&pack, b"new").unwrap();
    assert_eq!(names(&out), vec!["a", "manifest.cbor", "z"]);
    assert_eq!(read_entry(&out, "manifest.cbor").as_deref(), Some(&b"new"[..]));
    assert_eq!(read_entry(&out, "z").as_deref(), Some(&b"2"[..]));
}
