//! Recomputing a `.gtpack`'s SBOM so that it describes the archive as it
//! actually is, and dropping the signature files that no longer match.
//!
//! A reseal runs in three steps around the SBOM's own encoding, which is
//! the caller's to do: [`reseal_plan`] reads the archive (in path order, the
//! last entry under a path winning) and picks the encoding; the caller
//! decodes the old SBOM; [`reseal_inventory`] derives the new inventory from
//! the contents and the old SBOM's media types; the caller encodes it; and
//! [`reseal_write`] writes the archive back without signatures and with the
//! new SBOM.
//!
//! Every rewrite of a pack reseals at its tail:
//! [`crate::cbor_flow_post::inject_sidecar`],
//! [`crate::cbor_flow_post::remove_entries`] and [`rewrite_manifest_resealing`]
//! make the rewrite and plan the reseal of what it wrote, in one step.
use vstd::prelude::*;
use crate::archive::{
    EntryV, archive_entries, archive_source, entry_names, writer_entries, zip_entries, zip_finish,
    zip_open, zip_opens, zip_readable, zip_read_ok, zip_writer_new, name_fits, data_fits, entries_fit,
};
use crate::cbor_flow_post::{
    PostProcessError, is_archive_error, has_suffix, string_views, kept, rewritable, lemma_sidecar_reads_back,
    rewrite_manifest, replace_named,
};
use crate::ordered::{keys_sorted, kinsert, kget, kview, sorted_insert, sorted_get, lemma_kinsert_get};

verus! {

/// The paths that describe the archive rather than belong to its content:
/// never listed in the SBOM.
pub open spec fn self_describing(p: Seq<char>) -> bool {
    p == "sbom.json"@ || p == "sbom.cbor"@ || p == "signatures/pack.sig"@ || p == "signatures/chain.pem"@
}

/// The signature files a reseal drops.
pub open spec fn is_signature(p: Seq<char>) -> bool {
    p == "signatures/pack.sig"@ || p == "signatures/chain.pem"@
}

/// The encoding an archive's SBOM uses: JSON (`sbom.json`, as `PackBuilder`
/// writes it) or CBOR (`sbom.cbor`, as packc does).
#[derive(Clone, Copy, Debug, PartialEq, Eq, Structural)]
pub enum SbomEncoding {
    Json,
    Cbor,
}

impl SbomEncoding {
    pub open spec fn entry_name_spec(self) -> Seq<char> {
        match self {
            SbomEncoding::Json => "sbom.json"@,
            SbomEncoding::Cbor => "sbom.cbor"@,
        }
    }

    /// The archive path of the SBOM in this encoding.
    pub fn entry_name(self) -> (r: &'static str)
        ensures
            r@ == self.entry_name_spec(),
    {
        match self {
            SbomEncoding::Json => "sbom.json",
            SbomEncoding::Cbor => "sbom.cbor",
        }
    }
}

/// One SBOM row.
pub struct SbomEntry {
    pub path: String,
    pub size: u64,
    pub hash_blake3: String,
    pub media_type: String,
}

/// The SBOM document. `format` is carried over verbatim from the SBOM the
/// archive had.
pub struct SbomDocument {
    pub format: String,
    pub files: Vec<SbomEntry>,
}

/// An SBOM row as (path, size, blake3 hex, media type).
pub type SbomRowV = (Seq<char>, nat, Seq<char>, Seq<char>);

pub open spec fn row_view(e: SbomEntry) -> SbomRowV {
    (e.path@, e.size as nat, e.hash_blake3@, e.media_type@)
}

pub open spec fn row_views(s: Seq<SbomEntry>) -> Seq<SbomRowV> {
    Seq::new(s.len(), |i: int| row_view(s[i]))
}

/// The lowercase hex blake3 digest of `bytes`.
pub uninterp spec fn blake3_hex_of(bytes: Seq<u8>) -> Seq<char>;

/// `blake3::hash(bytes).to_hex()`, as a string.
#[verifier::external_body]
pub(crate) fn blake3_hex(bytes: &[u8]) -> (r: String)
    ensures
        r@ == blake3_hex_of(bytes@),
{
    blake3::hash(bytes).to_hex().to_string()
}

/// The media type an SBOM gives a path by its extension.
pub open spec fn media_type_spec(p: Seq<char>) -> Seq<char> {
    if has_suffix(p, ".cbor"@) {
        "application/cbor"@
    } else if has_suffix(p, ".json"@) {
        "application/json"@
    } else if has_suffix(p, ".wasm"@) {
        "application/wasm"@
    } else if has_suffix(p, ".yaml"@) || has_suffix(p, ".yml"@) || has_suffix(p, ".ygtc"@) {
        "application/yaml"@
    } else {
        "application/octet-stream"@
    }
}

fn ends_with(s: &str, p: &str) -> (r: bool)
    ensures
        r == has_suffix(s@, p@),
{
    crate::cbor_flow_post::ends_with_chars(&crate::text::chars_of(s), &crate::text::chars_of(p))
}

/// The SBOM media type for a path the previous SBOM did not describe:
/// `.cbor`, `.json`, `.wasm` and YAML (`.yaml`, `.yml`, `.ygtc`) by their
/// extension, anything else `application/octet-stream`.
pub fn media_type_for(path: &str) -> (r: &'static str)
    ensures
        r@ == media_type_spec(path@),
{
    if ends_with(path, ".cbor") {
        "application/cbor"
    } else if ends_with(path, ".json") {
        "application/json"
    } else if ends_with(path, ".wasm") {
        "application/wasm"
    } else if ends_with(path, ".yaml") || ends_with(path, ".yml") || ends_with(path, ".ygtc") {
        "application/yaml"
    } else {
        "application/octet-stream"
    }
}

/// The archive's contents keyed by path, in path order, the last entry
/// under a path winning: the entries folded into a sorted map.
pub open spec fn contents_of(e: Seq<EntryV>) -> Seq<EntryV>
    decreases e.len(),
{
    if e.len() == 0 {
        Seq::empty()
    } else {
        kinsert(contents_of(e.drop_last()), e.last().0, e.last().1)
    }
}

/// The contents of the last entry named `n`, if any.
pub open spec fn last_named(e: Seq<EntryV>, n: Seq<char>) -> Option<Seq<u8>>
    decreases e.len(),
{
    if e.len() == 0 {
        None
    } else if e.last().0 == n {
        Some(e.last().1)
    } else {
        last_named(e.drop_last(), n)
    }
}

/// The sorted contents answer a lookup with the last entry under that path.
pub proof fn lemma_contents_get(e: Seq<EntryV>, n: Seq<char>)
    ensures
        kget(contents_of(e), n) == last_named(e, n),
        keys_sorted(contents_of(e)),
    decreases e.len(),
{
    if e.len() > 0 {
        lemma_contents_get(e.drop_last(), n);
        crate::ordered::lemma_kinsert_sorted(contents_of(e.drop_last()), e.last().0, e.last().1);
        lemma_kinsert_get(contents_of(e.drop_last()), e.last().0, e.last().1, n);
    }
}

/// A run of path-keyed byte vectors, by view.
pub open spec fn bytes_view(t: Seq<(Seq<char>, Vec<u8>)>) -> Seq<EntryV> {
    Seq::new(t.len(), |i: int| (t[i].0, t[i].1@))
}

/// Inserting then viewing is viewing then inserting.
pub proof fn lemma_bytes_view_kinsert(t: Seq<(Seq<char>, Vec<u8>)>, k: Seq<char>, v: Vec<u8>)
    ensures
        bytes_view(kinsert(t, k, v)) == kinsert(bytes_view(t), k, v@),
    decreases t.len(),
{
    if t.len() == 0 {
        assert(bytes_view(kinsert(t, k, v)) =~= kinsert(bytes_view(t), k, v@));
    } else if t[0].0 == k {
        assert(bytes_view(kinsert(t, k, v)) =~= kinsert(bytes_view(t), k, v@));
    } else if crate::ordered::str_lt(k, t[0].0) {
        assert(bytes_view(kinsert(t, k, v)) =~= kinsert(bytes_view(t), k, v@));
    } else {
        lemma_bytes_view_kinsert(t.drop_first(), k, v);
        assert(bytes_view(t).drop_first() =~= bytes_view(t.drop_first()));
        assert(bytes_view(kinsert(t, k, v)) =~= kinsert(bytes_view(t), k, v@));
    }
}

/// Viewing the bytes keeps the key order.
pub proof fn lemma_bytes_view_sorted(t: Seq<(Seq<char>, Vec<u8>)>)
    ensures
        keys_sorted(t) <==> keys_sorted(bytes_view(t)),
{
    if keys_sorted(t) {
        assert forall|i: int, j: int| 0 <= i < j < bytes_view(t).len() implies crate::ordered::str_lt(
            #[trigger] bytes_view(t)[i].0,
            #[trigger] bytes_view(t)[j].0,
        ) by {
            assert(crate::ordered::str_lt(t[i].0, t[j].0));
        }
    }
    if keys_sorted(bytes_view(t)) {
        assert forall|i: int, j: int| 0 <= i < j < t.len() implies crate::ordered::str_lt(#[trigger] t[i].0, #[trigger] t[j].0) by {
            assert(crate::ordered::str_lt(bytes_view(t)[i].0, bytes_view(t)[j].0));
        }
    }
}

/// What a reseal comes to for an archive.
pub enum ResealPlan {
    /// The archive carries no SBOM: there is no seal to keep, and the
    /// archive stays as it is.
    Unsealed,
    /// The archive's contents in path order, the SBOM's encoding, and the
    /// old SBOM's bytes (for its `format` and media types).
    Reseal { encoding: SbomEncoding, contents: Vec<(String, Vec<u8>)>, sbom: Vec<u8> },
}

/// The contents of a reseal, by view.
pub open spec fn contents_view(c: Seq<(String, Vec<u8>)>) -> Seq<EntryV> {
    bytes_view(kview(c))
}

/// The encoding an archive with these entry names reseals in, if any:
/// JSON where `sbom.json` is present, else CBOR where `sbom.cbor` is.
pub open spec fn encoding_for(names: Seq<Seq<char>>) -> Option<SbomEncoding> {
    if names.contains("sbom.json"@) {
        Some(SbomEncoding::Json)
    } else if names.contains("sbom.cbor"@) {
        Some(SbomEncoding::Cbor)
    } else {
        None
    }
}

fn names_contain(names: &Vec<String>, n: &str) -> (r: bool)
    ensures
        r == string_views(names@).contains(n@),
{
    let mut i: usize = 0;
    while i < names.len()
        invariant
            0 <= i <= names@.len(),
            forall|j: int| 0 <= j < i ==> names@[j]@ != n@,
        decreases names@.len() - i,
    {
        if names[i] == n.to_owned() {
            assert(string_views(names@)[i as int] == n@);
            return true;
        }
        i = i + 1;
    }
    proof {
        if string_views(names@).contains(n@) {
            let j = choose|j: int| 0 <= j < string_views(names@).len() && string_views(names@)[j] == n@;
            assert(names@[j]@ == n@);
        }
    }
    false
}

/// Read an archive for a reseal: choose the SBOM's encoding from the entry
/// names (none: the archive is [`ResealPlan::Unsealed`]), then read every
/// entry into path order, the last entry under a path winning.
pub fn reseal_plan(pack_bytes: &[u8]) -> (r: Result<ResealPlan, PostProcessError>)
    ensures
        ({
            let e = zip_entries(pack_bytes@);
            &&& r matches Ok(ResealPlan::Unsealed) ==> encoding_for(entry_names(e)) is None
            &&& r matches Ok(ResealPlan::Reseal { encoding, contents, sbom }) ==> encoding_for(entry_names(e))
                == Some(encoding) && contents_view(contents@) == contents_of(e) && keys_sorted(kview(contents@))
                && last_named(e, encoding.entry_name_spec()) == Some(sbom@)
            &&& r matches Err(x) ==> is_archive_error(x)
            &&& !zip_opens(pack_bytes@) ==> (r matches Err(PostProcessError::OpenZip(_)))
            &&& zip_readable(pack_bytes@) ==> r is Ok
        }),
{
    let mut archive = match zip_open(pack_bytes) {
        Ok(a) => a,
        Err(e) => {
            return Err(PostProcessError::OpenZip(e));
        },
    };
    let names = match crate::cbor_flow_post::read_names(&archive) {
        Ok(n) => n,
        Err(e) => {
            return Err(e);
        },
    };
    let ghost src = archive_entries(archive);
    let encoding = if names_contain(&names, "sbom.json") {
        SbomEncoding::Json
    } else if names_contain(&names, "sbom.cbor") {
        SbomEncoding::Cbor
    } else {
        return Ok(ResealPlan::Unsealed);
    };
    let mut contents: Vec<(String, Vec<u8>)> = Vec::new();
    let mut i: usize = 0;
    assert(names@.len() == string_views(names@).len());
    assert(src.take(0) =~= Seq::<EntryV>::empty());
    assert(contents_view(contents@) =~= Seq::<EntryV>::empty());
    while i < names.len()
        invariant
            0 <= i <= names@.len(),
            names@.len() == src.len(),
            string_views(names@) == entry_names(src),
            archive_entries(archive) == src,
            src == zip_entries(pack_bytes@),
            archive_source(archive) == pack_bytes@,
            zip_opens(pack_bytes@),
            contents_view(contents@) == contents_of(src.take(i as int)),
            keys_sorted(kview(contents@)),
        decreases names@.len() - i,
    {
        assert(string_views(names@)[i as int] == names@[i as int]@);
        assert(src.take(i + 1).drop_last() =~= src.take(i as int));
        assert(src.take(i + 1).last() == src[i as int]);
        proof {
            if zip_readable(pack_bytes@) {
                assert(zip_read_ok(pack_bytes@, i as int));
            }
        }
        let data = match crate::cbor_flow_post::read_entry_at(&mut archive, i, &names[i]) {
            Ok(d) => d,
            Err(e) => {
                return Err(e);
            },
        };
        let ghost before = kview(contents@);
        let ghost d = data;
        sorted_insert(&mut contents, names[i].clone(), data);
        proof {
            lemma_bytes_view_kinsert(before, names@[i as int]@, d);
        }
        i = i + 1;
    }
    assert(src.take(names@.len() as int) =~= src);
    proof {
        lemma_contents_get(src, encoding.entry_name_spec());
        lemma_bytes_view_sorted(kview(contents@));
    }
    let sbom = match sorted_get(&contents, encoding.entry_name()) {
        Some(b) => b.clone(),
        None => {
            proof {
                lemma_bytes_view_get(kview(contents@), encoding.entry_name_spec());
                lemma_named_present(src, encoding.entry_name_spec());
                assert(false);
            }
            return Err(PostProcessError::Sbom("the SBOM entry could not be read".to_owned()));
        },
    };
    proof {
        lemma_bytes_view_get(kview(contents@), encoding.entry_name_spec());
    }
    Ok(ResealPlan::Reseal { encoding, contents, sbom })
}

/// A lookup through the byte view.
pub proof fn lemma_bytes_view_get(t: Seq<(Seq<char>, Vec<u8>)>, k: Seq<char>)
    ensures
        kget(t, k) matches Some(v) ==> kget(bytes_view(t), k) == Some(v@),
        kget(t, k) is None ==> kget(bytes_view(t), k) is None,
    decreases t.len(),
{
    if t.len() > 0 {
        assert(bytes_view(t).drop_first() =~= bytes_view(t.drop_first()));
        lemma_bytes_view_get(t.drop_first(), k);
    }
}

/// A name the entries carry has a last entry.
pub proof fn lemma_named_present(e: Seq<EntryV>, n: Seq<char>)
    ensures
        entry_names(e).contains(n) ==> last_named(e, n) is Some,
    decreases e.len(),
{
    if e.len() > 0 {
        lemma_named_present(e.drop_last(), n);
        if entry_names(e).contains(n) && e.last().0 != n {
            let j = choose|j: int| 0 <= j < entry_names(e).len() && entry_names(e)[j] == n;
            assert(entry_names(e.drop_last())[j] == n);
        }
    }
}

/// The media type the old SBOM gave `p` (the last row for it), if any.
pub open spec fn known_media(files: Seq<SbomEntry>, p: Seq<char>) -> Option<Seq<char>>
    decreases files.len(),
{
    if files.len() == 0 {
        None
    } else if files.last().path@ == p {
        Some(files.last().media_type@)
    } else {
        known_media(files.drop_last(), p)
    }
}

/// The media type a reseal records for `p`: the one the old SBOM gave it,
/// else the one its extension gives.
pub open spec fn media_of(files: Seq<SbomEntry>, p: Seq<char>) -> Seq<char> {
    match known_media(files, p) {
        Some(m) => m,
        None => media_type_spec(p),
    }
}

/// The inventory a reseal writes: one row per content entry (every entry
/// but the self-describing ones), in path order, with its size, its blake3
/// digest and its media type.
pub open spec fn inventory(c: Seq<EntryV>, files: Seq<SbomEntry>) -> Seq<SbomRowV>
    decreases c.len(),
{
    if c.len() == 0 {
        Seq::empty()
    } else if self_describing(c.last().0) {
        inventory(c.drop_last(), files)
    } else {
        inventory(c.drop_last(), files).push(
            (c.last().0, c.last().1.len(), blake3_hex_of(c.last().1), media_of(files, c.last().0)),
        )
    }
}

fn is_self_describing(p: &String) -> (r: bool)
    ensures
        r == self_describing(p@),
{
    *p == "sbom.json".to_owned() || *p == "sbom.cbor".to_owned() || *p == "signatures/pack.sig".to_owned()
        || *p == "signatures/chain.pem".to_owned()
}

fn is_signature_path(p: &String) -> (r: bool)
    ensures
        r == is_signature(p@),
{
    *p == "signatures/pack.sig".to_owned() || *p == "signatures/chain.pem".to_owned()
}

/// The media type the old SBOM recorded for `path`, if any.
fn lookup_media(files: &Vec<SbomEntry>, path: &String) -> (r: Option<String>)
    ensures
        match r {
            Some(m) => known_media(files@, path@) == Some(m@),
            None => known_media(files@, path@) is None,
        },
{
    let mut found: Option<String> = None;
    let mut j: usize = 0;
    assert(files@.take(0) =~= Seq::<SbomEntry>::empty());
    while j < files.len()
        invariant
            0 <= j <= files@.len(),
            match found {
                Some(m) => known_media(files@.take(j as int), path@) == Some(m@),
                None => known_media(files@.take(j as int), path@) is None,
            },
        decreases files@.len() - j,
    {
        assert(files@.take(j + 1).drop_last() =~= files@.take(j as int));
        assert(files@.take(j + 1).last() == files@[j as int]);
        if files[j].path == *path {
            found = Some(files[j].media_type.clone());
        }
        j = j + 1;
    }
    assert(files@.take(files@.len() as int) =~= files@);
    found
}

/// The new SBOM for the contents of a reseal: the old `format`, and the
/// [`inventory`] of the contents, media types taken from the old SBOM
/// where it described the path.
pub fn reseal_inventory(contents: &Vec<(String, Vec<u8>)>, old: &SbomDocument) -> (r: SbomDocument)
    ensures
        r.format@ == old.format@,
        row_views(r.files@) == inventory(contents_view(contents@), old.files@),
{
    let ghost c = contents_view(contents@);
    let mut files: Vec<SbomEntry> = Vec::new();
    let mut i: usize = 0;
    assert(c.take(0) =~= Seq::<EntryV>::empty());
    assert(row_views(files@) =~= Seq::<SbomRowV>::empty());
    while i < contents.len()
        invariant
            0 <= i <= contents@.len(),
            c == contents_view(contents@),
            c.len() == contents@.len(),
            row_views(files@) == inventory(c.take(i as int), old.files@),
        decreases contents@.len() - i,
    {
        assert(c.take(i + 1).drop_last() =~= c.take(i as int));
        assert(c.take(i + 1).last() == c[i as int]);
        assert(c[i as int] == (contents@[i as int].0@, contents@[i as int].1@));
        let path = &contents[i].0;
        if !is_self_describing(path) {
            let bytes = &contents[i].1;
            let media = match lookup_media(&old.files, path) {
                Some(m) => m,
                None => media_type_for(path.as_str()).to_owned(),
            };
            let row = SbomEntry {
                path: path.clone(),
                size: bytes.len() as u64,
                hash_blake3: blake3_hex(bytes.as_slice()),
                media_type: media,
            };
            let ghost before = files@;
            files.push(row);
            assert(row_views(files@) =~= row_views(before).push(row_view(row)));
        }
        i = i + 1;
    }
    assert(c.take(contents@.len() as int) =~= c);
    SbomDocument { format: old.format.clone(), files }
}

/// The archive a reseal writes: the contents in path order, without the
/// signature files, the SBOM entry holding the new SBOM.
pub open spec fn resealed(c: Seq<EntryV>, sbom_name: Seq<char>, sbom: Seq<u8>) -> Seq<EntryV>
    decreases c.len(),
{
    if c.len() == 0 {
        Seq::empty()
    } else if is_signature(c.last().0) {
        resealed(c.drop_last(), sbom_name, sbom)
    } else if c.last().0 == sbom_name {
        resealed(c.drop_last(), sbom_name, sbom).push((sbom_name, sbom))
    } else {
        resealed(c.drop_last(), sbom_name, sbom).push(c.last())
    }
}

/// Contents a reseal can write: sorted by path (so each path once), every
/// path short enough for a local header, every entry clear of ZIP64 sizes.
pub open spec fn writable(c: Seq<EntryV>) -> bool {
    &&& keys_sorted(c)
    &&& forall|i: int| 0 <= i < c.len() ==> name_fits(#[trigger] c[i].0)
    &&& entries_fit(c)
}

/// Every entry a reseal writes carries a path of the contents, and either
/// that path's bytes or the new SBOM.
pub proof fn lemma_resealed_from(c: Seq<EntryV>, sbom_name: Seq<char>, sbom: Seq<u8>)
    ensures
        forall|k: int| 0 <= k < resealed(c, sbom_name, sbom).len() ==> exists|j: int| 0 <= j < c.len()
            && #[trigger] resealed(c, sbom_name, sbom)[k].0 == c[j].0 && (resealed(c, sbom_name, sbom)[k].1 == c[j].1
            || resealed(c, sbom_name, sbom)[k].1 == sbom),
    decreases c.len(),
{
    if c.len() > 0 {
        let c0 = c.drop_last();
        lemma_resealed_from(c0, sbom_name, sbom);
        let r0 = resealed(c0, sbom_name, sbom);
        let r = resealed(c, sbom_name, sbom);
        assert forall|k: int| 0 <= k < r.len() implies exists|j: int| 0 <= j < c.len() && #[trigger] r[k].0 == c[j].0 && (
        r[k].1 == c[j].1 || r[k].1 == sbom) by {
            if k < r0.len() {
                assert(r[k] == r0[k]);
                let j = choose|j: int| 0 <= j < c0.len() && #[trigger] r0[k].0 == c0[j].0 && (r0[k].1 == c0[j].1 || r0[k].1 == sbom);
                assert(c[j] == c0[j]);
            } else {
                assert(r[k].0 == c[c.len() - 1].0);
            }
        }
    }
}

/// Writing the first `i` entries of writable contents leaves entry `i`'s
/// path fresh and every written entry clear of ZIP64 sizes.
proof fn lemma_resealed_prefix_fresh(c: Seq<EntryV>, sbom_name: Seq<char>, sbom: Seq<u8>, i: int)
    requires
        writable(c),
        data_fits(sbom),
        0 <= i <= c.len(),
    ensures
        i < c.len() ==> !entry_names(resealed(c.take(i), sbom_name, sbom)).contains(c[i].0),
        entries_fit(resealed(c.take(i), sbom_name, sbom)),
{
    let p = c.take(i);
    let r = resealed(p, sbom_name, sbom);
    lemma_resealed_from(p, sbom_name, sbom);
    assert forall|k: int| 0 <= k < r.len() implies data_fits(#[trigger] r[k].1) by {
        let j = choose|j: int| 0 <= j < p.len() && #[trigger] r[k].0 == p[j].0 && (r[k].1 == p[j].1 || r[k].1 == sbom);
        assert(p[j] == c[j]);
    }
    if i < c.len() && entry_names(r).contains(c[i].0) {
        let k = choose|k: int| 0 <= k < entry_names(r).len() && entry_names(r)[k] == c[i].0;
        let j = choose|j: int| 0 <= j < p.len() && #[trigger] r[k].0 == p[j].0 && (r[k].1 == p[j].1 || r[k].1 == sbom);
        assert(p[j] == c[j]);
        assert(crate::ordered::str_lt(c[j].0, c[i].0));
        crate::ordered::lemma_str_lt_asymmetric(c[j].0, c[i].0);
    }
}

/// Write the resealed archive: every content entry verbatim and in path
/// order, the SBOM entry holding `sbom` (the encoded new SBOM), and no
/// signature files.
pub fn reseal_write(contents: &Vec<(String, Vec<u8>)>, encoding: SbomEncoding, sbom: &[u8]) -> (r: Result<Vec<u8>, PostProcessError>)
    ensures
        r matches Ok(out) ==> zip_entries(out@) == resealed(contents_view(contents@), encoding.entry_name_spec(), sbom@),
        r matches Err(x) ==> is_archive_error(x),
        (writable(contents_view(contents@)) && data_fits(sbom@)) ==> r is Ok,
{
    let ghost c = contents_view(contents@);
    let ghost sname = encoding.entry_name_spec();
    let ghost good = writable(c) && data_fits(sbom@);
    let name = encoding.entry_name();
    let mut w = zip_writer_new();
    let mut i: usize = 0;
    assert(c.take(0) =~= Seq::<EntryV>::empty());
    while i < contents.len()
        invariant
            0 <= i <= contents@.len(),
            c == contents_view(contents@),
            c.len() == contents@.len(),
            name@ == sname,
            good == (writable(c) && data_fits(sbom@)),
            writer_entries(w) == resealed(c.take(i as int), sname, sbom@),
        decreases contents@.len() - i,
    {
        assert(c.take(i + 1).drop_last() =~= c.take(i as int));
        assert(c.take(i + 1).last() == c[i as int]);
        assert(c[i as int] == (contents@[i as int].0@, contents@[i as int].1@));
        proof {
            if good {
                lemma_resealed_prefix_fresh(c, sname, sbom@, i as int);
                assert(name_fits(c[i as int].0));
                assert(data_fits(c[i as int].1));
            }
        }
        let path = &contents[i].0;
        let ps = path.as_str();
        if !is_signature_path(path) {
            if *path == name.to_owned() {
                match crate::cbor_flow_post::write_entry(&mut w, ps, sbom) {
                    Ok(()) => {},
                    Err(e) => {
                        return Err(e);
                    },
                }
            } else {
                let ds = contents[i].1.as_slice();
                match crate::cbor_flow_post::write_entry(&mut w, ps, ds) {
                    Ok(()) => {},
                    Err(e) => {
                        return Err(e);
                    },
                }
            }
        }
        i = i + 1;
    }
    assert(c.take(contents@.len() as int) =~= c);
    proof {
        if good {
            lemma_resealed_prefix_fresh(c, sname, sbom@, c.len() as int);
        }
    }
    match zip_finish(w) {
        Ok(out) => Ok(out),
        Err(e) => Err(PostProcessError::OpenZip(e)),
    }
}

/// A resealed archive carries no signature file.
pub proof fn lemma_resealed_unsigned(c: Seq<EntryV>, encoding: SbomEncoding, sbom: Seq<u8>)
    ensures
        forall|i: int| 0 <= i < resealed(c, encoding.entry_name_spec(), sbom).len()
            ==> !is_signature(#[trigger] resealed(c, encoding.entry_name_spec(), sbom)[i].0),
    decreases c.len(),
{
    let n = encoding.entry_name_spec();
    if c.len() > 0 {
        lemma_resealed_unsigned(c.drop_last(), encoding, sbom);
        let rest = resealed(c.drop_last(), n, sbom);
        reveal_strlit("sbom.json");
        reveal_strlit("sbom.cbor");
        reveal_strlit("signatures/pack.sig");
        reveal_strlit("signatures/chain.pem");
        assert(!is_signature(n)) by {
            assert(n.len() == 9);
        }
        assert forall|i: int| 0 <= i < resealed(c, n, sbom).len() implies !is_signature(#[trigger] resealed(c, n, sbom)[i].0) by {
            if i < rest.len() {
                if !is_signature(c.last().0) {
                    assert(resealed(c, n, sbom)[i] == rest[i]);
                }
            }
        }
    }
}

/// A sorted run of entries is its own path-ordered contents.
pub proof fn lemma_contents_of_sorted(e: Seq<EntryV>)
    requires
        keys_sorted(e),
    ensures
        contents_of(e) == e,
    decreases e.len(),
{
    if e.len() > 0 {
        let t = e.drop_last();
        assert(keys_sorted(t)) by {
            assert forall|i: int, j: int| 0 <= i < j < t.len() implies crate::ordered::str_lt(#[trigger] t[i].0, #[trigger] t[j].0) by {
                assert(t[i] == e[i] && t[j] == e[j]);
            }
        }
        lemma_contents_of_sorted(t);
        let k = e.last().0;
        assert(crate::ordered::is_insert_point(t, k, t.len() as int)) by {
            assert forall|j: int| 0 <= j < t.len() implies crate::ordered::str_lt(#[trigger] t[j].0, k) by {
                assert(t[j] == e[j]);
            }
        }
        crate::ordered::lemma_kinsert_at(t, k, e.last().1, t.len() as int);
        assert(t.take(t.len() as int) + seq![(k, e.last().1)] + t.skip(t.len() as int) =~= e);
    }
}

/// Every path a reseal writes is a path of its contents.
proof fn lemma_resealed_paths(c: Seq<EntryV>, n: Seq<char>, s: Seq<u8>)
    ensures
        forall|i: int| 0 <= i < resealed(c, n, s).len() ==> exists|j: int| 0 <= j < c.len() && c[j].0 == #[trigger] resealed(c, n, s)[i].0,
    decreases c.len(),
{
    if c.len() > 0 {
        let c0 = c.drop_last();
        let r0 = resealed(c0, n, s);
        lemma_resealed_paths(c0, n, s);
        assert forall|i: int| 0 <= i < resealed(c, n, s).len() implies exists|j: int| 0 <= j < c.len() && c[j].0 == #[trigger] resealed(c, n, s)[i].0 by {
            if i < r0.len() {
                assert(resealed(c, n, s)[i] == r0[i]);
                let j = choose|j: int| 0 <= j < c0.len() && c0[j].0 == r0[i].0;
                assert(c[j] == c0[j]);
            } else {
                assert(c[c.len() - 1].0 == resealed(c, n, s)[i].0);
            }
        }
    }
}

/// A reseal of sorted contents is sorted.
proof fn lemma_resealed_sorted(c: Seq<EntryV>, n: Seq<char>, s: Seq<u8>)
    requires
        keys_sorted(c),
    ensures
        keys_sorted(resealed(c, n, s)),
    decreases c.len(),
{
    if c.len() > 0 {
        let c0 = c.drop_last();
        assert(keys_sorted(c0)) by {
            assert forall|i: int, j: int| 0 <= i < j < c0.len() implies crate::ordered::str_lt(#[trigger] c0[i].0, #[trigger] c0[j].0) by {
                assert(c0[i] == c[i] && c0[j] == c[j]);
            }
        }
        lemma_resealed_sorted(c0, n, s);
        lemma_resealed_paths(c0, n, s);
        let r0 = resealed(c0, n, s);
        let r = resealed(c, n, s);
        assert forall|i: int, j: int| 0 <= i < j < r.len() implies crate::ordered::str_lt(#[trigger] r[i].0, #[trigger] r[j].0) by {
            if j < r0.len() {
                assert(r[i] == r0[i] && r[j] == r0[j]);
            } else {
                assert(r[i] == r0[i]);
                let q = choose|q: int| 0 <= q < c0.len() && c0[q].0 == r0[i].0;
                assert(c[q] == c0[q]);
                assert(r[j].0 == c[c.len() - 1].0);
            }
        }
    }
}

/// A reseal of what a reseal wrote (with the same SBOM bytes) writes it
/// again unchanged.
proof fn lemma_resealed_twice(c: Seq<EntryV>, n: Seq<char>, s: Seq<u8>)
    requires
        !is_signature(n),
    ensures
        resealed(resealed(c, n, s), n, s) == resealed(c, n, s),
    decreases c.len(),
{
    if c.len() > 0 {
        let c0 = c.drop_last();
        lemma_resealed_twice(c0, n, s);
        let r0 = resealed(c0, n, s);
        let r = resealed(c, n, s);
        if r.len() > r0.len() {
            assert(r.drop_last() =~= r0);
        }
    }
}

/// `p` names a content entry (not a self-describing one) of `c`.
pub open spec fn has_content(c: Seq<EntryV>, p: Seq<char>) -> bool {
    !self_describing(p) && exists|j: int| 0 <= j < c.len() && c[j].0 == p
}

/// A new SBOM whose rows are an inventory records, for each content path,
/// the media type that inventory gave it.
proof fn lemma_known_media_of_inventory(c: Seq<EntryV>, files0: Seq<SbomEntry>, f1: Seq<SbomEntry>, p: Seq<char>)
    requires
        row_views(f1) == inventory(c, files0),
        has_content(c, p),
    ensures
        known_media(f1, p) == Some(media_of(files0, p)),
    decreases c.len(),
{
    let c0 = c.drop_last();
    let l = c.last();
    let j = choose|j: int| 0 <= j < c.len() && c[j].0 == p;
    if self_describing(l.0) {
        assert(c0[j] == c[j]);
        lemma_known_media_of_inventory(c0, files0, f1, p);
    } else {
        let inv0 = inventory(c0, files0);
        assert(row_views(f1).len() == inv0.len() + 1);
        assert(row_view(f1.last()) == row_views(f1)[f1.len() - 1]);
        assert(inventory(c, files0) == inv0.push((l.0, l.1.len(), blake3_hex_of(l.1), media_of(files0, l.0))));
        if l.0 != p {
            assert(c0[j] == c[j]);
            assert forall|i: int| 0 <= i < inv0.len() implies #[trigger] row_views(f1.drop_last())[i] == inv0[i] by {
                assert(row_views(f1)[i] == inventory(c, files0)[i]);
                assert(f1.drop_last()[i] == f1[i]);
            }
            assert(row_views(f1.drop_last()) =~= inv0);
            lemma_known_media_of_inventory(c0, files0, f1.drop_last(), p);
        }
    }
}

/// With the media types an inventory recorded, a reseal's own output
/// inventories exactly as its contents did.
proof fn lemma_inventory_of_resealed(c: Seq<EntryV>, files0: Seq<SbomEntry>, f1: Seq<SbomEntry>, encoding: SbomEncoding, s: Seq<u8>)
    requires
        row_views(f1) == inventory(c, files0),
    ensures
        inventory(resealed(c, encoding.entry_name_spec(), s), f1) == inventory(c, files0),
{
    lemma_inventory_resealed_step(c, files0, f1, encoding, s, c);
}

proof fn lemma_inventory_resealed_step(
    c: Seq<EntryV>,
    files0: Seq<SbomEntry>,
    f1: Seq<SbomEntry>,
    encoding: SbomEncoding,
    s: Seq<u8>,
    whole: Seq<EntryV>,
)
    requires
        row_views(f1) == inventory(whole, files0),
        forall|p: Seq<char>| has_content(c, p) ==> has_content(whole, p),
    ensures
        inventory(resealed(c, encoding.entry_name_spec(), s), f1) == inventory(c, files0),
    decreases c.len(),
{
    let n = encoding.entry_name_spec();
    if c.len() > 0 {
        let c0 = c.drop_last();
        let l = c.last();
        assert forall|p: Seq<char>| has_content(c0, p) implies has_content(whole, p) by {
            let j = choose|j: int| 0 <= j < c0.len() && c0[j].0 == p;
            assert(c[j] == c0[j]);
            assert(has_content(c, p));
        }
        lemma_inventory_resealed_step(c0, files0, f1, encoding, s, whole);
        let r0 = resealed(c0, n, s);
        let r = resealed(c, n, s);
        if r.len() > r0.len() {
            assert(r.drop_last() =~= r0);
        }
        if !is_signature(l.0) && l.0 != n && !self_describing(l.0) {
            assert(has_content(c, l.0)) by {
                assert(c[c.len() - 1].0 == l.0);
            }
            lemma_known_media_of_inventory(whole, files0, f1, l.0);
        }
    }
}

/// Resealing is idempotent: the archive a reseal writes (its contents
/// sorted by path) reads back as the same path-ordered contents, its
/// inventory with the new SBOM's media types is the new SBOM's own rows,
/// and writing it again with the same SBOM bytes writes the same entries.
pub proof fn lemma_reseal_idempotent(c: Seq<EntryV>, files0: Seq<SbomEntry>, f1: Seq<SbomEntry>, encoding: SbomEncoding, s: Seq<u8>)
    requires
        keys_sorted(c),
        row_views(f1) == inventory(c, files0),
    ensures
        contents_of(resealed(c, encoding.entry_name_spec(), s)) == resealed(c, encoding.entry_name_spec(), s),
        inventory(resealed(c, encoding.entry_name_spec(), s), f1) == inventory(c, files0),
        resealed(resealed(c, encoding.entry_name_spec(), s), encoding.entry_name_spec(), s) == resealed(
            c,
            encoding.entry_name_spec(),
            s,
        ),
{
    let n = encoding.entry_name_spec();
    lemma_resealed_sorted(c, n, s);
    lemma_contents_of_sorted(resealed(c, n, s));
    lemma_inventory_of_resealed(c, files0, f1, encoding, s);
    reveal_strlit("sbom.json");
    reveal_strlit("sbom.cbor");
    reveal_strlit("signatures/pack.sig");
    reveal_strlit("signatures/chain.pem");
    assert(!is_signature(n)) by {
        assert(n.len() == 9);
    }
    lemma_resealed_twice(c, n, s);
}

/// What an SBOM row claims: (path, size, digest).
pub open spec fn claim(r: SbomRowV) -> (Seq<char>, nat, Seq<char>) {
    (r.0, r.1, r.2)
}

pub open spec fn claims(rows: Seq<SbomRowV>) -> Seq<(Seq<char>, nat, Seq<char>)> {
    Seq::new(rows.len(), |i: int| claim(rows[i]))
}

/// What an archive's content entries are: (path, size, digest) of every
/// entry but the self-describing ones, in order.
pub open spec fn content_listing(e: Seq<EntryV>) -> Seq<(Seq<char>, nat, Seq<char>)>
    decreases e.len(),
{
    if e.len() == 0 {
        Seq::empty()
    } else if self_describing(e.last().0) {
        content_listing(e.drop_last())
    } else {
        content_listing(e.drop_last()).push((e.last().0, e.last().1.len(), blake3_hex_of(e.last().1)))
    }
}

/// A reseal's SBOM describes the archive it is written into: the rows'
/// paths, sizes and digests are exactly the resealed archive's content
/// entries, in order, whatever bytes end up under the SBOM's own path.
pub proof fn lemma_reseal_describes_archive(c: Seq<EntryV>, files: Seq<SbomEntry>, encoding: SbomEncoding, sbom: Seq<u8>)
    ensures
        claims(inventory(c, files)) == content_listing(resealed(c, encoding.entry_name_spec(), sbom)),
    decreases c.len(),
{
    let n = encoding.entry_name_spec();
    if c.len() == 0 {
        assert(claims(inventory(c, files)) =~= Seq::empty());
    } else {
        lemma_reseal_describes_archive(c.drop_last(), files, encoding, sbom);
        let rest = resealed(c.drop_last(), n, sbom);
        let p = c.last().0;
        if is_signature(p) {
            assert(self_describing(p));
        } else if p == n {
            assert(self_describing(p));
            assert(resealed(c, n, sbom) == rest.push((n, sbom)));
            assert(resealed(c, n, sbom).drop_last() =~= rest);
        } else {
            assert(resealed(c, n, sbom) == rest.push(c.last()));
            assert(resealed(c, n, sbom).drop_last() =~= rest);
            if !self_describing(p) {
                assert(claims(inventory(c, files)) =~= claims(inventory(c.drop_last(), files)).push(
                    (p, c.last().1.len(), blake3_hex_of(c.last().1)),
                ));
            }
        }
    }
}

/// A rewritten pack on its way to being resealed.
pub enum Resealing {
    /// The rewritten pack carries no SBOM: there is no seal to keep, and it
    /// is final as it is.
    Done(Vec<u8>),
    /// The rewritten pack's reseal: decode `sbom` (in `encoding`), take
    /// [`reseal_inventory`] of `contents` with it, encode that, and write it
    /// with [`reseal_write`].
    Pending { encoding: SbomEncoding, contents: Vec<(String, Vec<u8>)>, sbom: Vec<u8> },
}

/// What resealing a rewritten archive with entries `e` comes to.
pub open spec fn resealing_of(e: Seq<EntryV>, r: Resealing) -> bool {
    match r {
        Resealing::Done(out) => encoding_for(entry_names(e)) is None && zip_entries(out@) == e,
        Resealing::Pending { encoding, contents, sbom } => encoding_for(entry_names(e)) == Some(encoding)
            && contents_view(contents@) == contents_of(e) && keys_sorted(kview(contents@))
            && last_named(e, encoding.entry_name_spec()) == Some(sbom@),
    }
}

/// Plan the reseal of a freshly rewritten archive.
pub(crate) fn reseal_step(rewritten: Vec<u8>) -> (r: Result<Resealing, PostProcessError>)
    ensures
        r matches Ok(s) ==> resealing_of(zip_entries(rewritten@), s),
        r matches Err(x) ==> is_archive_error(x),
        zip_readable(rewritten@) ==> r is Ok,
{
    match reseal_plan(rewritten.as_slice()) {
        Ok(ResealPlan::Unsealed) => Ok(Resealing::Done(rewritten)),
        Ok(ResealPlan::Reseal { encoding, contents, sbom }) => Ok(Resealing::Pending { encoding, contents, sbom }),
        Err(e) => Err(e),
    }
}

/// Write `manifest.cbor` back holding `manifest`, then reseal: the rewrite
/// of [`rewrite_manifest`], followed by the reseal plan of what it wrote.
pub fn rewrite_manifest_resealing(pack_bytes: &[u8], manifest: &[u8]) -> (r: Result<Resealing, PostProcessError>)
    ensures
        r matches Ok(s) ==> resealing_of(replace_named(zip_entries(pack_bytes@), "manifest.cbor"@, manifest@), s),
        r matches Err(x) ==> is_archive_error(x),
        !zip_opens(pack_bytes@) ==> (r matches Err(PostProcessError::OpenZip(_))),
        (rewritable(pack_bytes@) && data_fits(manifest@)) ==> r is Ok,
{
    match rewrite_manifest(pack_bytes, manifest) {
        Ok(out) => reseal_step(out),
        Err(e) => Err(e),
    }
}

/// A sorted run of entries answers a lookup of the last entry under a path
/// with the one entry under it.
pub proof fn lemma_sorted_last_named(t: Seq<EntryV>, q: Seq<char>)
    requires
        keys_sorted(t),
    ensures
        last_named(t, q) == kget(t, q),
{
    lemma_contents_get(t, q);
    lemma_contents_of_sorted(t);
}

/// A reseal keeps every path but the signatures and the SBOM's own: a
/// lookup reads the contents' bytes.
pub proof fn lemma_resealed_lookup(c: Seq<EntryV>, sbom_name: Seq<char>, sbom: Seq<u8>, q: Seq<char>)
    requires
        !is_signature(q),
        q != sbom_name,
    ensures
        last_named(resealed(c, sbom_name, sbom), q) == last_named(c, q),
    decreases c.len(),
{
    if c.len() > 0 {
        lemma_resealed_lookup(c.drop_last(), sbom_name, sbom, q);
        let r0 = resealed(c.drop_last(), sbom_name, sbom);
        if !is_signature(c.last().0) {
            if c.last().0 == sbom_name {
                assert(r0.push((sbom_name, sbom)).drop_last() =~= r0);
            } else {
                assert(r0.push(c.last()).drop_last() =~= r0);
            }
        }
    }
}

/// The law of a sealed sidecar injection. Whatever the old SBOM listed and
/// whatever bytes the new SBOM encodes to, the archive that adding `bytes`
/// under `name` and resealing writes
/// - holds `bytes` under `name`, where `name` is a content path;
/// - holds, under every other content path, what the pack held before;
/// - carries no signature file;
/// - has an SBOM whose rows claim exactly its content entries (path, size,
///   blake3 digest), in order.
pub proof fn lemma_sidecar_resealed(
    e: Seq<EntryV>,
    name: Seq<char>,
    bytes: Seq<u8>,
    encoding: SbomEncoding,
    files: Seq<SbomEntry>,
    sbom: Seq<u8>,
)
    ensures
        ({
            let c = contents_of(kept(e, seq![name]).push((name, bytes)));
            let out = resealed(c, encoding.entry_name_spec(), sbom);
            &&& !self_describing(name) ==> last_named(out, name) == Some(bytes)
            &&& forall|q: Seq<char>| !self_describing(q) && q != name ==> #[trigger] last_named(out, q) == last_named(e, q)
            &&& forall|i: int| 0 <= i < out.len() ==> !is_signature(#[trigger] out[i].0)
            &&& claims(inventory(c, files)) == content_listing(out)
        }),
{
    let t = kept(e, seq![name]).push((name, bytes));
    let c = contents_of(t);
    let n = encoding.entry_name_spec();
    let out = resealed(c, n, sbom);
    reveal_strlit("sbom.json");
    reveal_strlit("sbom.cbor");
    assert(self_describing(n));
    lemma_contents_get(t, name);
    if !self_describing(name) {
        lemma_resealed_lookup(c, n, sbom, name);
        lemma_sorted_last_named(c, name);
        lemma_sidecar_reads_back(e, name, bytes, name);
    }
    assert forall|q: Seq<char>| !self_describing(q) && q != name implies #[trigger] last_named(out, q) == last_named(e, q) by {
        lemma_contents_get(t, q);
        lemma_resealed_lookup(c, n, sbom, q);
        lemma_sorted_last_named(c, q);
        lemma_sidecar_reads_back(e, name, bytes, q);
    }
    lemma_resealed_unsigned(c, encoding, sbom);
    lemma_reseal_describes_archive(c, files, encoding, sbom);
}

} // verus!
