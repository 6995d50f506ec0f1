//! Rewrites of a built `.gtpack` archive: adding or replacing a sidecar
//! entry, dropping entries, and the archive side of filling
//! `manifest.cbor`'s flows from the pack's `flows/*.ygtc` sources. Every
//! rewrite copies the entries it keeps verbatim, in their order.
use std::io::Cursor;
use vstd::prelude::*;
use zip::result::ZipError;
use zip::ZipArchive;
use crate::archive::{
    EntryV, ReadFailure, PackWriter, archive_entries, entry_names, writer_entries, zip_entries,
    zip_entry_name, zip_finish, zip_len, zip_open, zip_read_entry, zip_start_file, zip_write_all,
    zip_writer_new, zip_read_entry_text, archive_source, zip_opens, zip_name_ok, zip_read_ok, zip_readable,
    name_fits, data_fits, entries_fit,
};
use crate::manifest::{decoded_manifest, manifest_flow_count};
use crate::text::{chars_of, string_from_chars};
use crate::seal::{Resealing, reseal_step, resealing_of};

verus! {

/// Why a pack rewrite failed.
#[derive(Debug)]
pub enum PostProcessError {
    /// The archive could not be opened, an entry could not be found or
    /// started, or the new archive could not be finished.
    OpenZip(ZipError),
    /// An entry's contents could not be read.
    ReadEntry { entry: String, source: std::io::Error },
    /// An entry's contents could not be written.
    WriteEntry { entry: String, source: std::io::Error },
    DecodeManifest(String),
    EncodeManifest(String),
    CompileFlow { name: String, error: String },
    MissingManifest,
    Sbom(String),
}

/// A failure of the zip layer itself (as opposed to manifest, flow or SBOM
/// handling).
pub open spec fn is_archive_error(e: PostProcessError) -> bool {
    e is OpenZip || e is ReadEntry || e is WriteEntry
}

/// The entries of `e` whose names are not in `drop`, in their order.
pub open spec fn kept(e: Seq<EntryV>, drop: Seq<Seq<char>>) -> Seq<EntryV>
    decreases e.len(),
{
    if e.len() == 0 {
        e
    } else if drop.contains(e.last().0) {
        kept(e.drop_last(), drop)
    } else {
        kept(e.drop_last(), drop).push(e.last())
    }
}

/// Entries a rewrite can copy into a new archive: distinct names, each
/// short enough for a local header, and contents clear of ZIP64 sizes.
pub open spec fn copyable(e: Seq<EntryV>) -> bool {
    &&& forall|i: int, j: int| 0 <= i < j < e.len() ==> #[trigger] e[i].0 != #[trigger] e[j].0
    &&& forall|i: int| 0 <= i < e.len() ==> name_fits(#[trigger] e[i].0)
    &&& entries_fit(e)
}

/// An archive a rewrite owes success on: it reads in full, and its entries
/// can be copied.
pub open spec fn rewritable(bytes: Seq<u8>) -> bool {
    zip_readable(bytes) && copyable(zip_entries(bytes))
}

/// Every entry kept is an entry of `e`.
pub proof fn lemma_kept_from(e: Seq<EntryV>, drop: Seq<Seq<char>>)
    ensures
        forall|k: int| 0 <= k < kept(e, drop).len() ==> exists|j: int| 0 <= j < e.len() && #[trigger] kept(e, drop)[k] == e[j],
    decreases e.len(),
{
    if e.len() > 0 {
        let e0 = e.drop_last();
        lemma_kept_from(e0, drop);
        let k0 = kept(e0, drop);
        assert forall|k: int| 0 <= k < kept(e, drop).len() implies exists|j: int| 0 <= j < e.len() && #[trigger] kept(e, drop)[k] == e[j] by {
            if k < k0.len() {
                assert(kept(e, drop)[k] == k0[k]);
                let j = choose|j: int| 0 <= j < e0.len() && k0[k] == e0[j];
                assert(e[j] == e0[j]);
            } else {
                assert(kept(e, drop)[k] == e[e.len() - 1]);
            }
        }
    }
}

/// Keeping some entries of copyable entries leaves copyable entries.
pub proof fn lemma_kept_copyable(e: Seq<EntryV>, drop: Seq<Seq<char>>)
    requires
        copyable(e),
    ensures
        copyable(kept(e, drop)),
    decreases e.len(),
{
    if e.len() > 0 {
        let e0 = e.drop_last();
        assert(copyable(e0)) by {
            assert forall|i: int| 0 <= i < e0.len() implies data_fits(#[trigger] e0[i].1) by {
                assert(e0[i] == e[i]);
            }
            assert forall|i: int| 0 <= i < e0.len() implies name_fits(#[trigger] e0[i].0) by {
                assert(e0[i] == e[i]);
            }
            assert forall|i: int, j: int| 0 <= i < j < e0.len() implies #[trigger] e0[i].0 != #[trigger] e0[j].0 by {
                assert(e0[i] == e[i] && e0[j] == e[j]);
            }
        }
        lemma_kept_copyable(e0, drop);
        if !drop.contains(e.last().0) {
            let k0 = kept(e0, drop);
            let k = k0.push(e.last());
            lemma_kept_from(e0, drop);
            assert forall|a: int, b: int| 0 <= a < b < k.len() implies #[trigger] k[a].0 != #[trigger] k[b].0 by {
                if b == k0.len() {
                    let j = choose|j: int| 0 <= j < e0.len() && #[trigger] k0[a] == e0[j];
                    assert(k0[a] == e[j]);
                    assert(k[a] == k0[a]);
                } else {
                    assert(k[a] == k0[a] && k[b] == k0[b]);
                }
            }
            assert forall|a: int| 0 <= a < k.len() implies name_fits(#[trigger] k[a].0) by {
                if a < k0.len() {
                    assert(k[a] == k0[a]);
                }
            }
            assert forall|a: int| 0 <= a < k.len() implies data_fits(#[trigger] k[a].1) by {
                if a < k0.len() {
                    assert(k[a] == k0[a]);
                }
            }
        }
    }
}

/// Copying the first `i` kept entries of copyable entries leaves entry
/// `i`'s name fresh and every copied entry's contents clear of ZIP64 sizes.
pub proof fn lemma_kept_prefix_fresh(e: Seq<EntryV>, drop: Seq<Seq<char>>, i: int)
    requires
        copyable(e),
        0 <= i < e.len(),
    ensures
        !entry_names(kept(e.take(i), drop)).contains(e[i].0),
        entries_fit(kept(e.take(i), drop)),
{
    let p = e.take(i);
    let k = kept(p, drop);
    assert(copyable(p)) by {
        assert forall|a: int| 0 <= a < p.len() implies data_fits(#[trigger] p[a].1) by {
            assert(p[a] == e[a]);
        }
        assert forall|a: int| 0 <= a < p.len() implies name_fits(#[trigger] p[a].0) by {
            assert(p[a] == e[a]);
        }
        assert forall|a: int, b: int| 0 <= a < b < p.len() implies #[trigger] p[a].0 != #[trigger] p[b].0 by {
            assert(p[a] == e[a] && p[b] == e[b]);
        }
    }
    lemma_kept_copyable(p, drop);
    lemma_kept_from(p, drop);
    if entry_names(k).contains(e[i].0) {
        let a = choose|a: int| 0 <= a < entry_names(k).len() && entry_names(k)[a] == e[i].0;
        let j = choose|j: int| 0 <= j < p.len() && #[trigger] k[a] == p[j];
        assert(p[j] == e[j]);
        assert(e[j].0 != e[i].0);
    }
}

/// The views of a run of string slices.
pub open spec fn str_views(s: Seq<&str>) -> Seq<Seq<char>> {
    Seq::new(s.len(), |i: int| s[i]@)
}

/// The views of a run of strings.
pub open spec fn string_views(s: Seq<String>) -> Seq<Seq<char>> {
    Seq::new(s.len(), |i: int| s[i]@)
}

/// No entry kept has a name from `drop`.
pub proof fn lemma_kept_drops(e: Seq<EntryV>, drop: Seq<Seq<char>>)
    ensures
        forall|i: int| 0 <= i < kept(e, drop).len() ==> !drop.contains(#[trigger] kept(e, drop)[i].0),
    decreases e.len(),
{
    if e.len() > 0 {
        lemma_kept_drops(e.drop_last(), drop);
        let k0 = kept(e.drop_last(), drop);
        if !drop.contains(e.last().0) {
            assert forall|i: int| 0 <= i < kept(e, drop).len() implies !drop.contains(#[trigger] kept(e, drop)[i].0) by {
                if i < k0.len() {
                    assert(kept(e, drop)[i] == k0[i]);
                }
            }
        }
    }
}

/// Where no entry is named in `drop`, every entry is kept.
pub proof fn lemma_kept_all(e: Seq<EntryV>, drop: Seq<Seq<char>>)
    requires
        forall|i: int| 0 <= i < e.len() ==> !drop.contains(#[trigger] e[i].0),
    ensures
        kept(e, drop) == e,
    decreases e.len(),
{
    if e.len() > 0 {
        lemma_kept_all(e.drop_last(), drop);
        assert(e.drop_last().push(e.last()) =~= e);
    }
}

/// Removing is idempotent: what is kept keeps everything the second time.
pub proof fn lemma_kept_idempotent(e: Seq<EntryV>, drop: Seq<Seq<char>>)
    ensures
        kept(kept(e, drop), drop) == kept(e, drop),
{
    lemma_kept_drops(e, drop);
    lemma_kept_all(kept(e, drop), drop);
}

/// Removal keeps the other entries: an entry whose name is not dropped is
/// found under its name as before.
pub proof fn lemma_kept_lookup(e: Seq<EntryV>, drop: Seq<Seq<char>>, q: Seq<char>)
    requires
        !drop.contains(q),
    ensures
        crate::seal::last_named(kept(e, drop), q) == crate::seal::last_named(e, q),
    decreases e.len(),
{
    if e.len() > 0 {
        lemma_kept_lookup(e.drop_last(), drop, q);
        let k0 = kept(e.drop_last(), drop);
        if drop.contains(e.last().0) {
            assert(e.last().0 != q);
        } else {
            assert(k0.push(e.last()).drop_last() =~= k0);
        }
    }
}

/// The sidecar law: after injecting `bytes` under `name`, the archive holds
/// `bytes` under `name`, and under every other name what it held before.
pub proof fn lemma_sidecar_reads_back(e: Seq<EntryV>, name: Seq<char>, bytes: Seq<u8>, q: Seq<char>)
    ensures
        crate::seal::last_named(kept(e, seq![name]).push((name, bytes)), name) == Some(bytes),
        q != name ==> crate::seal::last_named(kept(e, seq![name]).push((name, bytes)), q) == crate::seal::last_named(e, q),
{
    let t = kept(e, seq![name]).push((name, bytes));
    assert(t.drop_last() =~= kept(e, seq![name]));
    if q != name {
        assert(!seq![name].contains(q)) by {
            if seq![name].contains(q) {
                let j = choose|j: int| 0 <= j < 1 && seq![name][j] == q;
                assert(seq![name][j] == name);
            }
        }
        lemma_kept_lookup(e, seq![name], q);
    }
}

/// Re-injecting under the same name replaces: injecting `a` then `b` under
/// `name` gives the same entries as injecting `b` alone.
pub proof fn lemma_sidecar_reinject(e: Seq<EntryV>, name: Seq<char>, a: Seq<u8>, b: Seq<u8>)
    ensures
        kept(kept(e, seq![name]).push((name, a)), seq![name]).push((name, b)) == kept(e, seq![name]).push((name, b)),
{
    let once = kept(e, seq![name]);
    assert(once.push((name, a)).drop_last() =~= once);
    assert(once.push((name, a)).last() == (name, a));
    assert(seq![name].contains(name)) by {
        assert(seq![name][0] == name);
    }
    assert(kept(once.push((name, a)), seq![name]) == kept(once, seq![name]));
    lemma_kept_idempotent(e, seq![name]);
}

/// Whether `n` is one of `names`.
fn listed(names: &[&str], n: &str) -> (r: bool)
    ensures
        r == str_views(names@).contains(n@),
{
    let mut i: usize = 0;
    while i < names.len()
        invariant
            0 <= i <= names@.len(),
            forall|j: int| 0 <= j < i ==> names@[j]@ != n@,
        decreases names@.len() - i,
    {
        if names[i].to_owned() == n.to_owned() {
            assert(str_views(names@)[i as int] == n@);
            return true;
        }
        i = i + 1;
    }
    proof {
        if str_views(names@).contains(n@) {
            let j = choose|j: int| 0 <= j < str_views(names@).len() && str_views(names@)[j] == n@;
            assert(names@[j]@ == n@);
        }
    }
    false
}

/// Every entry name of an open archive, in order.
pub(crate) fn read_names(a: &ZipArchive<Cursor<Vec<u8>>>) -> (r: Result<Vec<String>, PostProcessError>)
    ensures
        r matches Ok(v) ==> string_views(v@) == entry_names(archive_entries(*a)),
        r matches Err(e) ==> e is OpenZip,
        (forall|i: int| 0 <= i < archive_entries(*a).len() ==> #[trigger] zip_name_ok(archive_source(*a), i)) ==> r is Ok,
{
    let n = zip_len(a);
    let mut names: Vec<String> = Vec::new();
    let mut i: usize = 0;
    while i < n
        invariant
            0 <= i <= n,
            n == archive_entries(*a).len(),
            string_views(names@) =~= entry_names(archive_entries(*a)).take(i as int),
        decreases n - i,
    {
        match zip_entry_name(a, i) {
            Ok(name) => {
                let ghost before = names@;
                names.push(name);
                assert(string_views(names@) =~= string_views(before).push(name@));
            },
            Err(e) => {
                return Err(PostProcessError::OpenZip(e));
            },
        }
        i = i + 1;
    }
    assert(entry_names(archive_entries(*a)).take(n as int) =~= entry_names(archive_entries(*a)));
    Ok(names)
}

/// Read entry `i` (named `name`) of an open archive.
pub(crate) fn read_entry_at(a: &mut ZipArchive<Cursor<Vec<u8>>>, i: usize, name: &String) -> (r: Result<Vec<u8>, PostProcessError>)
    requires
        i < archive_entries(*old(a)).len(),
    ensures
        archive_entries(*final(a)) == archive_entries(*old(a)),
        archive_source(*final(a)) == archive_source(*old(a)),
        r matches Ok(d) ==> d@ == archive_entries(*old(a))[i as int].1,
        r matches Err(e) ==> (e is OpenZip || e is ReadEntry),
        zip_read_ok(archive_source(*old(a)), i as int) ==> r is Ok,
{
    match zip_read_entry(a, i) {
        Ok(d) => Ok(d),
        Err(ReadFailure::Open(e)) => Err(PostProcessError::OpenZip(e)),
        Err(ReadFailure::Read(source)) => Err(PostProcessError::ReadEntry { entry: name.clone(), source }),
    }
}

/// Append one entry, `name` holding `data`, to the archive being written.
pub(crate) fn write_entry(w: &mut PackWriter, name: &str, data: &[u8]) -> (r: Result<(), PostProcessError>)
    ensures
        r is Ok ==> writer_entries(*final(w)) == writer_entries(*old(w)).push((name@, data@)),
        r is Ok ==> !entry_names(writer_entries(*old(w))).contains(name@),
        r matches Err(e) ==> (e is OpenZip || e is WriteEntry),
        (!entry_names(writer_entries(*old(w))).contains(name@) && name_fits(name@) && data_fits(data@) && entries_fit(
            writer_entries(*old(w)),
        )) ==> r is Ok,
{
    match zip_start_file(w, name) {
        Ok(()) => {},
        Err(e) => {
            return Err(PostProcessError::OpenZip(e));
        },
    }
    let ghost started = writer_entries(*w);
    assert(started.last().1 + data@ =~= data@);
    match zip_write_all(w, data) {
        Ok(()) => {},
        Err(source) => {
            return Err(PostProcessError::WriteEntry { entry: name.to_owned(), source });
        },
    }
    assert(Seq::<u8>::empty() + data@ =~= data@);
    assert(writer_entries(*w) =~= writer_entries(*old(w)).push((name@, data@)));
    Ok(())
}

/// Copy, in order, every entry of the archive whose name is not in `drop`
/// into the writer. Into a fresh writer, copyable entries that all read
/// back are copied without fail.
fn copy_entries(
    a: &mut ZipArchive<Cursor<Vec<u8>>>,
    names: &Vec<String>,
    drop: &[&str],
    w: &mut PackWriter,
) -> (r: Result<(), PostProcessError>)
    requires
        string_views(names@) == entry_names(archive_entries(*old(a))),
    ensures
        archive_entries(*final(a)) == archive_entries(*old(a)),
        archive_source(*final(a)) == archive_source(*old(a)),
        r is Ok ==> writer_entries(*final(w)) == writer_entries(*old(w)) + kept(archive_entries(*old(a)), str_views(drop@)),
        r matches Err(e) ==> is_archive_error(e),
        (writer_entries(*old(w)).len() == 0 && copyable(archive_entries(*old(a))) && forall|j: int|
            0 <= j < archive_entries(*old(a)).len() ==> #[trigger] zip_read_ok(archive_source(*old(a)), j)) ==> r is Ok,
{
    let ghost src = archive_entries(*a);
    let ghost source = archive_source(*a);
    let ghost w0 = writer_entries(*w);
    let ghost dr = str_views(drop@);
    let ghost good = w0.len() == 0 && copyable(src) && forall|j: int| 0 <= j < src.len() ==> #[trigger] zip_read_ok(source, j);
    let mut i: usize = 0;
    assert(names@.len() == string_views(names@).len());
    assert(src.take(0) =~= Seq::<EntryV>::empty());
    assert(w0 + kept(src.take(0), dr) =~= w0);
    while i < names.len()
        invariant
            0 <= i <= names@.len(),
            names@.len() == src.len(),
            string_views(names@) == entry_names(src),
            archive_entries(*a) == src,
            archive_source(*a) == source,
            src == archive_entries(*old(a)),
            source == archive_source(*old(a)),
            dr == str_views(drop@),
            w0 == writer_entries(*old(w)),
            good == (w0.len() == 0 && copyable(src) && forall|j: int| 0 <= j < src.len() ==> #[trigger] zip_read_ok(source, j)),
            writer_entries(*w) == w0 + kept(src.take(i as int), dr),
        decreases names@.len() - i,
    {
        assert(string_views(names@)[i as int] == names@[i as int]@);
        assert(src.take(i + 1).drop_last() =~= src.take(i as int));
        assert(src.take(i + 1).last() == src[i as int]);
        if listed(drop, names[i].as_str()) {
            assert(kept(src.take(i + 1), dr) == kept(src.take(i as int), dr));
        } else {
            proof {
                if good {
                    assert(zip_read_ok(source, i as int));
                    lemma_kept_prefix_fresh(src, dr, i as int);
                    assert(w0 + kept(src.take(i as int), dr) =~= kept(src.take(i as int), dr));
                }
            }
            let data = match read_entry_at(a, i, &names[i]) {
                Ok(d) => d,
                Err(e) => {
                    return Err(e);
                },
            };
            let nm = names[i].as_str();
            let ds = data.as_slice();
            proof {
                if good {
                    assert(nm@ == src[i as int].0);
                    assert(name_fits(src[i as int].0));
                    assert(data_fits(src[i as int].1));
                }
            }
            match write_entry(w, nm, ds) {
                Ok(()) => {},
                Err(e) => {
                    return Err(e);
                },
            }
            assert(kept(src.take(i + 1), dr) == kept(src.take(i as int), dr).push(src[i as int]));
            assert(w0 + kept(src.take(i + 1), dr) =~= (w0 + kept(src.take(i as int), dr)).push(src[i as int]));
        }
        i = i + 1;
    }
    assert(src.take(names@.len() as int) =~= src);
    Ok(())
}

/// The rewrite that adds (or replaces) the entry `entry_name` holding
/// `entry_bytes`: every other entry is copied verbatim, in order, and the
/// new entry comes last. Re-injecting the same name replaces the earlier
/// bytes. The entries copied include any SBOM and signature: the reseal
/// that follows is [`inject_sidecar`]'s.
///
/// A pack that does not open is refused with `OpenZip`; a pack that reads
/// in full and whose entries can be copied is rewritten without fail.
pub fn rewrite_with_sidecar(pack_bytes: &[u8], entry_name: &str, entry_bytes: &[u8]) -> (r: Result<Vec<u8>, PostProcessError>)
    ensures
        r matches Ok(out) ==> zip_entries(out@) == kept(zip_entries(pack_bytes@), seq![entry_name@]).push(
            (entry_name@, entry_bytes@),
        ),
        r matches Ok(out) ==> zip_readable(out@),
        r matches Err(e) ==> is_archive_error(e),
        !zip_opens(pack_bytes@) ==> r matches Err(PostProcessError::OpenZip(_)),
        (rewritable(pack_bytes@) && name_fits(entry_name@) && data_fits(entry_bytes@)) ==> r is Ok,
{
    let mut archive = match zip_open(pack_bytes) {
        Ok(a) => a,
        Err(e) => {
            return Err(PostProcessError::OpenZip(e));
        },
    };
    let names = match read_names(&archive) {
        Ok(n) => n,
        Err(e) => {
            return Err(e);
        },
    };
    let mut w = zip_writer_new();
    let drop: [&str; 1] = [entry_name];
    assert(str_views(drop@) =~= seq![entry_name@]);
    match copy_entries(&mut archive, &names, drop.as_slice(), &mut w) {
        Ok(()) => {},
        Err(e) => {
            return Err(e);
        },
    }
    proof {
        let e = zip_entries(pack_bytes@);
        assert(writer_entries(w) =~= kept(e, seq![entry_name@]));
        if rewritable(pack_bytes@) {
            lemma_kept_copyable(e, seq![entry_name@]);
            lemma_kept_drops(e, seq![entry_name@]);
            assert(seq![entry_name@].contains(entry_name@)) by {
                assert(seq![entry_name@][0] == entry_name@);
            }
            assert(!entry_names(writer_entries(w)).contains(entry_name@));
        }
    }
    match write_entry(&mut w, entry_name, entry_bytes) {
        Ok(()) => {},
        Err(e) => {
            return Err(e);
        },
    }
    let ghost written = writer_entries(w);
    proof {
        let k = kept(zip_entries(pack_bytes@), seq![entry_name@]);
        assert(written =~= k.push((entry_name@, entry_bytes@)));
        if rewritable(pack_bytes@) && data_fits(entry_bytes@) {
            assert forall|i: int| 0 <= i < written.len() implies data_fits(#[trigger] written[i].1) by {
                if i < k.len() {
                    assert(written[i] == k[i]);
                }
            }
        }
    }
    match zip_finish(w) {
        Ok(out) => Ok(out),
        Err(e) => Err(PostProcessError::OpenZip(e)),
    }
}

/// The rewrite that drops every entry named in `entry_names`, copying the
/// rest verbatim and in order. Names the archive does not carry are
/// ignored. The reseal that follows is [`remove_entries`]'s.
///
/// A pack that does not open is refused with `OpenZip`; a pack that reads
/// in full and whose entries can be copied is rewritten without fail.
pub fn rewrite_without(pack_bytes: &[u8], entry_names: &[&str]) -> (r: Result<Vec<u8>, PostProcessError>)
    ensures
        r matches Ok(out) ==> zip_entries(out@) == kept(zip_entries(pack_bytes@), str_views(entry_names@)),
        r matches Ok(out) ==> zip_readable(out@),
        r matches Err(e) ==> is_archive_error(e),
        !zip_opens(pack_bytes@) ==> r matches Err(PostProcessError::OpenZip(_)),
        rewritable(pack_bytes@) ==> r is Ok,
{
    let mut archive = match zip_open(pack_bytes) {
        Ok(a) => a,
        Err(e) => {
            return Err(PostProcessError::OpenZip(e));
        },
    };
    let names = match read_names(&archive) {
        Ok(n) => n,
        Err(e) => {
            return Err(e);
        },
    };
    let mut w = zip_writer_new();
    match copy_entries(&mut archive, &names, entry_names, &mut w) {
        Ok(()) => {},
        Err(e) => {
            return Err(e);
        },
    }
    let ghost written = writer_entries(w);
    assert(written =~= kept(zip_entries(pack_bytes@), str_views(entry_names@)));
    proof {
        if rewritable(pack_bytes@) {
            lemma_kept_copyable(zip_entries(pack_bytes@), str_views(entry_names@));
        }
    }
    match zip_finish(w) {
        Ok(out) => Ok(out),
        Err(e) => Err(PostProcessError::OpenZip(e)),
    }
}

/// Add (or replace) the entry `entry_name` holding `entry_bytes`, then
/// reseal: the rewrite of [`rewrite_with_sidecar`], followed by the reseal
/// plan of what it wrote (an SBOM recomputed from the contents, the
/// signatures dropped). What the resealed pack holds is stated by
/// [`crate::seal::lemma_sidecar_resealed`].
///
/// A pack that does not open is refused with `OpenZip`; a pack that reads
/// in full and whose entries can be copied is rewritten without fail.
pub fn inject_sidecar(pack_bytes: &[u8], entry_name: &str, entry_bytes: &[u8]) -> (r: Result<Resealing, PostProcessError>)
    ensures
        r matches Ok(s) ==> resealing_of(kept(zip_entries(pack_bytes@), seq![entry_name@]).push((entry_name@, entry_bytes@)), s),
        r matches Err(x) ==> is_archive_error(x),
        !zip_opens(pack_bytes@) ==> (r matches Err(PostProcessError::OpenZip(_))),
        (rewritable(pack_bytes@) && name_fits(entry_name@) && data_fits(entry_bytes@)) ==> r is Ok,
{
    match rewrite_with_sidecar(pack_bytes, entry_name, entry_bytes) {
        Ok(out) => reseal_step(out),
        Err(e) => Err(e),
    }
}

/// Drop every entry named in `entry_names`, then reseal: the rewrite of
/// [`rewrite_without`], followed by the reseal plan of what it wrote.
///
/// A pack that does not open is refused with `OpenZip`; a pack that reads
/// in full and whose entries can be copied is rewritten without fail.
pub fn remove_entries(pack_bytes: &[u8], entry_names: &[&str]) -> (r: Result<Resealing, PostProcessError>)
    ensures
        r matches Ok(s) ==> resealing_of(kept(zip_entries(pack_bytes@), str_views(entry_names@)), s),
        r matches Err(x) ==> is_archive_error(x),
        !zip_opens(pack_bytes@) ==> (r matches Err(PostProcessError::OpenZip(_))),
        rewritable(pack_bytes@) ==> r is Ok,
{
    match rewrite_without(pack_bytes, entry_names) {
        Ok(out) => reseal_step(out),
        Err(e) => Err(e),
    }
}

/// `p` starts `s`.
pub open spec fn has_prefix(s: Seq<char>, p: Seq<char>) -> bool {
    p.len() <= s.len() && s.subrange(0, p.len() as int) == p
}

/// `p` ends `s`.
pub open spec fn has_suffix(s: Seq<char>, p: Seq<char>) -> bool {
    p.len() <= s.len() && s.subrange(s.len() - p.len(), s.len() as int) == p
}

/// `str::trim_start_matches`: every leading copy of `p` removed.
pub open spec fn trim_start_all(s: Seq<char>, p: Seq<char>) -> Seq<char>
    decreases s.len(),
{
    if p.len() > 0 && has_prefix(s, p) {
        trim_start_all(s.subrange(p.len() as int, s.len() as int), p)
    } else {
        s
    }
}

/// `str::trim_end_matches`: every trailing copy of `p` removed.
pub open spec fn trim_end_all(s: Seq<char>, p: Seq<char>) -> Seq<char>
    decreases s.len(),
{
    if p.len() > 0 && has_suffix(s, p) {
        trim_end_all(s.subrange(0, s.len() - p.len()), p)
    } else {
        s
    }
}

/// A flow source: an entry named `flows/<...>.ygtc`.
pub open spec fn is_flow_source(name: Seq<char>) -> bool {
    has_prefix(name, "flows/"@) && has_suffix(name, ".ygtc"@)
}

/// The logical flow name of a flow source: the `flows/` prefixes and the
/// `.ygtc` suffixes stripped.
pub open spec fn logical_flow_name(name: Seq<char>) -> Seq<char> {
    trim_end_all(trim_start_all(name, "flows/"@), ".ygtc"@)
}

/// The flow sources among the entries, in order.
pub open spec fn flow_sources(e: Seq<EntryV>) -> Seq<EntryV>
    decreases e.len(),
{
    if e.len() == 0 {
        e
    } else if is_flow_source(e.last().0) {
        flow_sources(e.drop_last()).push(e.last())
    } else {
        flow_sources(e.drop_last())
    }
}

/// The contents of the last entry named `manifest.cbor`, if any.
pub open spec fn manifest_of(e: Seq<EntryV>) -> Option<Seq<u8>>
    decreases e.len(),
{
    if e.len() == 0 {
        None
    } else if e.last().0 == "manifest.cbor"@ {
        Some(e.last().1)
    } else {
        manifest_of(e.drop_last())
    }
}

/// A flow to compile into `manifest.cbor`: its logical name and its YGTC.
pub struct FlowSource {
    pub name: String,
    pub ygtc: String,
}

/// What filling `manifest.cbor`'s flows comes to for a pack.
pub enum FlowFill {
    /// The pack stays as it is: it carries no flow source, or its manifest
    /// already lists flows (a producer's own, which a rebuild would clobber).
    Unchanged,
    /// Compile each source, in order, into the manifest (which decodes and
    /// lists no flow yet), then write it back with [`rewrite_manifest`].
    Compile { sources: Vec<FlowSource>, manifest: Vec<u8> },
}

/// The sources, as (logical name, text) pairs, of the flow-source entries.
pub open spec fn source_views(s: Seq<FlowSource>) -> Seq<(Seq<char>, Seq<char>)> {
    Seq::new(s.len(), |i: int| (s[i].name@, s[i].ygtc@))
}

/// Each flow source entry as (logical name, decoded text).
pub open spec fn decoded_sources(e: Seq<EntryV>) -> Seq<(Seq<char>, Seq<char>)> {
    Seq::new(e.len(), |i: int| (logical_flow_name(e[i].0), vstd::utf8::decode_utf8(e[i].1)))
}

/// Every flow source entry holds valid UTF-8.
pub open spec fn sources_are_text(e: Seq<EntryV>) -> bool {
    forall|i: int| 0 <= i < e.len() ==> vstd::utf8::valid_utf8(#[trigger] e[i].1)
}

/// Every flow-source entry holds valid UTF-8.
pub open spec fn flows_are_text(e: Seq<EntryV>) -> bool {
    forall|i: int| #![trigger e[i]] 0 <= i < e.len() && is_flow_source(e[i].0) ==> vstd::utf8::valid_utf8(e[i].1)
}

/// What filling the flows comes to on a pack that reads in full: no
/// manifest is refused; no flow source, or a manifest that already lists
/// flows, leaves the pack unchanged; a manifest that lists none is compiled
/// into; one that does not decode is refused with the decoder's message.
pub open spec fn fill_owed(e: Seq<EntryV>, r: Result<FlowFill, PostProcessError>) -> bool {
    match manifest_of(e) {
        None => match r {
            Err(PostProcessError::MissingManifest) => true,
            _ => false,
        },
        Some(m) => if flow_sources(e).len() == 0 {
            match r {
                Ok(FlowFill::Unchanged) => true,
                _ => false,
            }
        } else {
            match decoded_manifest(m) {
                Ok(n) => match r {
                    Ok(FlowFill::Unchanged) => n > 0,
                    Ok(FlowFill::Compile { .. }) => n == 0,
                    _ => false,
                },
                Err(msg) => match r {
                    Err(PostProcessError::DecodeManifest(x)) => x@ == msg,
                    _ => false,
                },
            }
        },
    }
}

pub(crate) fn starts_with_chars(s: &Vec<char>, p: &Vec<char>) -> (r: bool)
    ensures
        r == has_prefix(s@, p@),
{
    if p.len() > s.len() {
        return false;
    }
    let mut i: usize = 0;
    while i < p.len()
        invariant
            0 <= i <= p.len() <= s.len(),
            forall|j: int| 0 <= j < i ==> s@[j] == p@[j],
        decreases p.len() - i,
    {
        if s[i] != p[i] {
            assert(s@.subrange(0, p.len() as int)[i as int] != p@[i as int]);
            return false;
        }
        i = i + 1;
    }
    assert(s@.subrange(0, p.len() as int) =~= p@);
    true
}

pub(crate) fn ends_with_chars(s: &Vec<char>, p: &Vec<char>) -> (r: bool)
    ensures
        r == has_suffix(s@, p@),
{
    if p.len() > s.len() {
        return false;
    }
    let off = s.len() - p.len();
    let mut i: usize = 0;
    while i < p.len()
        invariant
            0 <= i <= p.len() <= s.len(),
            off == s.len() - p.len(),
            forall|j: int| 0 <= j < i ==> s@[off + j] == p@[j],
        decreases p.len() - i,
    {
        if s[off + i] != p[i] {
            assert(s@.subrange(off as int, s.len() as int)[i as int] != p@[i as int]);
            return false;
        }
        i = i + 1;
    }
    assert(s@.subrange(off as int, s.len() as int) =~= p@);
    true
}

/// `s` with every leading copy of `p` removed.
fn trim_start_chars(s: Vec<char>, p: &Vec<char>) -> (r: Vec<char>)
    ensures
        r@ == trim_start_all(s@, p@),
    decreases s@.len(),
{
    if p.len() > 0 && starts_with_chars(&s, p) {
        let mut rest: Vec<char> = Vec::new();
        let mut i: usize = p.len();
        while i < s.len()
            invariant
                p.len() <= i <= s.len(),
                rest@ =~= s@.subrange(p.len() as int, i as int),
            decreases s.len() - i,
        {
            rest.push(s[i]);
            i = i + 1;
        }
        trim_start_chars(rest, p)
    } else {
        s
    }
}

/// `s` with every trailing copy of `p` removed.
fn trim_end_chars(s: Vec<char>, p: &Vec<char>) -> (r: Vec<char>)
    ensures
        r@ == trim_end_all(s@, p@),
    decreases s@.len(),
{
    if p.len() > 0 && ends_with_chars(&s, p) {
        let ghost orig = s@;
        let mut rest = s;
        let target = rest.len() - p.len();
        while rest.len() > target
            invariant
                target <= rest.len() <= orig.len(),
                rest@ =~= orig.subrange(0, rest.len() as int),
            decreases rest.len(),
        {
            rest.pop();
            assert(rest@ =~= orig.subrange(0, rest.len() as int));
        }
        trim_end_chars(rest, p)
    } else {
        s
    }
}

/// The logical flow name of a flow-source entry name.
fn logical_name(name: &str) -> (r: String)
    ensures
        r@ == logical_flow_name(name@),
{
    let prefix = chars_of("flows/");
    let suffix = chars_of(".ygtc");
    let a = trim_start_chars(chars_of(name), &prefix);
    let b = trim_end_chars(a, &suffix);
    string_from_chars(b.as_slice())
}

/// Whether an entry name is a flow source.
fn is_flow_source_name(name: &str) -> (r: bool)
    ensures
        r == is_flow_source(name@),
{
    let n = chars_of(name);
    starts_with_chars(&n, &chars_of("flows/")) && ends_with_chars(&n, &chars_of(".ygtc"))
}

/// Decide how `manifest.cbor`'s flows get filled: gather, in archive order,
/// every `flows/*.ygtc` source (by logical name) and the manifest's bytes.
///
/// Without a `manifest.cbor` the pack is refused (`MissingManifest`). With
/// no flow source, or with a manifest that already lists flows, the pack
/// stays as it is. A manifest that does not decode is refused with the
/// decoder's message (`DecodeManifest`).
pub fn populate_manifest_flows(pack_bytes: &[u8]) -> (r: Result<FlowFill, PostProcessError>)
    ensures
        ({
            let e = zip_entries(pack_bytes@);
            &&& r matches Ok(FlowFill::Unchanged) ==> manifest_of(e) is Some && (flow_sources(e).len() == 0
                || (decoded_manifest(manifest_of(e)->0) matches Ok(n) && n > 0))
            &&& r matches Ok(FlowFill::Compile { sources, manifest }) ==> manifest_of(e) == Some(manifest@)
                && decoded_manifest(manifest@) == Ok::<nat, Seq<char>>(0)
                && flow_sources(e).len() > 0
                && sources_are_text(flow_sources(e))
                && source_views(sources@) == decoded_sources(flow_sources(e))
            &&& r matches Err(PostProcessError::MissingManifest) ==> manifest_of(e) is None
            &&& r matches Err(PostProcessError::DecodeManifest(m)) ==> manifest_of(e) is Some
                && flow_sources(e).len() > 0 && decoded_manifest(manifest_of(e)->0) == Err::<nat, Seq<char>>(m@)
            &&& manifest_of(e) is None ==> r is Err
            &&& r matches Err(x) ==> (is_archive_error(x) || x is MissingManifest || x is DecodeManifest)
            &&& !zip_opens(pack_bytes@) ==> (r matches Err(PostProcessError::OpenZip(_)))
            &&& (zip_readable(pack_bytes@) && flows_are_text(e)) ==> fill_owed(e, r)
        }),
{
    let mut archive = match zip_open(pack_bytes) {
        Ok(a) => a,
        Err(e) => {
            return Err(PostProcessError::OpenZip(e));
        },
    };
    let names = match read_names(&archive) {
        Ok(n) => n,
        Err(e) => {
            return Err(e);
        },
    };
    let ghost src = archive_entries(archive);
    let ghost good = zip_readable(pack_bytes@) && flows_are_text(src);
    let mut sources: Vec<FlowSource> = Vec::new();
    let mut manifest: Option<Vec<u8>> = None;
    let mut i: usize = 0;
    assert(names@.len() == string_views(names@).len());
    assert(src.take(0) =~= Seq::<EntryV>::empty());
    while i < names.len()
        invariant
            0 <= i <= names@.len(),
            names@.len() == src.len(),
            string_views(names@) == entry_names(src),
            archive_entries(archive) == src,
            src == zip_entries(pack_bytes@),
            archive_source(archive) == pack_bytes@,
            zip_opens(pack_bytes@),
            good == (zip_readable(pack_bytes@) && flows_are_text(src)),
            sources_are_text(flow_sources(src.take(i as int))),
            source_views(sources@) == decoded_sources(flow_sources(src.take(i as int))),
            match manifest {
                Some(m) => manifest_of(src.take(i as int)) == Some(m@),
                None => manifest_of(src.take(i as int)) is None,
            },
        decreases names@.len() - i,
    {
        assert(string_views(names@)[i as int] == names@[i as int]@);
        let ghost pre = src.take(i as int);
        assert(src.take(i + 1).drop_last() =~= pre);
        assert(src.take(i + 1).last() == src[i as int]);
        let nm = names[i].as_str();
        assert(nm@ == src[i as int].0);
        proof {
            if good {
                assert(zip_read_ok(pack_bytes@, i as int));
            }
        }
        if is_flow_source_name(nm) {
            let text = match zip_read_entry_text(&mut archive, i) {
                Ok(t) => t,
                Err(ReadFailure::Open(e)) => {
                    return Err(PostProcessError::OpenZip(e));
                },
                Err(ReadFailure::Read(source)) => {
                    return Err(PostProcessError::ReadEntry { entry: names[i].clone(), source });
                },
            };
            let logical = logical_name(names[i].as_str());
            let ghost before = sources@;
            sources.push(FlowSource { name: logical, ygtc: text });
            assert(flow_sources(src.take(i + 1)) == flow_sources(pre).push(src[i as int]));
            assert(source_views(sources@) =~= source_views(before).push((logical@, text@)));
            assert(decoded_sources(flow_sources(src.take(i + 1))) =~= decoded_sources(flow_sources(pre)).push(
                (logical_flow_name(src[i as int].0), vstd::utf8::decode_utf8(src[i as int].1)),
            ));
            assert(names@[i as int]@ != "manifest.cbor"@) by {
                reveal_strlit("manifest.cbor");
                reveal_strlit("flows/");
                assert(has_prefix(names@[i as int]@, "flows/"@));
                assert(names@[i as int]@.subrange(0, 6)[0] == 'f');
            }
            assert(manifest_of(src.take(i + 1)) == manifest_of(pre));
        } else {
            assert(flow_sources(src.take(i + 1)) == flow_sources(pre));
            if names[i] == "manifest.cbor".to_owned() {
                let bytes = match read_entry_at(&mut archive, i, &names[i]) {
                    Ok(b) => b,
                    Err(e) => {
                        return Err(e);
                    },
                };
                manifest = Some(bytes);
                assert(manifest_of(src.take(i + 1)) == Some(src[i as int].1));
            } else {
                assert(manifest_of(src.take(i + 1)) == manifest_of(pre));
            }
        }
        i = i + 1;
    }
    assert(src.take(names@.len() as int) =~= src);
    let manifest = match manifest {
        Some(m) => m,
        None => {
            return Err(PostProcessError::MissingManifest);
        },
    };
    if sources.len() == 0 {
        return Ok(FlowFill::Unchanged);
    }
    match manifest_flow_count(manifest.as_slice()) {
        Err(m) => Err(PostProcessError::DecodeManifest(m)),
        Ok(n) => {
            if n > 0 {
                Ok(FlowFill::Unchanged)
            } else {
                Ok(FlowFill::Compile { sources, manifest })
            }
        },
    }
}

/// The entries with every entry named `name` holding `bytes` instead.
pub open spec fn replace_named(e: Seq<EntryV>, name: Seq<char>, bytes: Seq<u8>) -> Seq<EntryV> {
    Seq::new(e.len(), |i: int| if e[i].0 == name { (name, bytes) } else { e[i] })
}

/// Replacing contents keeps the names: over copyable entries, after the
/// first `i` replaced entries the name of entry `i` is fresh, and every
/// replaced entry's contents stay clear of ZIP64 sizes.
pub proof fn lemma_replace_prefix_fresh(e: Seq<EntryV>, name: Seq<char>, bytes: Seq<u8>, i: int)
    requires
        copyable(e),
        data_fits(bytes),
        0 <= i <= e.len(),
    ensures
        i < e.len() ==> !entry_names(replace_named(e, name, bytes).take(i)).contains(e[i].0),
        entries_fit(replace_named(e, name, bytes).take(i)),
{
    let t = replace_named(e, name, bytes).take(i);
    assert forall|a: int| 0 <= a < t.len() implies data_fits(#[trigger] t[a].1) by {
        assert(t[a] == replace_named(e, name, bytes)[a]);
    }
    if i < e.len() && entry_names(t).contains(e[i].0) {
        let a = choose|a: int| 0 <= a < entry_names(t).len() && entry_names(t)[a] == e[i].0;
        assert(t[a] == replace_named(e, name, bytes)[a]);
        assert(t[a].0 == e[a].0);
        assert(e[a].0 != e[i].0);
    }
}

/// Write the pack back with `manifest.cbor` holding `manifest`, every other
/// entry copied verbatim, all in their order. The sealed form, this rewrite
/// followed by a reseal, is [`crate::seal::rewrite_manifest_resealing`].
///
/// A pack that does not open is refused with `OpenZip`; a pack that reads
/// in full and whose entries can be copied is rewritten without fail.
pub fn rewrite_manifest(pack_bytes: &[u8], manifest: &[u8]) -> (r: Result<Vec<u8>, PostProcessError>)
    ensures
        r matches Ok(out) ==> zip_entries(out@) == replace_named(zip_entries(pack_bytes@), "manifest.cbor"@, manifest@),
        r matches Ok(out) ==> zip_readable(out@),
        r matches Err(e) ==> is_archive_error(e),
        !zip_opens(pack_bytes@) ==> r matches Err(PostProcessError::OpenZip(_)),
        (rewritable(pack_bytes@) && data_fits(manifest@)) ==> r is Ok,
{
    let mut archive = match zip_open(pack_bytes) {
        Ok(a) => a,
        Err(e) => {
            return Err(PostProcessError::OpenZip(e));
        },
    };
    let names = match read_names(&archive) {
        Ok(n) => n,
        Err(e) => {
            return Err(e);
        },
    };
    let ghost src = archive_entries(archive);
    let ghost target = replace_named(src, "manifest.cbor"@, manifest@);
    let ghost good = rewritable(pack_bytes@) && data_fits(manifest@);
    let mut w = zip_writer_new();
    let mut i: usize = 0;
    assert(names@.len() == string_views(names@).len());
    assert(target.take(0) =~= Seq::<EntryV>::empty());
    while i < names.len()
        invariant
            0 <= i <= names@.len(),
            names@.len() == src.len(),
            string_views(names@) == entry_names(src),
            archive_entries(archive) == src,
            archive_source(archive) == pack_bytes@,
            zip_opens(pack_bytes@),
            src == zip_entries(pack_bytes@),
            target == replace_named(src, "manifest.cbor"@, manifest@),
            good == (rewritable(pack_bytes@) && data_fits(manifest@)),
            writer_entries(w) == target.take(i as int),
        decreases names@.len() - i,
    {
        assert(string_views(names@)[i as int] == names@[i as int]@);
        assert(target.take(i + 1) =~= target.take(i as int).push(target[i as int]));
        let nm = names[i].as_str();
        proof {
            if good {
                lemma_replace_prefix_fresh(src, "manifest.cbor"@, manifest@, i as int);
                assert(nm@ == src[i as int].0);
                assert(zip_read_ok(pack_bytes@, i as int));
            }
        }
        if names[i] == "manifest.cbor".to_owned() {
            match write_entry(&mut w, nm, manifest) {
                Ok(()) => {},
                Err(e) => {
                    return Err(e);
                },
            }
        } else {
            let data = match read_entry_at(&mut archive, i, &names[i]) {
                Ok(d) => d,
                Err(e) => {
                    return Err(e);
                },
            };
            let ds = data.as_slice();
            match write_entry(&mut w, nm, ds) {
                Ok(()) => {},
                Err(e) => {
                    return Err(e);
                },
            }
        }
        i = i + 1;
    }
    assert(target.take(names@.len() as int) =~= target);
    proof {
        if good {
            lemma_replace_prefix_fresh(src, "manifest.cbor"@, manifest@, src.len() as int);
        }
    }
    match zip_finish(w) {
        Ok(out) => Ok(out),
        Err(e) => Err(PostProcessError::OpenZip(e)),
    }
}

} // verus!
