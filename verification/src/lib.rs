//! chunkah: a container-image rechunker core. The packing engine groups a
//! scanned root filesystem into component-aligned, directory-complete
//! chunks under byte and count budgets; the tar serializer renders each
//! chunk as a reproducible ustar/PAX stream; the assembler compresses,
//! digests and lays the streams out as a complete OCI image.

pub mod bytes;
pub mod model;
pub mod packing;
pub mod tar;
pub mod oci;

use vstd::prelude::*;

verus! {

/// String equality at the view level, via `String`'s specified `==`.
fn str_eq(a: &str, b: &str) -> (r: bool)
    ensures
        r == (a@ == b@),
{
    let oa: String = a.to_owned();
    let ob: String = b.to_owned();
    oa == ob
}

/// Translates a machine architecture name to the name the OCI image
/// configuration uses (the Go convention); unknown names pass through.
pub fn get_goarch(arch: &str) -> (r: &str)
    ensures
        arch@ == "x86_64"@ ==> r@ == "amd64"@,
        arch@ == "aarch64"@ ==> r@ == "arm64"@,
        arch@ == "powerpc64"@ ==> r@ == "ppc64le"@,
        arch@ != "x86_64"@ && arch@ != "aarch64"@ && arch@ != "powerpc64"@ ==> r@ == arch@,
{
    proof {
        reveal_strlit("x86_64");
        reveal_strlit("aarch64");
        reveal_strlit("powerpc64");
        // The three recognized names have pairwise different lengths, so the
        // branches below are mutually exclusive at the view level.
        assert("x86_64"@.len() == 6);
        assert("aarch64"@.len() == 7);
        assert("powerpc64"@.len() == 9);
    }
    if str_eq(arch, "x86_64") {
        "amd64"
    } else if str_eq(arch, "aarch64") {
        "arm64"
    } else if str_eq(arch, "powerpc64") {
        "ppc64le"
    } else {
        arch
    }
}

/// Failure to read the system clock: the current time is before the epoch.
#[derive(Debug)]
pub enum TimeError {
    BeforeEpoch,
}

/// Relies on std's SystemTime::elapsed, called on the UNIX epoch: the
/// number of whole seconds since the epoch, or nothing when the clock
/// stands before it. The value depends on the wall clock, so nothing more
/// is promised of it.
#[verifier::external_body]
fn epoch_seconds_now() -> (r: Option<u64>)
{
    std::time::UNIX_EPOCH.elapsed().ok().map(|d| d.as_secs())
}

/// The current time as whole seconds since the UNIX epoch.
pub fn get_current_epoch() -> (r: Result<u64, TimeError>)
    ensures
        r is Err ==> r matches Err(TimeError::BeforeEpoch),
{
    match epoch_seconds_now() {
        Some(s) => Ok(s),
        None => Err(TimeError::BeforeEpoch),
    }
}

/// Reconstruction of the scan from the chunks: when every scanned path
/// stands in some chunk and every chunk entry equals some scanned record,
/// each scanned record reappears, whole, as a chunk entry — the
/// concatenated chunks carry exactly the scanned tree's paths, kinds,
/// sizes, permission bits and contents.
pub proof fn lemma_reconstruction(files: model::FileMap, chunks: Seq<model::Chunk>)
    requires
        files.wf(),
        forall|p: Seq<u8>| #[trigger] files.has_path(p) <==> packing::chunks_has(chunks, p),
        forall|j: int, i: int|
            0 <= j < chunks.len() && 0 <= i < chunks[j].entries@.len() ==> exists|fi: int|
                0 <= fi < files.entries@.len() && (#[trigger] chunks[j].entries@[i])@
                    =~= files.entries@[fi]@,
    ensures
        forall|fi: int|
            0 <= fi < files.entries@.len() ==> appears_in(
                chunks,
                (#[trigger] files.entries@[fi])@,
            ),
{
    assert forall|fi: int| 0 <= fi < files.entries@.len() implies appears_in(
        chunks,
        (#[trigger] files.entries@[fi])@,
    ) by {
        let p = files.entries@[fi].path@;
        assert(files.has_path(p));
        assert(packing::chunks_has(chunks, p));
        let j = choose|j: int| 0 <= j < chunks.len() && (#[trigger] chunks[j]).has_path(p);
        let i = choose|i: int|
            0 <= i < chunks[j].entries@.len() && chunks[j].entries@[i].path@ =~= p;
        let fi2 = choose|fi2: int|
            0 <= fi2 < files.entries@.len() && (chunks[j].entries@[i])@ =~= files.entries@[fi2]@;
        files.lemma_index_of(p, fi);
        files.lemma_index_of(p, fi2);
        assert(chunks[j].entries@[i]@ =~= files.entries@[fi]@);
        assert(appears_in(chunks, files.entries@[fi]@));
    }
}

/// Within one strictly path-sorted chunk, a directory always precedes its
/// descendants: an ancestor path is a strict prefix, and a strict prefix
/// sorts first.
pub proof fn lemma_dirs_before_children(c: model::Chunk)
    requires
        forall|a: int, b: int|
            0 <= a < b < c.entries@.len() ==> bytes::lex_lt(
                (#[trigger] c.entries@[a])@.path,
                (#[trigger] c.entries@[b])@.path,
            ),
        forall|i: int| 0 <= i < c.entries@.len() ==> model::valid_path(
            (#[trigger] c.entries@[i])@.path,
        ),
    ensures
        forall|a: int, b: int|
            0 <= a < c.entries@.len() && 0 <= b < c.entries@.len() && #[trigger] model::is_ancestor(
                c.entries@[a]@.path,
                c.entries@[b]@.path,
            ) ==> a < b,
{
    assert forall|a: int, b: int|
        0 <= a < c.entries@.len() && 0 <= b < c.entries@.len() && #[trigger] model::is_ancestor(
            c.entries@[a]@.path,
            c.entries@[b]@.path,
        ) implies a < b by {
        let pa = c.entries@[a]@.path;
        let pb = c.entries@[b]@.path;
        model::lemma_ancestor_valid(pa, pb);
        if a == b {
            bytes::lemma_lex_lt_irrefl(pa);
        } else if b < a {
            bytes::lemma_lex_lt_trans(pa, pb, pa);
            bytes::lemma_lex_lt_irrefl(pa);
        }
    }
}

/// Some chunk holds an entry with exactly this record value.
pub open spec fn appears_in(chunks: Seq<model::Chunk>, m: model::FileInfoModel) -> bool {
    exists|j: int, i: int|
        0 <= j < chunks.len() && 0 <= i < chunks[j].entries@.len() && (
        #[trigger] chunks[j].entries@[i])@ =~= m
}

} // verus!
