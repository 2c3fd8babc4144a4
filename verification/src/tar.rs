use vstd::prelude::*;
use crate::bytes::{
    byte_sum, dec_rep, dec_vec, lemma_dec_rep_len, lemma_sum_bytes_bound, octal_rep, octal_vec,
    push_all, push_repeat, sum_bytes,
};
use crate::model::{FileInfo, FileInfoModel, FileType};

verus! {

// The tar serializer: renders one chunk as a deterministic uncompressed
// ustar stream with PAX extended headers for long names, large numbers and
// xattrs. The stream is pinned byte for byte by spec functions, so equal
// chunks and clamp give equal bytes on any machine.

/// Serialization failure: an entry carries an extended attribute whose key
/// the PAX format cannot hold as text. The payload is the entry's path.
#[derive(Debug)]
pub enum SerializeError {
    InvalidXattrKey(Vec<u8>),
}

/// The mtime written for an entry: the scanned mtime, ceilinged at `clamp`.
pub open spec fn clamp_mtime(m: u64, clamp: u64) -> u64 {
    if m <= clamp {
        m
    } else {
        clamp
    }
}

/// A PAX key the serializer accepts: printable ASCII without `=`.
pub open spec fn valid_xattr_key(k: Seq<u8>) -> bool {
    &&& k.len() >= 1
    &&& forall|i: int| 0 <= i < k.len() ==> 32 <= #[trigger] k[i] <= 126 && k[i] != 61
}

/// All xattr keys of an entry are representable.
pub open spec fn entry_keys_ok(e: FileInfoModel) -> bool {
    forall|i: int| 0 <= i < e.xattrs.len() ==> valid_xattr_key((#[trigger] e.xattrs[i]).0)
}

/// `n` zero bytes.
pub open spec fn zeros(n: nat) -> Seq<u8> {
    Seq::new(n, |i: int| 0u8)
}

/// An 8-byte octal field: seven digits and a NUL.
pub open spec fn field8(v: nat) -> Seq<u8> {
    octal_rep(v, 7).push(0)
}

/// A 12-byte octal field: eleven digits and a NUL.
pub open spec fn field12(v: nat) -> Seq<u8> {
    octal_rep(v, 11).push(0)
}

/// The checksum field: six octal digits, a NUL and a space.
pub open spec fn chksum_field(s: int) -> Seq<u8> {
    octal_rep(s as nat, 6).push(0).push(32)
}

/// A 512-byte ustar header before checksum insertion: the checksum field
/// holds eight spaces.
pub open spec fn header_pre(
    name: Seq<u8>,
    mode: nat,
    uid: nat,
    gid: nat,
    size: nat,
    mtime: nat,
    typeflag: u8,
    link: Seq<u8>,
) -> Seq<u8> {
    name + zeros((100 - name.len()) as nat) + field8(mode) + field8(uid) + field8(gid) + field12(
        size,
    ) + field12(mtime) + Seq::new(8, |i: int| 32u8) + seq![typeflag] + link + zeros(
        (100 - link.len()) as nat,
    ) + seq![117u8, 115u8, 116u8, 97u8, 114u8, 0u8] + seq![48u8, 48u8] + zeros(64) + field8(0)
        + field8(0) + zeros(167)
}

/// The finished header: the byte sum of the pre-header, taken with the
/// checksum field as spaces, is written into bytes 148..156.
pub open spec fn header_spec(
    name: Seq<u8>,
    mode: nat,
    uid: nat,
    gid: nat,
    size: nat,
    mtime: nat,
    typeflag: u8,
    link: Seq<u8>,
) -> Seq<u8> {
    let pre = header_pre(name, mode, uid, gid, size, mtime, typeflag, link);
    pre.subrange(0, 148) + chksum_field(sum_bytes(pre)) + pre.subrange(156, 512)
}

/// Number of decimal digits of `n`.
pub open spec fn dec_len(n: nat) -> nat {
    dec_rep(n).len()
}

/// Total length of a PAX record, solving `total == base + digits(total)`.
pub open spec fn pax_total(base: nat) -> nat {
    if dec_len(base + dec_len(base)) == dec_len(base) {
        base + dec_len(base)
    } else {
        base + dec_len(base + dec_len(base))
    }
}

/// One PAX record: "<len> <key>=<value>\n" where len counts the whole
/// record including its own digits.
pub open spec fn pax_record(key: Seq<u8>, value: Seq<u8>) -> Seq<u8> {
    let base = (key.len() + value.len() + 3) as nat;
    dec_rep(pax_total(base)) + seq![32u8] + key + seq![61u8] + value + seq![10u8]
}

/// Zero padding that rounds `n` up to a multiple of 512.
pub open spec fn pad512(n: nat) -> Seq<u8> {
    if n % 512 == 0 {
        Seq::empty()
    } else {
        zeros((512 - n % 512) as nat)
    }
}

/// Copies `src[lo..hi]` into a fresh vector.
fn copy_range(src: &Vec<u8>, lo: usize, hi: usize) -> (r: Vec<u8>)
    requires
        lo <= hi <= src@.len(),
    ensures
        r@ =~= src@.subrange(lo as int, hi as int),
{
    let mut r: Vec<u8> = Vec::new();
    let mut i: usize = lo;
    while i < hi
        invariant
            lo <= i <= hi <= src@.len(),
            r@ =~= src@.subrange(lo as int, i as int),
        decreases hi - i,
    {
        r.push(src[i]);
        proof {
            assert(src@.subrange(lo as int, i as int + 1) =~= src@.subrange(
                lo as int,
                i as int,
            ).push(src@[i as int]));
        }
        i = i + 1;
    }
    r
}

/// Builds one finished 512-byte header.
fn make_header(
    name: &Vec<u8>,
    mode: u64,
    uid: u64,
    gid: u64,
    size: u64,
    mtime: u64,
    typeflag: u8,
    link: &Vec<u8>,
) -> (r: Vec<u8>)
    requires
        name@.len() <= 100,
        link@.len() <= 100,
    ensures
        r@ =~= header_spec(
            name@,
            mode as nat,
            uid as nat,
            gid as nat,
            size as nat,
            mtime as nat,
            typeflag,
            link@,
        ),
{
    let mut pre: Vec<u8> = Vec::new();
    push_all(&mut pre, name);
    push_repeat(&mut pre, 0, 100 - name.len());
    let f = octal_vec(mode, 7);
    push_all(&mut pre, &f);
    pre.push(0);
    let f = octal_vec(uid, 7);
    push_all(&mut pre, &f);
    pre.push(0);
    let f = octal_vec(gid, 7);
    push_all(&mut pre, &f);
    pre.push(0);
    let f = octal_vec(size, 11);
    push_all(&mut pre, &f);
    pre.push(0);
    let f = octal_vec(mtime, 11);
    push_all(&mut pre, &f);
    pre.push(0);
    push_repeat(&mut pre, 32, 8);
    pre.push(typeflag);
    push_all(&mut pre, link);
    push_repeat(&mut pre, 0, 100 - link.len());
    pre.push(117);
    pre.push(115);
    pre.push(116);
    pre.push(97);
    pre.push(114);
    pre.push(0);
    pre.push(48);
    pre.push(48);
    push_repeat(&mut pre, 0, 64);
    let f = octal_vec(0, 7);
    push_all(&mut pre, &f);
    pre.push(0);
    let f = octal_vec(0, 7);
    push_all(&mut pre, &f);
    pre.push(0);
    push_repeat(&mut pre, 0, 167);
    proof {
        crate::bytes::lemma_octal_rep_len(mode as nat, 7);
        crate::bytes::lemma_octal_rep_len(uid as nat, 7);
        crate::bytes::lemma_octal_rep_len(gid as nat, 7);
        crate::bytes::lemma_octal_rep_len(size as nat, 11);
        crate::bytes::lemma_octal_rep_len(mtime as nat, 11);
        crate::bytes::lemma_octal_rep_len(0, 7);
        assert(pre@ =~= header_pre(
            name@,
            mode as nat,
            uid as nat,
            gid as nat,
            size as nat,
            mtime as nat,
            typeflag,
            link@,
        ));
        assert(pre@.len() == 512);
    }
    let s = byte_sum(&pre, 0, 512);
    proof {
        assert(pre@.subrange(0, 512) =~= pre@);
        lemma_sum_bytes_bound(pre@);
        crate::bytes::lemma_octal_rep_len(s as nat, 6);
    }
    let mut r = copy_range(&pre, 0, 148);
    let cf = octal_vec(s, 6);
    push_all(&mut r, &cf);
    r.push(0);
    r.push(32);
    let tail = copy_range(&pre, 156, 512);
    push_all(&mut r, &tail);
    proof {
        assert(r@ =~= pre@.subrange(0, 148) + chksum_field(sum_bytes(pre@)) + pre@.subrange(
            156,
            512,
        ));
    }
    r
}

/// Computes the PAX record length fix-point.
fn pax_total_exec(base: u64) -> (r: u64)
    requires
        base <= 0xffffffffffff,
    ensures
        r as nat == pax_total(base as nat),
{
    let d1 = dec_vec(base);
    proof {
        lemma_dec_rep_len(base as nat);
    }
    let c1 = base + d1.len() as u64;
    let d2 = dec_vec(c1);
    proof {
        lemma_dec_rep_len(c1 as nat);
    }
    if d2.len() == d1.len() {
        c1
    } else {
        base + d2.len() as u64
    }
}

/// Appends one PAX record to `out`.
fn push_pax_record(out: &mut Vec<u8>, key: &Vec<u8>, value: &Vec<u8>) -> (ok: bool)
    ensures
        ok ==> final(out)@ =~= old(out)@ + pax_record(key@, value@),
        !ok ==> final(out)@ == old(out)@,
        ok == (key@.len() + value@.len() + 3 <= 0xffffffffffff),
{
    let kl: u64 = key.len() as u64;
    let vl: u64 = value.len() as u64;
    if kl > 0xffffffffffff - 3 || vl > 0xffffffffffff - 3 - kl {
        return false;
    }
    let base: u64 = kl + vl + 3;
    let total = pax_total_exec(base);
    let d = dec_vec(total);
    push_all(out, &d);
    out.push(32);
    push_all(out, key);
    out.push(61);
    push_all(out, value);
    out.push(10);
    true
}


/// Byte constants of the PAX keys and the extended header's entry name.
pub open spec fn key_path() -> Seq<u8> {
    seq![112u8, 97u8, 116u8, 104u8]
}

pub open spec fn key_linkpath() -> Seq<u8> {
    seq![108u8, 105u8, 110u8, 107u8, 112u8, 97u8, 116u8, 104u8]
}

pub open spec fn key_uid() -> Seq<u8> {
    seq![117u8, 105u8, 100u8]
}

pub open spec fn key_gid() -> Seq<u8> {
    seq![103u8, 105u8, 100u8]
}

pub open spec fn key_size() -> Seq<u8> {
    seq![115u8, 105u8, 122u8, 101u8]
}

pub open spec fn key_mtime() -> Seq<u8> {
    seq![109u8, 116u8, 105u8, 109u8, 101u8]
}

pub open spec fn key_xattr_prefix() -> Seq<u8> {
    seq![83u8, 67u8, 72u8, 73u8, 76u8, 89u8, 46u8, 120u8, 97u8, 116u8, 116u8, 114u8, 46u8]
}

pub open spec fn pax_header_name() -> Seq<u8> {
    seq![80u8, 97u8, 120u8, 72u8, 101u8, 97u8, 100u8, 101u8, 114u8]
}

/// Executable form of `key_path`.
fn key_path_exec() -> (r: Vec<u8>)
    ensures
        r@ =~= key_path(),
{
    let mut r: Vec<u8> = Vec::new();
    r.push(112);
    r.push(97);
    r.push(116);
    r.push(104);
    r
}

/// Executable form of `key_linkpath`.
fn key_linkpath_exec() -> (r: Vec<u8>)
    ensures
        r@ =~= key_linkpath(),
{
    let mut r: Vec<u8> = Vec::new();
    r.push(108);
    r.push(105);
    r.push(110);
    r.push(107);
    r.push(112);
    r.push(97);
    r.push(116);
    r.push(104);
    r
}

/// Executable form of `key_uid`.
fn key_uid_exec() -> (r: Vec<u8>)
    ensures
        r@ =~= key_uid(),
{
    let mut r: Vec<u8> = Vec::new();
    r.push(117);
    r.push(105);
    r.push(100);
    r
}

/// Executable form of `key_gid`.
fn key_gid_exec() -> (r: Vec<u8>)
    ensures
        r@ =~= key_gid(),
{
    let mut r: Vec<u8> = Vec::new();
    r.push(103);
    r.push(105);
    r.push(100);
    r
}

/// Executable form of `key_size`.
fn key_size_exec() -> (r: Vec<u8>)
    ensures
        r@ =~= key_size(),
{
    let mut r: Vec<u8> = Vec::new();
    r.push(115);
    r.push(105);
    r.push(122);
    r.push(101);
    r
}

/// Executable form of `key_mtime`.
fn key_mtime_exec() -> (r: Vec<u8>)
    ensures
        r@ =~= key_mtime(),
{
    let mut r: Vec<u8> = Vec::new();
    r.push(109);
    r.push(116);
    r.push(105);
    r.push(109);
    r.push(101);
    r
}

/// Executable form of `key_xattr_prefix`.
fn key_xattr_prefix_exec() -> (r: Vec<u8>)
    ensures
        r@ =~= key_xattr_prefix(),
{
    let mut r: Vec<u8> = Vec::new();
    r.push(83);
    r.push(67);
    r.push(72);
    r.push(73);
    r.push(76);
    r.push(89);
    r.push(46);
    r.push(120);
    r.push(97);
    r.push(116);
    r.push(116);
    r.push(114);
    r.push(46);
    r
}

/// Executable form of `pax_header_name`.
fn pax_header_name_exec() -> (r: Vec<u8>)
    ensures
        r@ =~= pax_header_name(),
{
    let mut r: Vec<u8> = Vec::new();
    r.push(80);
    r.push(97);
    r.push(120);
    r.push(72);
    r.push(101);
    r.push(97);
    r.push(100);
    r.push(101);
    r.push(114);
    r
}

/// The serializer's name for an entry: the absolute path without its
/// leading slash, directories with a trailing slash.
pub open spec fn tar_name(e: FileInfoModel) -> Seq<u8> {
    if e.file_type == FileType::Directory {
        e.path.skip(1).push(47u8)
    } else {
        e.path.skip(1)
    }
}

/// The ustar type flag for an entry kind.
pub open spec fn type_byte(t: FileType) -> u8 {
    match t {
        FileType::File => 48u8,
        FileType::Directory => 53u8,
        FileType::Symlink => 50u8,
        FileType::Fifo => 54u8,
        FileType::CharDevice => 51u8,
        FileType::BlockDevice => 52u8,
    }
}

/// The PAX records an entry needs: overlong or overflowing header fields
/// first, then one record per extended attribute, in scanned order.
pub open spec fn pax_records(e: FileInfoModel, clamp: u64) -> Seq<u8> {
    let name = tar_name(e);
    let rp = if name.len() > 100 {
        pax_record(key_path(), name)
    } else {
        Seq::<u8>::empty()
    };
    let rl = if e.link_target.len() > 100 {
        pax_record(key_linkpath(), e.link_target)
    } else {
        Seq::<u8>::empty()
    };
    let ru = if e.uid >= 0o10000000 {
        pax_record(key_uid(), dec_rep(e.uid as nat))
    } else {
        Seq::<u8>::empty()
    };
    let rg = if e.gid >= 0o10000000 {
        pax_record(key_gid(), dec_rep(e.gid as nat))
    } else {
        Seq::<u8>::empty()
    };
    let rs = if e.content.len() >= 0o100000000000 {
        pax_record(key_size(), dec_rep(e.content.len()))
    } else {
        Seq::<u8>::empty()
    };
    let rm = if clamp_mtime(e.mtime, clamp) >= 0o100000000000 {
        pax_record(key_mtime(), dec_rep(clamp_mtime(e.mtime, clamp) as nat))
    } else {
        Seq::<u8>::empty()
    };
    rp + rl + ru + rg + rs + rm + xattr_records(e.xattrs, e.xattrs.len() as int)
}

/// The xattr records of the first `n` attributes.
pub open spec fn xattr_records(xs: Seq<(Seq<u8>, Seq<u8>)>, n: int) -> Seq<u8>
    decreases n,
{
    if n <= 0 {
        Seq::empty()
    } else {
        xattr_records(xs, n - 1) + pax_record(
            key_xattr_prefix() + xs[n - 1].0,
            xs[n - 1].1,
        )
    }
}

/// The bytes of one entry: an optional PAX block, the header, and the data
/// rounded up to full 512-byte blocks.
pub open spec fn entry_spec(e: FileInfoModel, clamp: u64) -> Seq<u8> {
    let recs = pax_records(e, clamp);
    let name = tar_name(e);
    let hname = if name.len() > 100 {
        name.subrange(0, 100)
    } else {
        name
    };
    let link = e.link_target;
    let hlink = if link.len() > 100 {
        link.subrange(0, 100)
    } else {
        link
    };
    let huid: nat = if e.uid >= 0o10000000 {
        0
    } else {
        e.uid as nat
    };
    let hgid: nat = if e.gid >= 0o10000000 {
        0
    } else {
        e.gid as nat
    };
    let hsize: nat = if e.content.len() >= 0o100000000000 {
        0
    } else {
        e.content.len()
    };
    let hmtime: nat = if clamp_mtime(e.mtime, clamp) >= 0o100000000000 {
        0
    } else {
        clamp_mtime(e.mtime, clamp) as nat
    };
    let pax_block = if recs.len() == 0 {
        Seq::<u8>::empty()
    } else {
        header_spec(
            pax_header_name(),
            0o644 as nat,
            0,
            0,
            recs.len(),
            if clamp_mtime(e.mtime, clamp) >= 0o100000000000 {
                0
            } else {
                clamp_mtime(e.mtime, clamp) as nat
            },
            120u8,
            Seq::empty(),
        ) + recs + pad512(recs.len())
    };
    pax_block + header_spec(
        hname,
        e.mode as nat,
        huid,
        hgid,
        hsize,
        hmtime,
        type_byte(e.file_type),
        hlink,
    ) + e.content + pad512(e.content.len())
}

/// The stream from entry `i` on: the remaining blocks, then two zero
/// blocks.
pub open spec fn tar_from(entries: Seq<FileInfoModel>, clamp: u64, i: int) -> Seq<u8>
    decreases entries.len() - i,
{
    if i < 0 || i >= entries.len() {
        zeros(1024)
    } else {
        entry_spec(entries[i], clamp) + tar_from(entries, clamp, i + 1)
    }
}

/// The whole stream: the entries' blocks in order, then two zero blocks.
pub open spec fn tar_spec(entries: Seq<FileInfoModel>, clamp: u64) -> Seq<u8> {
    tar_from(entries, clamp, 0)
}


/// Machine bounds under which every PAX record of the entry fits: no path,
/// link target, attribute or value longer than four gigabytes.
pub open spec fn entry_sizes_ok(e: FileInfoModel) -> bool {
    &&& e.path.len() <= 0xffffffff
    &&& e.link_target.len() <= 0xffffffff
    &&& forall|i: int|
        0 <= i < e.xattrs.len() ==> (#[trigger] e.xattrs[i]).0.len() <= 0xffffffff
            && e.xattrs[i].1.len() <= 0xffffffff
}

/// Builds the tar-level name and the PAX records of one entry.
#[verifier::rlimit(100)]
#[verifier::spinoff_prover]
fn build_pax_records(e: &FileInfo, clamp: u64) -> (r: (Vec<u8>, Vec<u8>))
    requires
        e.wf(),
        entry_sizes_ok(e@),
        entry_keys_ok(e@),
    ensures
        r.0@ =~= tar_name(e@),
        r.1@ =~= pax_records(e@, clamp),
{
    // The tar-level name: path without the leading slash, directories with
    // a trailing slash.
    let mut name = copy_range(&e.path, 1, e.path.len());
    let is_dir = match e.file_type {
        FileType::Directory => true,
        _ => false,
    };
    if is_dir {
        name.push(47);
    }
    proof {
        assert(name@ =~= tar_name(e@));
    }
    let m = if e.mtime <= clamp {
        e.mtime
    } else {
        clamp
    };
    proof {
        assert(m == clamp_mtime(e@.mtime, clamp));
    }
    // PAX records, in the fixed order the stream format uses.
    let mut recs: Vec<u8> = Vec::new();
    if name.len() > 100 {
        let k = key_path_exec();
        push_pax_record(&mut recs, &k, &name);
    }
    if e.link_target.len() > 100 {
        let k = key_linkpath_exec();
        push_pax_record(&mut recs, &k, &e.link_target);
    }
    if e.uid >= 0o10000000 {
        let k = key_uid_exec();
        let v = dec_vec(e.uid as u64);
        push_pax_record(&mut recs, &k, &v);
        proof {
            lemma_dec_rep_len(e.uid as nat);
        }
    }
    if e.gid >= 0o10000000 {
        let k = key_gid_exec();
        let v = dec_vec(e.gid as u64);
        push_pax_record(&mut recs, &k, &v);
        proof {
            lemma_dec_rep_len(e.gid as nat);
        }
    }
    if e.content.len() as u64 >= 0o100000000000 {
        let k = key_size_exec();
        let v = dec_vec(e.content.len() as u64);
        push_pax_record(&mut recs, &k, &v);
        proof {
            lemma_dec_rep_len(e.content@.len());
        }
    }
    if m >= 0o100000000000 {
        let k = key_mtime_exec();
        let v = dec_vec(m);
        push_pax_record(&mut recs, &k, &v);
        proof {
            lemma_dec_rep_len(m as nat);
        }
    }
    let ghost recs_fixed = recs@;
    let mut xi2: usize = 0;
    while xi2 < e.xattrs.len()
        invariant
            xi2 <= e.xattrs@.len(),
            e.wf(),
            entry_sizes_ok(e@),
            entry_keys_ok(e@),
            e@.xattrs.len() == e.xattrs@.len(),
            forall|i: int|
                0 <= i < e.xattrs@.len() ==> (#[trigger] e@.xattrs[i]).0 == e.xattrs@[i].0@
                    && e@.xattrs[i].1 == e.xattrs@[i].1@,
            recs@ =~= recs_fixed + xattr_records(e@.xattrs, xi2 as int),
        decreases e.xattrs@.len() - xi2,
    {
        let mut k = key_xattr_prefix_exec();
        push_all(&mut k, &e.xattrs[xi2].0);
        proof {
            assert(k@ =~= key_xattr_prefix() + e@.xattrs[xi2 as int].0);
        }
        let ghost rprev = recs@;
        let ok = push_pax_record(&mut recs, &k, &e.xattrs[xi2].1);
        proof {
            assert(ok);
            assert(recs@ =~= rprev + pax_record(
                key_xattr_prefix() + e@.xattrs[xi2 as int].0,
                e@.xattrs[xi2 as int].1,
            ));
            assert(recs@ =~= recs_fixed + xattr_records(e@.xattrs, xi2 as int + 1));
        }
        xi2 = xi2 + 1;
    }
    proof {
        assert(recs@ =~= pax_records(e@, clamp));
    }
    proof {
        assert(recs@ =~= pax_records(e@, clamp));
    }
    (name, recs)
}

/// Serializes one entry: PAX block if needed, header, data blocks.
#[verifier::rlimit(100)]
#[verifier::spinoff_prover]
fn entry_bytes(e: &FileInfo, clamp: u64) -> (r: Result<Vec<u8>, SerializeError>)
    requires
        e.wf(),
        entry_sizes_ok(e@),
    ensures
        r is Ok <==> entry_keys_ok(e@),
        r matches Ok(b) ==> b@ =~= entry_spec(e@, clamp),
        r matches Err(SerializeError::InvalidXattrKey(p)) ==> p@ =~= e@.path
            && !entry_keys_ok(e@),
{
    // Validate the attribute keys first: a bad one aborts this entry.
    let mut xi: usize = 0;
    while xi < e.xattrs.len()
        invariant
            xi <= e.xattrs@.len(),
            forall|i: int| 0 <= i < xi ==> valid_xattr_key((#[trigger] e@.xattrs[i]).0),
            e@.xattrs.len() == e.xattrs@.len(),
            forall|i: int|
                0 <= i < e.xattrs@.len() ==> (#[trigger] e@.xattrs[i]).0 == e.xattrs@[i].0@
                    && e@.xattrs[i].1 == e.xattrs@[i].1@,
        decreases e.xattrs@.len() - xi,
    {
        let k: &Vec<u8> = &e.xattrs[xi].0;
        if k.len() == 0 {
            proof {
                assert(!valid_xattr_key(e@.xattrs[xi as int].0));
                assert(!entry_keys_ok(e@));
            }
            return Err(SerializeError::InvalidXattrKey(crate::model::clone_bytes(&e.path)));
        }
        let mut bi: usize = 0;
        while bi < k.len()
            invariant
                bi <= k@.len(),
                xi < e.xattrs@.len(),
                e@.xattrs.len() == e.xattrs@.len(),
                e@.xattrs[xi as int].0 == k@,
                forall|i: int| 0 <= i < bi ==> 32 <= #[trigger] k@[i] <= 126 && k@[i] != 61,
            decreases k@.len() - bi,
        {
            let b = k[bi];
            if b < 32 || b > 126 || b == 61 {
                proof {
                    assert(!valid_xattr_key(e@.xattrs[xi as int].0));
                    assert(!entry_keys_ok(e@));
                }
                return Err(SerializeError::InvalidXattrKey(crate::model::clone_bytes(&e.path)));
            }
            bi = bi + 1;
        }
        proof {
            assert(valid_xattr_key(e@.xattrs[xi as int].0));
        }
        xi = xi + 1;
    }
    let nr = build_pax_records(e, clamp);
    let name = nr.0;
    let recs = nr.1;
    let m = if e.mtime <= clamp {
        e.mtime
    } else {
        clamp
    };
    // Header field values, overflowing ones replaced by zero (the PAX
    // record carries the true value).
    let hname = if name.len() > 100 {
        copy_range(&name, 0, 100)
    } else {
        copy_range(&name, 0, name.len())
    };
    let hlink = if e.link_target.len() > 100 {
        copy_range(&e.link_target, 0, 100)
    } else {
        copy_range(&e.link_target, 0, e.link_target.len())
    };
    let huid: u64 = if e.uid >= 0o10000000 {
        0
    } else {
        e.uid as u64
    };
    let hgid: u64 = if e.gid >= 0o10000000 {
        0
    } else {
        e.gid as u64
    };
    let hsize: u64 = if e.content.len() as u64 >= 0o100000000000 {
        0
    } else {
        e.content.len() as u64
    };
    let hmtime: u64 = if m >= 0o100000000000 {
        0
    } else {
        m
    };
    let tb: u8 = match e.file_type {
        FileType::File => 48,
        FileType::Directory => 53,
        FileType::Symlink => 50,
        FileType::Fifo => 54,
        FileType::CharDevice => 51,
        FileType::BlockDevice => 52,
    };
    let mut out: Vec<u8> = Vec::new();
    if recs.len() > 0 {
        let pname = pax_header_name_exec();
        let empty: Vec<u8> = Vec::new();
        let ph = make_header(&pname, 0o644, 0, 0, recs.len() as u64, hmtime, 120, &empty);
        push_all(&mut out, &ph);
        push_all(&mut out, &recs);
        let pad = if recs.len() % 512 == 0 {
            0
        } else {
            512 - recs.len() % 512
        };
        push_repeat(&mut out, 0, pad);
        proof {
            assert(Seq::new(pad as nat, |i: int| 0u8) =~= pad512(recs@.len()));
            assert(out@ =~= header_spec(
                pax_header_name(),
                0o644 as nat,
                0,
                0,
                pax_records(e@, clamp).len(),
                if clamp_mtime(e@.mtime, clamp) >= 0o100000000000 {
                    0
                } else {
                    clamp_mtime(e@.mtime, clamp) as nat
                },
                120u8,
                Seq::empty(),
            ) + pax_records(e@, clamp) + pad512(pax_records(e@, clamp).len()));
        }
    }
    let ghost paxpart = out@;
    let h = make_header(&hname, e.mode as u64, huid, hgid, hsize, hmtime, tb, &hlink);
    push_all(&mut out, &h);
    push_all(&mut out, &e.content);
    let cpad = if e.content.len() % 512 == 0 {
        0
    } else {
        512 - e.content.len() % 512
    };
    push_repeat(&mut out, 0, cpad);
    proof {
        assert(Seq::new(cpad as nat, |i: int| 0u8) =~= pad512(e@.content.len()));
        assert(tb == type_byte(e@.file_type));
        assert(hname@ =~= (if tar_name(e@).len() > 100 {
            tar_name(e@).subrange(0, 100)
        } else {
            tar_name(e@)
        }));
        assert(hlink@ =~= (if e@.link_target.len() > 100 {
            e@.link_target.subrange(0, 100)
        } else {
            e@.link_target
        }));
        assert(h@ =~= header_spec(
            hname@,
            e@.mode as nat,
            huid as nat,
            hgid as nat,
            hsize as nat,
            hmtime as nat,
            tb,
            hlink@,
        ));
        assert(out@ =~= paxpart + h@ + e@.content + pad512(e@.content.len()));
        assert(out@ =~= entry_spec(e@, clamp));
    }
    Ok(out)
}

/// Serializes a whole chunk as one deterministic tar stream.
///
/// The result is pinned byte for byte by `tar_spec`, so two runs over equal
/// entries and clamp produce identical streams; every entry's mtime is
/// written as the minimum of its scanned mtime and `mtime_clamp`. An entry
/// with an attribute key the format cannot hold fails the whole chunk, with
/// the offending path.
pub fn serialize_chunk(chunk: &crate::model::Chunk, mtime_clamp: u64) -> (r: Result<
    Vec<u8>,
    SerializeError,
>)
    requires
        forall|i: int|
            0 <= i < chunk.entries@.len() ==> (#[trigger] chunk.entries@[i]).wf()
                && entry_sizes_ok(chunk.entries@[i]@),
    ensures
        r is Ok <==> (forall|i: int|
            0 <= i < chunk.entries@.len() ==> entry_keys_ok((#[trigger] chunk.entries@[i])@)),
        r matches Ok(b) ==> b@ =~= tar_spec(
            chunk.entries@.map(|i: int, f: FileInfo| f@),
            mtime_clamp,
        ),
        r matches Err(SerializeError::InvalidXattrKey(p)) ==> exists|i: int|
            0 <= i < chunk.entries@.len() && !entry_keys_ok((#[trigger] chunk.entries@[i])@)
                && p@ =~= chunk.entries@[i].path@,
{
    let ghost models = chunk.entries@.map(|i: int, f: FileInfo| f@);
    let mut out: Vec<u8> = Vec::new();
    let mut i: usize = 0;
    while i < chunk.entries.len()
        invariant
            i <= chunk.entries@.len(),
            models == chunk.entries@.map(|i2: int, f: FileInfo| f@),
            forall|i2: int|
                0 <= i2 < chunk.entries@.len() ==> (#[trigger] chunk.entries@[i2]).wf()
                    && entry_sizes_ok(chunk.entries@[i2]@),
            forall|i2: int|
                0 <= i2 < i ==> entry_keys_ok((#[trigger] chunk.entries@[i2])@),
            out@ + tar_from(models, mtime_clamp, i as int) =~= tar_spec(models, mtime_clamp),
        decreases chunk.entries@.len() - i,
    {
        match entry_bytes(&chunk.entries[i], mtime_clamp) {
            Ok(b) => {
                let ghost outprev = out@;
                push_all(&mut out, &b);
                proof {
                    assert(models[i as int] == chunk.entries@[i as int]@);
                    assert(out@ + tar_from(models, mtime_clamp, i as int + 1) =~= outprev + (
                    entry_spec(models[i as int], mtime_clamp) + tar_from(
                        models,
                        mtime_clamp,
                        i as int + 1,
                    )));
                }
            },
            Err(e) => {
                proof {
                    assert(!entry_keys_ok(chunk.entries@[i as int]@));
                }
                return Err(e);
            },
        }
        i = i + 1;
    }
    push_repeat(&mut out, 0, 1024);
    proof {
        assert(Seq::new(1024nat, |k: int| 0u8) =~= zeros(1024));
        assert(tar_from(models, mtime_clamp, i as int) =~= zeros(1024));
        assert(out@ =~= tar_spec(models, mtime_clamp));
    }
    Ok(out)
}

/// The clamp rule itself: the mtime every serialized entry carries is the
/// minimum of the scanned mtime and the clamp.
pub proof fn lemma_mtime_clamp(m: u64, clamp: u64)
    ensures
        clamp_mtime(m, clamp) <= m,
        clamp_mtime(m, clamp) <= clamp,
        clamp_mtime(m, clamp) == m || clamp_mtime(m, clamp) == clamp,
        m <= clamp ==> clamp_mtime(m, clamp) == m,
        m > clamp ==> clamp_mtime(m, clamp) == clamp,
{
}

} // verus!
