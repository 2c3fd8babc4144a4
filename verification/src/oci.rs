use vstd::prelude::*;
use sha2::Digest;
use std::io::Write;
use crate::bytes::{dec_rep, dec_vec, hex_rep, hex_vec, push_all};
use crate::model::{Chunk, FileInfo};
use crate::tar::{entry_keys_ok, entry_sizes_ok, serialize_chunk, tar_spec, SerializeError};

verus! {

// The image assembler: serializes each chunk, compresses it, digests it,
// and lays out a complete OCI image directory (blobs, config, manifest,
// index, layout marker) as plain in-memory files. Every byte is a function
// of the chunks and the configuration alone, so equal inputs give equal
// archives.

/// What the SHA-256 of a byte string is. The digest is a pure function of
/// the bytes; its value is not spelled out here, only named.
pub uninterp spec fn sha256_of(data: Seq<u8>) -> Seq<u8>;

/// Relies on sha2's Sha256: a 32-byte digest computed from the input bytes
/// alone.
#[verifier::external_body]
fn sha256(data: &Vec<u8>) -> (r: Vec<u8>)
    ensures
        r@ == sha256_of(data@),
        r@.len() == 32,
{
    let mut h = sha2::Sha256::new();
    h.update(data.as_slice());
    h.finalize().to_vec()
}

/// What the gzip encoding of a byte string is, at this crate's fixed
/// compression level. The output is a pure function of the input bytes.
pub uninterp spec fn gzip_of(data: Seq<u8>) -> Seq<u8>;

/// Relies on flate2's GzEncoder over an in-memory buffer: the output
/// depends on the input bytes and the fixed level alone (the gzip header
/// flate2 writes carries mtime 0 and a fixed OS byte). Errors can only
/// come from the sink's Write impl, and writing to a Vec never fails, so
/// the unwraps cannot fire.
#[verifier::external_body]
fn gzip(data: &Vec<u8>) -> (r: Vec<u8>)
    ensures
        r@ == gzip_of(data@),
{
    let mut enc = flate2::write::GzEncoder::new(Vec::new(), flate2::Compression::new(6));
    enc.write_all(data.as_slice()).unwrap();
    enc.finish().unwrap()
}

/// Compression choice for the layer blobs.
#[derive(Clone, Copy, PartialEq, Eq, Structural, Debug)]
pub enum Compression {
    /// Layers stay uncompressed tar.
    Store,
    /// Layers are gzip-compressed tar.
    Gzip,
}

/// The blob bytes of a layer under the chosen compression.
pub open spec fn layer_blob_of(stream: Seq<u8>, comp: Compression) -> Seq<u8> {
    match comp {
        Compression::Store => stream,
        Compression::Gzip => gzip_of(stream),
    }
}

/// Text that can stand in a JSON string without escaping: ASCII letters,
/// digits, and `. _ - + /`.
pub open spec fn plain_text(s: Seq<u8>) -> bool {
    forall|i: int|
        0 <= i < s.len() ==> (48 <= #[trigger] s[i] <= 57 || 97 <= s[i] <= 122 || 65 <= s[i] <= 90
            || s[i] == 46 || s[i] == 95 || s[i] == 45 || s[i] == 43 || s[i] == 47)
}

/// One failure of assembly.
#[derive(Debug)]
pub enum AssembleError {
    /// A chunk could not be serialized; carries the tar serializer's error.
    Serialize(SerializeError),
}

/// One file of the assembled image layout.
pub struct OciFile {
    pub path: Vec<u8>,
    pub data: Vec<u8>,
}

/// The assembled image: a complete OCI directory layout held in memory.
pub struct OciLayout {
    pub files: Vec<OciFile>,
}

/// Image-level configuration.
pub struct ImageMeta {
    pub architecture: Vec<u8>,
    pub os: Vec<u8>,
    pub compression: Compression,
    pub mtime_clamp: u64,
}

/// The bytes of `'{"architecture":"'`.
pub open spec fn lit_cfg_a() -> Seq<u8> {
    seq![123u8, 34u8, 97u8, 114u8, 99u8, 104u8, 105u8, 116u8, 101u8, 99u8, 116u8, 117u8, 114u8, 101u8, 34u8, 58u8, 34u8]
}

fn lit_cfg_a_exec() -> (r: Vec<u8>)
    ensures
        r@ =~= lit_cfg_a(),
{
    let mut r: Vec<u8> = Vec::new();
    r.push(123);
    r.push(34);
    r.push(97);
    r.push(114);
    r.push(99);
    r.push(104);
    r.push(105);
    r.push(116);
    r.push(101);
    r.push(99);
    r.push(116);
    r.push(117);
    r.push(114);
    r.push(101);
    r.push(34);
    r.push(58);
    r.push(34);
    r
}

/// The bytes of `'","os":"'`.
pub open spec fn lit_cfg_os() -> Seq<u8> {
    seq![34u8, 44u8, 34u8, 111u8, 115u8, 34u8, 58u8, 34u8]
}

fn lit_cfg_os_exec() -> (r: Vec<u8>)
    ensures
        r@ =~= lit_cfg_os(),
{
    let mut r: Vec<u8> = Vec::new();
    r.push(34);
    r.push(44);
    r.push(34);
    r.push(111);
    r.push(115);
    r.push(34);
    r.push(58);
    r.push(34);
    r
}

/// The bytes of `'","config":{},"rootfs":{"type":"layers","diff_ids":['`.
pub open spec fn lit_cfg_mid() -> Seq<u8> {
    seq![34u8, 44u8, 34u8, 99u8, 111u8, 110u8, 102u8, 105u8, 103u8, 34u8, 58u8, 123u8, 125u8, 44u8, 34u8, 114u8, 111u8, 111u8, 116u8, 102u8, 115u8, 34u8, 58u8, 123u8, 34u8, 116u8, 121u8, 112u8, 101u8, 34u8, 58u8, 34u8, 108u8, 97u8, 121u8, 101u8, 114u8, 115u8, 34u8, 44u8, 34u8, 100u8, 105u8, 102u8, 102u8, 95u8, 105u8, 100u8, 115u8, 34u8, 58u8, 91u8]
}

#[verifier::rlimit(100)]
fn lit_cfg_mid_exec() -> (r: Vec<u8>)
    ensures
        r@ =~= lit_cfg_mid(),
{
    let mut r: Vec<u8> = Vec::new();
    r.push(34);
    r.push(44);
    r.push(34);
    r.push(99);
    r.push(111);
    r.push(110);
    r.push(102);
    r.push(105);
    r.push(103);
    r.push(34);
    r.push(58);
    r.push(123);
    r.push(125);
    r.push(44);
    r.push(34);
    r.push(114);
    r.push(111);
    r.push(111);
    r.push(116);
    r.push(102);
    r.push(115);
    r.push(34);
    r.push(58);
    r.push(123);
    r.push(34);
    r.push(116);
    r.push(121);
    r.push(112);
    r.push(101);
    r.push(34);
    r.push(58);
    r.push(34);
    r.push(108);
    r.push(97);
    r.push(121);
    r.push(101);
    r.push(114);
    r.push(115);
    r.push(34);
    r.push(44);
    r.push(34);
    r.push(100);
    r.push(105);
    r.push(102);
    r.push(102);
    r.push(95);
    r.push(105);
    r.push(100);
    r.push(115);
    r.push(34);
    r.push(58);
    r.push(91);
    r
}

/// The bytes of `']},"history":['`.
pub open spec fn lit_cfg_hist() -> Seq<u8> {
    seq![93u8, 125u8, 44u8, 34u8, 104u8, 105u8, 115u8, 116u8, 111u8, 114u8, 121u8, 34u8, 58u8, 91u8]
}

fn lit_cfg_hist_exec() -> (r: Vec<u8>)
    ensures
        r@ =~= lit_cfg_hist(),
{
    let mut r: Vec<u8> = Vec::new();
    r.push(93);
    r.push(125);
    r.push(44);
    r.push(34);
    r.push(104);
    r.push(105);
    r.push(115);
    r.push(116);
    r.push(111);
    r.push(114);
    r.push(121);
    r.push(34);
    r.push(58);
    r.push(91);
    r
}

/// The bytes of `']}'`.
pub open spec fn lit_cfg_end() -> Seq<u8> {
    seq![93u8, 125u8]
}

fn lit_cfg_end_exec() -> (r: Vec<u8>)
    ensures
        r@ =~= lit_cfg_end(),
{
    let mut r: Vec<u8> = Vec::new();
    r.push(93);
    r.push(125);
    r
}

/// The bytes of `'{"created":"1970-01-01T00:00:00Z","created_by":"chunkah"}'`.
pub open spec fn lit_hist_item() -> Seq<u8> {
    seq![123u8, 34u8, 99u8, 114u8, 101u8, 97u8, 116u8, 101u8, 100u8, 34u8, 58u8, 34u8, 49u8, 57u8, 55u8, 48u8, 45u8, 48u8, 49u8, 45u8, 48u8, 49u8, 84u8, 48u8, 48u8, 58u8, 48u8, 48u8, 58u8, 48u8, 48u8, 90u8, 34u8, 44u8, 34u8, 99u8, 114u8, 101u8, 97u8, 116u8, 101u8, 100u8, 95u8, 98u8, 121u8, 34u8, 58u8, 34u8, 99u8, 104u8, 117u8, 110u8, 107u8, 97u8, 104u8, 34u8, 125u8]
}

#[verifier::rlimit(100)]
fn lit_hist_item_exec() -> (r: Vec<u8>)
    ensures
        r@ =~= lit_hist_item(),
{
    let mut r: Vec<u8> = Vec::new();
    r.push(123);
    r.push(34);
    r.push(99);
    r.push(114);
    r.push(101);
    r.push(97);
    r.push(116);
    r.push(101);
    r.push(100);
    r.push(34);
    r.push(58);
    r.push(34);
    r.push(49);
    r.push(57);
    r.push(55);
    r.push(48);
    r.push(45);
    r.push(48);
    r.push(49);
    r.push(45);
    r.push(48);
    r.push(49);
    r.push(84);
    r.push(48);
    r.push(48);
    r.push(58);
    r.push(48);
    r.push(48);
    r.push(58);
    r.push(48);
    r.push(48);
    r.push(90);
    r.push(34);
    r.push(44);
    r.push(34);
    r.push(99);
    r.push(114);
    r.push(101);
    r.push(97);
    r.push(116);
    r.push(101);
    r.push(100);
    r.push(95);
    r.push(98);
    r.push(121);
    r.push(34);
    r.push(58);
    r.push(34);
    r.push(99);
    r.push(104);
    r.push(117);
    r.push(110);
    r.push(107);
    r.push(97);
    r.push(104);
    r.push(34);
    r.push(125);
    r
}

/// The bytes of `'"sha256:'`.
pub open spec fn lit_sha_pre() -> Seq<u8> {
    seq![34u8, 115u8, 104u8, 97u8, 50u8, 53u8, 54u8, 58u8]
}

fn lit_sha_pre_exec() -> (r: Vec<u8>)
    ensures
        r@ =~= lit_sha_pre(),
{
    let mut r: Vec<u8> = Vec::new();
    r.push(34);
    r.push(115);
    r.push(104);
    r.push(97);
    r.push(50);
    r.push(53);
    r.push(54);
    r.push(58);
    r
}

/// The bytes of `'"'`.
pub open spec fn lit_quote() -> Seq<u8> {
    seq![34u8]
}

fn lit_quote_exec() -> (r: Vec<u8>)
    ensures
        r@ =~= lit_quote(),
{
    let mut r: Vec<u8> = Vec::new();
    r.push(34);
    r
}

/// The bytes of `','`.
pub open spec fn lit_comma() -> Seq<u8> {
    seq![44u8]
}

fn lit_comma_exec() -> (r: Vec<u8>)
    ensures
        r@ =~= lit_comma(),
{
    let mut r: Vec<u8> = Vec::new();
    r.push(44);
    r
}

/// The bytes of `'","size":'`.
pub open spec fn lit_man_size() -> Seq<u8> {
    seq![34u8, 44u8, 34u8, 115u8, 105u8, 122u8, 101u8, 34u8, 58u8]
}

fn lit_man_size_exec() -> (r: Vec<u8>)
    ensures
        r@ =~= lit_man_size(),
{
    let mut r: Vec<u8> = Vec::new();
    r.push(34);
    r.push(44);
    r.push(34);
    r.push(115);
    r.push(105);
    r.push(122);
    r.push(101);
    r.push(34);
    r.push(58);
    r
}

/// The bytes of `'},"layers":['`.
pub open spec fn lit_man_layers() -> Seq<u8> {
    seq![125u8, 44u8, 34u8, 108u8, 97u8, 121u8, 101u8, 114u8, 115u8, 34u8, 58u8, 91u8]
}

fn lit_man_layers_exec() -> (r: Vec<u8>)
    ensures
        r@ =~= lit_man_layers(),
{
    let mut r: Vec<u8> = Vec::new();
    r.push(125);
    r.push(44);
    r.push(34);
    r.push(108);
    r.push(97);
    r.push(121);
    r.push(101);
    r.push(114);
    r.push(115);
    r.push(34);
    r.push(58);
    r.push(91);
    r
}

/// The bytes of `']}'`.
pub open spec fn lit_man_end() -> Seq<u8> {
    seq![93u8, 125u8]
}

fn lit_man_end_exec() -> (r: Vec<u8>)
    ensures
        r@ =~= lit_man_end(),
{
    let mut r: Vec<u8> = Vec::new();
    r.push(93);
    r.push(125);
    r
}

/// The bytes of `'{"mediaType":"'`.
pub open spec fn lit_layer_pre() -> Seq<u8> {
    seq![123u8, 34u8, 109u8, 101u8, 100u8, 105u8, 97u8, 84u8, 121u8, 112u8, 101u8, 34u8, 58u8, 34u8]
}

fn lit_layer_pre_exec() -> (r: Vec<u8>)
    ensures
        r@ =~= lit_layer_pre(),
{
    let mut r: Vec<u8> = Vec::new();
    r.push(123);
    r.push(34);
    r.push(109);
    r.push(101);
    r.push(100);
    r.push(105);
    r.push(97);
    r.push(84);
    r.push(121);
    r.push(112);
    r.push(101);
    r.push(34);
    r.push(58);
    r.push(34);
    r
}

/// The bytes of `'application/vnd.oci.image.layer.v1.tar'`.
pub open spec fn lit_media_tar() -> Seq<u8> {
    seq![97u8, 112u8, 112u8, 108u8, 105u8, 99u8, 97u8, 116u8, 105u8, 111u8, 110u8, 47u8, 118u8, 110u8, 100u8, 46u8, 111u8, 99u8, 105u8, 46u8, 105u8, 109u8, 97u8, 103u8, 101u8, 46u8, 108u8, 97u8, 121u8, 101u8, 114u8, 46u8, 118u8, 49u8, 46u8, 116u8, 97u8, 114u8]
}

#[verifier::rlimit(100)]
fn lit_media_tar_exec() -> (r: Vec<u8>)
    ensures
        r@ =~= lit_media_tar(),
{
    let mut r: Vec<u8> = Vec::new();
    r.push(97);
    r.push(112);
    r.push(112);
    r.push(108);
    r.push(105);
    r.push(99);
    r.push(97);
    r.push(116);
    r.push(105);
    r.push(111);
    r.push(110);
    r.push(47);
    r.push(118);
    r.push(110);
    r.push(100);
    r.push(46);
    r.push(111);
    r.push(99);
    r.push(105);
    r.push(46);
    r.push(105);
    r.push(109);
    r.push(97);
    r.push(103);
    r.push(101);
    r.push(46);
    r.push(108);
    r.push(97);
    r.push(121);
    r.push(101);
    r.push(114);
    r.push(46);
    r.push(118);
    r.push(49);
    r.push(46);
    r.push(116);
    r.push(97);
    r.push(114);
    r
}

/// The bytes of `'application/vnd.oci.image.layer.v1.tar+gzip'`.
pub open spec fn lit_media_gzip() -> Seq<u8> {
    seq![97u8, 112u8, 112u8, 108u8, 105u8, 99u8, 97u8, 116u8, 105u8, 111u8, 110u8, 47u8, 118u8, 110u8, 100u8, 46u8, 111u8, 99u8, 105u8, 46u8, 105u8, 109u8, 97u8, 103u8, 101u8, 46u8, 108u8, 97u8, 121u8, 101u8, 114u8, 46u8, 118u8, 49u8, 46u8, 116u8, 97u8, 114u8, 43u8, 103u8, 122u8, 105u8, 112u8]
}

#[verifier::rlimit(100)]
fn lit_media_gzip_exec() -> (r: Vec<u8>)
    ensures
        r@ =~= lit_media_gzip(),
{
    let mut r: Vec<u8> = Vec::new();
    r.push(97);
    r.push(112);
    r.push(112);
    r.push(108);
    r.push(105);
    r.push(99);
    r.push(97);
    r.push(116);
    r.push(105);
    r.push(111);
    r.push(110);
    r.push(47);
    r.push(118);
    r.push(110);
    r.push(100);
    r.push(46);
    r.push(111);
    r.push(99);
    r.push(105);
    r.push(46);
    r.push(105);
    r.push(109);
    r.push(97);
    r.push(103);
    r.push(101);
    r.push(46);
    r.push(108);
    r.push(97);
    r.push(121);
    r.push(101);
    r.push(114);
    r.push(46);
    r.push(118);
    r.push(49);
    r.push(46);
    r.push(116);
    r.push(97);
    r.push(114);
    r.push(43);
    r.push(103);
    r.push(122);
    r.push(105);
    r.push(112);
    r
}

/// The bytes of `'","digest":"sha256:'`.
pub open spec fn lit_layer_dig() -> Seq<u8> {
    seq![34u8, 44u8, 34u8, 100u8, 105u8, 103u8, 101u8, 115u8, 116u8, 34u8, 58u8, 34u8, 115u8, 104u8, 97u8, 50u8, 53u8, 54u8, 58u8]
}

fn lit_layer_dig_exec() -> (r: Vec<u8>)
    ensures
        r@ =~= lit_layer_dig(),
{
    let mut r: Vec<u8> = Vec::new();
    r.push(34);
    r.push(44);
    r.push(34);
    r.push(100);
    r.push(105);
    r.push(103);
    r.push(101);
    r.push(115);
    r.push(116);
    r.push(34);
    r.push(58);
    r.push(34);
    r.push(115);
    r.push(104);
    r.push(97);
    r.push(50);
    r.push(53);
    r.push(54);
    r.push(58);
    r
}

/// The bytes of `'}'`.
pub open spec fn lit_layer_end() -> Seq<u8> {
    seq![125u8]
}

fn lit_layer_end_exec() -> (r: Vec<u8>)
    ensures
        r@ =~= lit_layer_end(),
{
    let mut r: Vec<u8> = Vec::new();
    r.push(125);
    r
}

pub open spec fn lit_man_pre_p0() -> Seq<u8> {
    seq![123u8, 34u8, 115u8, 99u8, 104u8, 101u8, 109u8, 97u8, 86u8, 101u8, 114u8, 115u8, 105u8, 111u8, 110u8, 34u8, 58u8, 50u8, 44u8, 34u8, 109u8, 101u8, 100u8, 105u8, 97u8, 84u8, 121u8, 112u8, 101u8, 34u8, 58u8, 34u8, 97u8, 112u8, 112u8, 108u8, 105u8, 99u8, 97u8, 116u8, 105u8, 111u8, 110u8, 47u8, 118u8, 110u8, 100u8, 46u8, 111u8, 99u8]
}

#[verifier::rlimit(100)]
fn lit_man_pre_p0_exec() -> (r: Vec<u8>)
    ensures
        r@ =~= lit_man_pre_p0(),
{
    let mut r: Vec<u8> = Vec::new();
    r.push(123);
    r.push(34);
    r.push(115);
    r.push(99);
    r.push(104);
    r.push(101);
    r.push(109);
    r.push(97);
    r.push(86);
    r.push(101);
    r.push(114);
    r.push(115);
    r.push(105);
    r.push(111);
    r.push(110);
    r.push(34);
    r.push(58);
    r.push(50);
    r.push(44);
    r.push(34);
    r.push(109);
    r.push(101);
    r.push(100);
    r.push(105);
    r.push(97);
    r.push(84);
    r.push(121);
    r.push(112);
    r.push(101);
    r.push(34);
    r.push(58);
    r.push(34);
    r.push(97);
    r.push(112);
    r.push(112);
    r.push(108);
    r.push(105);
    r.push(99);
    r.push(97);
    r.push(116);
    r.push(105);
    r.push(111);
    r.push(110);
    r.push(47);
    r.push(118);
    r.push(110);
    r.push(100);
    r.push(46);
    r.push(111);
    r.push(99);
    r
}

pub open spec fn lit_man_pre_p1() -> Seq<u8> {
    seq![105u8, 46u8, 105u8, 109u8, 97u8, 103u8, 101u8, 46u8, 109u8, 97u8, 110u8, 105u8, 102u8, 101u8, 115u8, 116u8, 46u8, 118u8, 49u8, 43u8, 106u8, 115u8, 111u8, 110u8, 34u8, 44u8, 34u8, 99u8, 111u8, 110u8, 102u8, 105u8, 103u8, 34u8, 58u8, 123u8, 34u8, 109u8, 101u8, 100u8, 105u8, 97u8, 84u8, 121u8, 112u8, 101u8, 34u8, 58u8, 34u8, 97u8]
}

#[verifier::rlimit(100)]
fn lit_man_pre_p1_exec() -> (r: Vec<u8>)
    ensures
        r@ =~= lit_man_pre_p1(),
{
    let mut r: Vec<u8> = Vec::new();
    r.push(105);
    r.push(46);
    r.push(105);
    r.push(109);
    r.push(97);
    r.push(103);
    r.push(101);
    r.push(46);
    r.push(109);
    r.push(97);
    r.push(110);
    r.push(105);
    r.push(102);
    r.push(101);
    r.push(115);
    r.push(116);
    r.push(46);
    r.push(118);
    r.push(49);
    r.push(43);
    r.push(106);
    r.push(115);
    r.push(111);
    r.push(110);
    r.push(34);
    r.push(44);
    r.push(34);
    r.push(99);
    r.push(111);
    r.push(110);
    r.push(102);
    r.push(105);
    r.push(103);
    r.push(34);
    r.push(58);
    r.push(123);
    r.push(34);
    r.push(109);
    r.push(101);
    r.push(100);
    r.push(105);
    r.push(97);
    r.push(84);
    r.push(121);
    r.push(112);
    r.push(101);
    r.push(34);
    r.push(58);
    r.push(34);
    r.push(97);
    r
}

pub open spec fn lit_man_pre_p2() -> Seq<u8> {
    seq![112u8, 112u8, 108u8, 105u8, 99u8, 97u8, 116u8, 105u8, 111u8, 110u8, 47u8, 118u8, 110u8, 100u8, 46u8, 111u8, 99u8, 105u8, 46u8, 105u8, 109u8, 97u8, 103u8, 101u8, 46u8, 99u8, 111u8, 110u8, 102u8, 105u8, 103u8, 46u8, 118u8, 49u8, 43u8, 106u8, 115u8, 111u8, 110u8, 34u8, 44u8, 34u8, 100u8, 105u8, 103u8, 101u8, 115u8, 116u8, 34u8, 58u8]
}

#[verifier::rlimit(100)]
fn lit_man_pre_p2_exec() -> (r: Vec<u8>)
    ensures
        r@ =~= lit_man_pre_p2(),
{
    let mut r: Vec<u8> = Vec::new();
    r.push(112);
    r.push(112);
    r.push(108);
    r.push(105);
    r.push(99);
    r.push(97);
    r.push(116);
    r.push(105);
    r.push(111);
    r.push(110);
    r.push(47);
    r.push(118);
    r.push(110);
    r.push(100);
    r.push(46);
    r.push(111);
    r.push(99);
    r.push(105);
    r.push(46);
    r.push(105);
    r.push(109);
    r.push(97);
    r.push(103);
    r.push(101);
    r.push(46);
    r.push(99);
    r.push(111);
    r.push(110);
    r.push(102);
    r.push(105);
    r.push(103);
    r.push(46);
    r.push(118);
    r.push(49);
    r.push(43);
    r.push(106);
    r.push(115);
    r.push(111);
    r.push(110);
    r.push(34);
    r.push(44);
    r.push(34);
    r.push(100);
    r.push(105);
    r.push(103);
    r.push(101);
    r.push(115);
    r.push(116);
    r.push(34);
    r.push(58);
    r
}

pub open spec fn lit_man_pre_p3() -> Seq<u8> {
    seq![34u8, 115u8, 104u8, 97u8, 50u8, 53u8, 54u8, 58u8]
}

#[verifier::rlimit(100)]
fn lit_man_pre_p3_exec() -> (r: Vec<u8>)
    ensures
        r@ =~= lit_man_pre_p3(),
{
    let mut r: Vec<u8> = Vec::new();
    r.push(34);
    r.push(115);
    r.push(104);
    r.push(97);
    r.push(50);
    r.push(53);
    r.push(54);
    r.push(58);
    r
}

/// The bytes of the document head.
pub open spec fn lit_man_pre() -> Seq<u8> {
    lit_man_pre_p0() + lit_man_pre_p1() + lit_man_pre_p2() + lit_man_pre_p3()
}

fn lit_man_pre_exec() -> (r: Vec<u8>)
    ensures
        r@ =~= lit_man_pre(),
{
    let mut r: Vec<u8> = Vec::new();
    let p = lit_man_pre_p0_exec();
    push_all(&mut r, &p);
    let p = lit_man_pre_p1_exec();
    push_all(&mut r, &p);
    let p = lit_man_pre_p2_exec();
    push_all(&mut r, &p);
    let p = lit_man_pre_p3_exec();
    push_all(&mut r, &p);
    r
}

pub open spec fn lit_idx_pre_p0() -> Seq<u8> {
    seq![123u8, 34u8, 115u8, 99u8, 104u8, 101u8, 109u8, 97u8, 86u8, 101u8, 114u8, 115u8, 105u8, 111u8, 110u8, 34u8, 58u8, 50u8, 44u8, 34u8, 109u8, 97u8, 110u8, 105u8, 102u8, 101u8, 115u8, 116u8, 115u8, 34u8, 58u8, 91u8, 123u8, 34u8, 109u8, 101u8, 100u8, 105u8, 97u8, 84u8, 121u8, 112u8, 101u8, 34u8, 58u8, 34u8, 97u8, 112u8, 112u8, 108u8]
}

#[verifier::rlimit(100)]
fn lit_idx_pre_p0_exec() -> (r: Vec<u8>)
    ensures
        r@ =~= lit_idx_pre_p0(),
{
    let mut r: Vec<u8> = Vec::new();
    r.push(123);
    r.push(34);
    r.push(115);
    r.push(99);
    r.push(104);
    r.push(101);
    r.push(109);
    r.push(97);
    r.push(86);
    r.push(101);
    r.push(114);
    r.push(115);
    r.push(105);
    r.push(111);
    r.push(110);
    r.push(34);
    r.push(58);
    r.push(50);
    r.push(44);
    r.push(34);
    r.push(109);
    r.push(97);
    r.push(110);
    r.push(105);
    r.push(102);
    r.push(101);
    r.push(115);
    r.push(116);
    r.push(115);
    r.push(34);
    r.push(58);
    r.push(91);
    r.push(123);
    r.push(34);
    r.push(109);
    r.push(101);
    r.push(100);
    r.push(105);
    r.push(97);
    r.push(84);
    r.push(121);
    r.push(112);
    r.push(101);
    r.push(34);
    r.push(58);
    r.push(34);
    r.push(97);
    r.push(112);
    r.push(112);
    r.push(108);
    r
}

pub open spec fn lit_idx_pre_p1() -> Seq<u8> {
    seq![105u8, 99u8, 97u8, 116u8, 105u8, 111u8, 110u8, 47u8, 118u8, 110u8, 100u8, 46u8, 111u8, 99u8, 105u8, 46u8, 105u8, 109u8, 97u8, 103u8, 101u8, 46u8, 109u8, 97u8, 110u8, 105u8, 102u8, 101u8, 115u8, 116u8, 46u8, 118u8, 49u8, 43u8, 106u8, 115u8, 111u8, 110u8, 34u8, 44u8, 34u8, 100u8, 105u8, 103u8, 101u8, 115u8, 116u8, 34u8, 58u8, 34u8]
}

#[verifier::rlimit(100)]
fn lit_idx_pre_p1_exec() -> (r: Vec<u8>)
    ensures
        r@ =~= lit_idx_pre_p1(),
{
    let mut r: Vec<u8> = Vec::new();
    r.push(105);
    r.push(99);
    r.push(97);
    r.push(116);
    r.push(105);
    r.push(111);
    r.push(110);
    r.push(47);
    r.push(118);
    r.push(110);
    r.push(100);
    r.push(46);
    r.push(111);
    r.push(99);
    r.push(105);
    r.push(46);
    r.push(105);
    r.push(109);
    r.push(97);
    r.push(103);
    r.push(101);
    r.push(46);
    r.push(109);
    r.push(97);
    r.push(110);
    r.push(105);
    r.push(102);
    r.push(101);
    r.push(115);
    r.push(116);
    r.push(46);
    r.push(118);
    r.push(49);
    r.push(43);
    r.push(106);
    r.push(115);
    r.push(111);
    r.push(110);
    r.push(34);
    r.push(44);
    r.push(34);
    r.push(100);
    r.push(105);
    r.push(103);
    r.push(101);
    r.push(115);
    r.push(116);
    r.push(34);
    r.push(58);
    r.push(34);
    r
}

pub open spec fn lit_idx_pre_p2() -> Seq<u8> {
    seq![115u8, 104u8, 97u8, 50u8, 53u8, 54u8, 58u8]
}

#[verifier::rlimit(100)]
fn lit_idx_pre_p2_exec() -> (r: Vec<u8>)
    ensures
        r@ =~= lit_idx_pre_p2(),
{
    let mut r: Vec<u8> = Vec::new();
    r.push(115);
    r.push(104);
    r.push(97);
    r.push(50);
    r.push(53);
    r.push(54);
    r.push(58);
    r
}

/// The bytes of the document head.
pub open spec fn lit_idx_pre() -> Seq<u8> {
    lit_idx_pre_p0() + lit_idx_pre_p1() + lit_idx_pre_p2()
}

fn lit_idx_pre_exec() -> (r: Vec<u8>)
    ensures
        r@ =~= lit_idx_pre(),
{
    let mut r: Vec<u8> = Vec::new();
    let p = lit_idx_pre_p0_exec();
    push_all(&mut r, &p);
    let p = lit_idx_pre_p1_exec();
    push_all(&mut r, &p);
    let p = lit_idx_pre_p2_exec();
    push_all(&mut r, &p);
    r
}

/// The bytes of `'}]}'`.
pub open spec fn lit_idx_end() -> Seq<u8> {
    seq![125u8, 93u8, 125u8]
}

fn lit_idx_end_exec() -> (r: Vec<u8>)
    ensures
        r@ =~= lit_idx_end(),
{
    let mut r: Vec<u8> = Vec::new();
    r.push(125);
    r.push(93);
    r.push(125);
    r
}

/// The bytes of `'{"imageLayoutVersion":"1.0.0"}'`.
pub open spec fn lit_layout() -> Seq<u8> {
    seq![123u8, 34u8, 105u8, 109u8, 97u8, 103u8, 101u8, 76u8, 97u8, 121u8, 111u8, 117u8, 116u8, 86u8, 101u8, 114u8, 115u8, 105u8, 111u8, 110u8, 34u8, 58u8, 34u8, 49u8, 46u8, 48u8, 46u8, 48u8, 34u8, 125u8]
}

#[verifier::rlimit(100)]
fn lit_layout_exec() -> (r: Vec<u8>)
    ensures
        r@ =~= lit_layout(),
{
    let mut r: Vec<u8> = Vec::new();
    r.push(123);
    r.push(34);
    r.push(105);
    r.push(109);
    r.push(97);
    r.push(103);
    r.push(101);
    r.push(76);
    r.push(97);
    r.push(121);
    r.push(111);
    r.push(117);
    r.push(116);
    r.push(86);
    r.push(101);
    r.push(114);
    r.push(115);
    r.push(105);
    r.push(111);
    r.push(110);
    r.push(34);
    r.push(58);
    r.push(34);
    r.push(49);
    r.push(46);
    r.push(48);
    r.push(46);
    r.push(48);
    r.push(34);
    r.push(125);
    r
}

/// The bytes of `'blobs/sha256/'`.
pub open spec fn lit_blob_dir() -> Seq<u8> {
    seq![98u8, 108u8, 111u8, 98u8, 115u8, 47u8, 115u8, 104u8, 97u8, 50u8, 53u8, 54u8, 47u8]
}

fn lit_blob_dir_exec() -> (r: Vec<u8>)
    ensures
        r@ =~= lit_blob_dir(),
{
    let mut r: Vec<u8> = Vec::new();
    r.push(98);
    r.push(108);
    r.push(111);
    r.push(98);
    r.push(115);
    r.push(47);
    r.push(115);
    r.push(104);
    r.push(97);
    r.push(50);
    r.push(53);
    r.push(54);
    r.push(47);
    r
}

/// The bytes of `'oci-layout'`.
pub open spec fn lit_layout_name() -> Seq<u8> {
    seq![111u8, 99u8, 105u8, 45u8, 108u8, 97u8, 121u8, 111u8, 117u8, 116u8]
}

fn lit_layout_name_exec() -> (r: Vec<u8>)
    ensures
        r@ =~= lit_layout_name(),
{
    let mut r: Vec<u8> = Vec::new();
    r.push(111);
    r.push(99);
    r.push(105);
    r.push(45);
    r.push(108);
    r.push(97);
    r.push(121);
    r.push(111);
    r.push(117);
    r.push(116);
    r
}

/// The bytes of `'index.json'`.
pub open spec fn lit_index_name() -> Seq<u8> {
    seq![105u8, 110u8, 100u8, 101u8, 120u8, 46u8, 106u8, 115u8, 111u8, 110u8]
}

fn lit_index_name_exec() -> (r: Vec<u8>)
    ensures
        r@ =~= lit_index_name(),
{
    let mut r: Vec<u8> = Vec::new();
    r.push(105);
    r.push(110);
    r.push(100);
    r.push(101);
    r.push(120);
    r.push(46);
    r.push(106);
    r.push(115);
    r.push(111);
    r.push(110);
    r
}


/// The diff_ids array items: `"sha256:<hex>"`, comma separated.
pub open spec fn diff_ids_json(hexes: Seq<Seq<u8>>, n: int) -> Seq<u8>
    decreases n,
{
    if n <= 0 {
        Seq::empty()
    } else if n == 1 {
        lit_sha_pre() + hexes[0] + lit_quote()
    } else {
        diff_ids_json(hexes, n - 1) + lit_comma() + lit_sha_pre() + hexes[n - 1] + lit_quote()
    }
}

/// `n` history entries, one per layer, comma separated.
pub open spec fn history_json(n: int) -> Seq<u8>
    decreases n,
{
    if n <= 0 {
        Seq::empty()
    } else if n == 1 {
        lit_hist_item()
    } else {
        history_json(n - 1) + lit_comma() + lit_hist_item()
    }
}

/// The media type string of the layer compression.
pub open spec fn media_of(comp: Compression) -> Seq<u8> {
    match comp {
        Compression::Store => lit_media_tar(),
        Compression::Gzip => lit_media_gzip(),
    }
}

/// One manifest layer descriptor.
pub open spec fn layer_json(hex: Seq<u8>, size: u64, comp: Compression) -> Seq<u8> {
    lit_layer_pre() + media_of(comp) + lit_layer_dig() + hex + lit_man_size() + dec_rep(
        size as nat,
    ) + lit_layer_end()
}

/// The manifest layers array.
pub open spec fn layers_json(hexes: Seq<Seq<u8>>, sizes: Seq<u64>, comp: Compression, n: int) -> Seq<
    u8,
>
    decreases n,
{
    if n <= 0 {
        Seq::empty()
    } else if n == 1 {
        layer_json(hexes[0], sizes[0], comp)
    } else {
        layers_json(hexes, sizes, comp, n - 1) + lit_comma() + layer_json(
            hexes[n - 1],
            sizes[n - 1],
            comp,
        )
    }
}

/// The image configuration document.
pub open spec fn config_json(arch: Seq<u8>, os: Seq<u8>, diffhexes: Seq<Seq<u8>>, n: int) -> Seq<
    u8,
> {
    lit_cfg_a() + arch + lit_cfg_os() + os + lit_cfg_mid() + diff_ids_json(diffhexes, n)
        + lit_cfg_hist() + history_json(n) + lit_cfg_end()
}

/// The image manifest document.
pub open spec fn manifest_json(
    cfghex: Seq<u8>,
    cfgsize: u64,
    hexes: Seq<Seq<u8>>,
    sizes: Seq<u64>,
    comp: Compression,
    n: int,
) -> Seq<u8> {
    lit_man_pre() + cfghex + lit_man_size() + dec_rep(cfgsize as nat) + lit_man_layers()
        + layers_json(hexes, sizes, comp, n) + lit_man_end()
}

/// The image index document.
pub open spec fn index_json(manhex: Seq<u8>, mansize: u64) -> Seq<u8> {
    lit_idx_pre() + manhex + lit_man_size() + dec_rep(mansize as nat) + lit_idx_end()
}

/// The path of a blob inside the layout.
pub open spec fn blob_path(hex: Seq<u8>) -> Seq<u8> {
    lit_blob_dir() + hex
}

/// Computes the hex digest of `data`.
fn hex_digest(data: &Vec<u8>) -> (r: Vec<u8>)
    ensures
        r@ =~= hex_rep(sha256_of(data@)),
{
    let d = sha256(data);
    hex_vec(&d)
}


/// Builds the diff_ids array from layer stream hex digests.
fn build_diff_ids(hexes: &Vec<Vec<u8>>) -> (r: Vec<u8>)
    ensures
        r@ =~= diff_ids_json(hexes@.map(|i: int, h: Vec<u8>| h@), hexes@.len() as int),
{
    let ghost hs = hexes@.map(|i: int, h: Vec<u8>| h@);
    let mut r: Vec<u8> = Vec::new();
    let mut i: usize = 0;
    while i < hexes.len()
        invariant
            i <= hexes@.len(),
            hs == hexes@.map(|i2: int, h: Vec<u8>| h@),
            r@ =~= diff_ids_json(hs, i as int),
        decreases hexes@.len() - i,
    {
        if i > 0 {
            let c = lit_comma_exec();
            push_all(&mut r, &c);
        }
        let p = lit_sha_pre_exec();
        push_all(&mut r, &p);
        push_all(&mut r, &hexes[i]);
        let q = lit_quote_exec();
        push_all(&mut r, &q);
        proof {
            assert(hs[i as int] == hexes@[i as int]@);
        }
        i = i + 1;
    }
    r
}

/// Builds the history array: one fixed entry per layer.
fn build_history(n: usize) -> (r: Vec<u8>)
    ensures
        r@ =~= history_json(n as int),
{
    let mut r: Vec<u8> = Vec::new();
    let mut i: usize = 0;
    while i < n
        invariant
            i <= n,
            r@ =~= history_json(i as int),
        decreases n - i,
    {
        if i > 0 {
            let c = lit_comma_exec();
            push_all(&mut r, &c);
        }
        let h = lit_hist_item_exec();
        push_all(&mut r, &h);
        i = i + 1;
    }
    r
}

/// Builds the manifest layers array.
fn build_layers(hexes: &Vec<Vec<u8>>, sizes: &Vec<u64>, comp: Compression) -> (r: Vec<u8>)
    requires
        hexes@.len() == sizes@.len(),
    ensures
        r@ =~= layers_json(
            hexes@.map(|i: int, h: Vec<u8>| h@),
            sizes@,
            comp,
            hexes@.len() as int,
        ),
{
    let ghost hs = hexes@.map(|i: int, h: Vec<u8>| h@);
    let mut r: Vec<u8> = Vec::new();
    let mut i: usize = 0;
    while i < hexes.len()
        invariant
            i <= hexes@.len(),
            hexes@.len() == sizes@.len(),
            hs == hexes@.map(|i2: int, h: Vec<u8>| h@),
            r@ =~= layers_json(hs, sizes@, comp, i as int),
        decreases hexes@.len() - i,
    {
        if i > 0 {
            let c = lit_comma_exec();
            push_all(&mut r, &c);
        }
        let p = lit_layer_pre_exec();
        push_all(&mut r, &p);
        let m = match comp {
            Compression::Store => lit_media_tar_exec(),
            Compression::Gzip => lit_media_gzip_exec(),
        };
        push_all(&mut r, &m);
        let d = lit_layer_dig_exec();
        push_all(&mut r, &d);
        push_all(&mut r, &hexes[i]);
        let sz = lit_man_size_exec();
        push_all(&mut r, &sz);
        let dv = dec_vec(sizes[i]);
        push_all(&mut r, &dv);
        let e = lit_layer_end_exec();
        push_all(&mut r, &e);
        proof {
            assert(hs[i as int] == hexes@[i as int]@);
            assert(m@ =~= media_of(comp));
        }
        i = i + 1;
    }
    r
}

/// Assembles the OCI image layout from the chunks and the configuration.
///
/// Every produced byte is a function of the chunk entries, the clamp, the
/// compression and the platform names alone: the layer blobs, the config
/// with its diff_ids in chunk order and one history entry per layer, the
/// manifest, the layout marker and the index are all pinned by the spec
/// functions below, so repeated runs give identical archives.
#[verifier::rlimit(100)]
#[verifier::spinoff_prover]
pub fn assemble(chunks: &Vec<Chunk>, meta: &ImageMeta) -> (r: Result<OciLayout, AssembleError>)
    requires
        forall|j: int, i: int|
            0 <= j < chunks@.len() && 0 <= i < chunks@[j].entries@.len() ==> (
            #[trigger] chunks@[j].entries@[i]).wf() && entry_sizes_ok(
                chunks@[j].entries@[i]@,
            ),
        plain_text(meta.architecture@),
        plain_text(meta.os@),
    ensures
        r matches Ok(layout) ==> {
            let streams = Seq::new(
                chunks@.len(),
                |j: int|
                    tar_spec(
                        chunks@[j].entries@.map(|i: int, f: FileInfo| f@),
                        meta.mtime_clamp,
                    ),
            );
            let blobs = Seq::new(
                chunks@.len(),
                |j: int| layer_blob_of(streams[j], meta.compression),
            );
            let diffhexes = Seq::new(chunks@.len(), |j: int| hex_rep(sha256_of(streams[j])));
            let blobhexes = Seq::new(chunks@.len(), |j: int| hex_rep(sha256_of(blobs[j])));
            let cfg = config_json(
                meta.architecture@,
                meta.os@,
                diffhexes,
                chunks@.len() as int,
            );
            &&& layout.files@.len() == chunks@.len() + 4
            &&& forall|j: int|
                0 <= j < chunks@.len() ==> (#[trigger] layout.files@[j]).data@ =~= blobs[j]
                    && layout.files@[j].path@ =~= blob_path(blobhexes[j])
            &&& layout.files@[chunks@.len() as int].data@ =~= cfg
            &&& layout.files@[chunks@.len() as int].path@ =~= blob_path(hex_rep(sha256_of(cfg)))
            &&& layout.files@[chunks@.len() as int + 1].path@ =~= lit_layout_name()
            &&& layout.files@[chunks@.len() as int + 1].data@ =~= lit_layout()
            &&& {
                let man = manifest_json(
                    hex_rep(sha256_of(cfg)),
                    cfg.len() as u64,
                    blobhexes,
                    Seq::new(chunks@.len(), |j: int| blobs[j].len() as u64),
                    meta.compression,
                    chunks@.len() as int,
                );
                &&& layout.files@[chunks@.len() as int + 2].data@ =~= man
                &&& layout.files@[chunks@.len() as int + 2].path@ =~= blob_path(
                    hex_rep(sha256_of(man)),
                )
                &&& layout.files@[chunks@.len() as int + 3].data@ =~= index_json(
                    hex_rep(sha256_of(man)),
                    man.len() as u64,
                )
            }
            &&& layout.files@[chunks@.len() as int + 3].path@ =~= lit_index_name()
        },
        r is Ok <==> (forall|j: int, i: int|
            0 <= j < chunks@.len() && 0 <= i < chunks@[j].entries@.len() ==> entry_keys_ok(
                (#[trigger] chunks@[j].entries@[i])@,
            )),
        r matches Err(AssembleError::Serialize(SerializeError::InvalidXattrKey(p)))
            ==> exists|j: int, i: int|
            0 <= j < chunks@.len() && 0 <= i < chunks@[j].entries@.len() && !entry_keys_ok(
                (#[trigger] chunks@[j].entries@[i])@,
            ) && p@ =~= chunks@[j].entries@[i].path@,
{
    let ghost streams = Seq::new(
        chunks@.len(),
        |j: int| tar_spec(chunks@[j].entries@.map(|i: int, f: FileInfo| f@), meta.mtime_clamp),
    );
    let ghost blobsg = Seq::new(
        chunks@.len(),
        |j: int| layer_blob_of(streams[j], meta.compression),
    );
    let mut files: Vec<OciFile> = Vec::new();
    let mut diffs: Vec<Vec<u8>> = Vec::new();
    let mut lhex: Vec<Vec<u8>> = Vec::new();
    let mut lsizes: Vec<u64> = Vec::new();
    let mut j: usize = 0;
    while j < chunks.len()
        invariant
            j <= chunks@.len(),
            forall|j2: int, i: int|
                0 <= j2 < chunks@.len() && 0 <= i < chunks@[j2].entries@.len() ==> (
                #[trigger] chunks@[j2].entries@[i]).wf() && entry_sizes_ok(
                    chunks@[j2].entries@[i]@,
                ),
            streams == Seq::new(
                chunks@.len(),
                |j2: int|
                    tar_spec(
                        chunks@[j2].entries@.map(|i: int, f: FileInfo| f@),
                        meta.mtime_clamp,
                    ),
            ),
            blobsg == Seq::new(
                chunks@.len(),
                |j2: int| layer_blob_of(streams[j2], meta.compression),
            ),
            files@.len() == j,
            diffs@.len() == j,
            lhex@.len() == j,
            lsizes@.len() == j,
            forall|j2: int|
                0 <= j2 < j ==> (#[trigger] diffs@[j2])@ =~= hex_rep(sha256_of(streams[j2])),
            forall|j2: int|
                0 <= j2 < j ==> (#[trigger] lhex@[j2])@ =~= hex_rep(sha256_of(blobsg[j2])),
            forall|j2: int| 0 <= j2 < j ==> (#[trigger] lsizes@[j2]) as int == blobsg[j2].len(),
            forall|j2: int|
                0 <= j2 < j ==> (#[trigger] files@[j2]).data@ =~= blobsg[j2]
                    && files@[j2].path@ =~= blob_path(hex_rep(sha256_of(blobsg[j2]))),
            forall|j2: int, i: int|
                0 <= j2 < j && 0 <= i < chunks@[j2].entries@.len() ==> entry_keys_ok(
                    (#[trigger] chunks@[j2].entries@[i])@,
                ),
        decreases chunks@.len() - j,
    {
        let stream = match serialize_chunk(&chunks[j], meta.mtime_clamp) {
            Ok(b) => b,
            Err(e) => {
                proof {
                    assert(exists|i: int|
                        0 <= i < chunks@[j as int].entries@.len() && !entry_keys_ok(
                            (#[trigger] chunks@[j as int].entries@[i])@,
                        ));
                }
                return Err(AssembleError::Serialize(e));
            },
        };
        proof {
            assert(stream@ =~= streams[j as int]);
        }
        let dh = hex_digest(&stream);
        diffs.push(dh);
        let blob = match meta.compression {
            Compression::Store => stream,
            Compression::Gzip => gzip(&stream),
        };
        proof {
            assert(blob@ =~= blobsg[j as int]);
        }
        let bh = hex_digest(&blob);
        lhex.push(crate::model::clone_bytes(&bh));
        lsizes.push(blob.len() as u64);
        let mut path = lit_blob_dir_exec();
        push_all(&mut path, &bh);
        files.push(OciFile { path, data: blob });
        j = j + 1;
    }
    // The configuration document and its blob.
    let ids = build_diff_ids(&diffs);
    let mut cfg = lit_cfg_a_exec();
    push_all(&mut cfg, &meta.architecture);
    let t = lit_cfg_os_exec();
    push_all(&mut cfg, &t);
    push_all(&mut cfg, &meta.os);
    let t = lit_cfg_mid_exec();
    push_all(&mut cfg, &t);
    push_all(&mut cfg, &ids);
    let t = lit_cfg_hist_exec();
    push_all(&mut cfg, &t);
    let h = build_history(chunks.len());
    push_all(&mut cfg, &h);
    let t = lit_cfg_end_exec();
    push_all(&mut cfg, &t);
    let ghost diffhexes = Seq::new(chunks@.len(), |j2: int| hex_rep(sha256_of(streams[j2])));
    proof {
        assert(diffs@.map(|i2: int, h2: Vec<u8>| h2@) =~= diffhexes);
        assert(cfg@ =~= config_json(
            meta.architecture@,
            meta.os@,
            diffhexes,
            chunks@.len() as int,
        ));
    }
    let cfg_hex = hex_digest(&cfg);
    let cfg_size = cfg.len() as u64;
    let mut cfg_path = lit_blob_dir_exec();
    push_all(&mut cfg_path, &cfg_hex);
    let ghost cfgv = cfg@;
    // The manifest and its blob.
    let mut man = lit_man_pre_exec();
    push_all(&mut man, &cfg_hex);
    let t = lit_man_size_exec();
    push_all(&mut man, &t);
    let d = dec_vec(cfg_size);
    push_all(&mut man, &d);
    let t = lit_man_layers_exec();
    push_all(&mut man, &t);
    let ls = build_layers(&lhex, &lsizes, meta.compression);
    push_all(&mut man, &ls);
    let t = lit_man_end_exec();
    push_all(&mut man, &t);
    let man_hex = hex_digest(&man);
    let man_size = man.len() as u64;
    let mut man_path = lit_blob_dir_exec();
    push_all(&mut man_path, &man_hex);
    // The index document.
    let mut idx = lit_idx_pre_exec();
    push_all(&mut idx, &man_hex);
    let t = lit_man_size_exec();
    push_all(&mut idx, &t);
    let d = dec_vec(man_size);
    push_all(&mut idx, &d);
    let t = lit_idx_end_exec();
    push_all(&mut idx, &t);
    files.push(OciFile { path: cfg_path, data: cfg });
    let lpath = lit_layout_name_exec();
    let ldata = lit_layout_exec();
    files.push(OciFile { path: lpath, data: ldata });
    files.push(OciFile { path: man_path, data: man });
    let ipath = lit_index_name_exec();
    files.push(OciFile { path: ipath, data: idx });
    proof {
        assert(files@[chunks@.len() as int].data@ =~= cfgv);
        assert(files@[chunks@.len() as int].path@ =~= blob_path(hex_rep(sha256_of(cfgv))));
        let manv = manifest_json(
            hex_rep(sha256_of(cfgv)),
            cfgv.len() as u64,
            Seq::new(chunks@.len(), |j2: int| hex_rep(sha256_of(blobsg[j2]))),
            Seq::new(chunks@.len(), |j2: int| blobsg[j2].len() as u64),
            meta.compression,
            chunks@.len() as int,
        );
        assert(lhex@.map(|i2: int, h2: Vec<u8>| h2@) =~= Seq::new(
            chunks@.len(),
            |j2: int| hex_rep(sha256_of(blobsg[j2])),
        ));
        assert(lsizes@ =~= Seq::new(chunks@.len(), |j2: int| blobsg[j2].len() as u64));
        assert(files@[chunks@.len() as int + 2].data@ =~= manv);
        assert(files@[chunks@.len() as int + 2].path@ =~= blob_path(hex_rep(sha256_of(manv))));
        assert(files@[chunks@.len() as int + 3].data@ =~= index_json(
            hex_rep(sha256_of(manv)),
            manv.len() as u64,
        ));
    }
    Ok(OciLayout { files })
}

} // verus!
