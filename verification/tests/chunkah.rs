use std::io::Read;
use sha2::Digest;

use chunkah::get_current_epoch;
use chunkah::get_goarch;
use chunkah::model::{Budget, Chunk, Component, FileInfo, FileMap, FileType};
use chunkah::oci::{assemble, AssembleError, Compression, ImageMeta};
use chunkah::packing::pack;
use chunkah::tar::{serialize_chunk, SerializeError};

fn file(path: &str, content: &[u8], mtime: u64) -> FileInfo {
    FileInfo {
        path: path.as_bytes().to_vec(),
        file_type: FileType::File,
        size: content.len() as u64,
        mode: 0o644,
        uid: 0,
        gid: 0,
        mtime,
        link_target: Vec::new(),
        xattrs: Vec::new(),
        content: content.to_vec(),
    }
}

fn dir(path: &str) -> FileInfo {
    FileInfo {
        path: path.as_bytes().to_vec(),
        file_type: FileType::Directory,
        size: 0,
        mode: 0o755,
        uid: 0,
        gid: 0,
        mtime: 100,
        link_target: Vec::new(),
        xattrs: Vec::new(),
        content: Vec::new(),
    }
}

fn symlink(path: &str, target: &str) -> FileInfo {
    FileInfo {
        path: path.as_bytes().to_vec(),
        file_type: FileType::Symlink,
        size: 0,
        mode: 0o777,
        uid: 0,
        gid: 0,
        mtime: 100,
        link_target: target.as_bytes().to_vec(),
        xattrs: Vec::new(),
        content: Vec::new(),
    }
}

fn filemap(mut entries: Vec<FileInfo>) -> FileMap {
    entries.sort_by(|a, b| a.path.cmp(&b.path));
    FileMap { entries }
}

fn component(name: &str, paths: &[&str]) -> Component {
    Component {
        name: name.as_bytes().to_vec(),
        paths: paths.iter().map(|p| p.as_bytes().to_vec()).collect(),
    }
}

fn all_paths(chunks: &[Chunk]) -> Vec<Vec<u8>> {
    let mut v = Vec::new();
    for c in chunks {
        for e in &c.entries {
            v.push(e.path.clone());
        }
    }
    v
}

fn chunk_bytes(c: &Chunk) -> u64 {
    c.entries
        .iter()
        .map(|e| if e.file_type == FileType::File { e.size } else { 0 })
        .sum()
}

#[test]
fn test_get_goarch() {
    assert_eq!(get_goarch("x86_64"), "amd64");
    assert_eq!(get_goarch("aarch64"), "arm64");
    assert_eq!(get_goarch("powerpc64"), "ppc64le");
    assert_eq!(get_goarch("amd64"), "amd64"); // passthrough
    assert_eq!(get_goarch("unknown"), "unknown"); // passthrough
}

#[test]
fn test_get_current_epoch_is_recent() {
    let t = get_current_epoch().unwrap();
    // well after 2020-01-01
    assert!(t > 1577836800);
}

#[test]
fn test_pack_rejects_zero_chunks() {
    let files = filemap(vec![dir("/a")]);
    let r = pack(&files, &Vec::new(), &Budget { max_chunk_bytes: 100, max_chunks: 0 });
    assert!(matches!(r, Err(chunkah::model::PackError::BudgetTooSmall)));
}

#[test]
fn test_pack_rejects_empty_scan() {
    let files = FileMap { entries: Vec::new() };
    let r = pack(&files, &Vec::new(), &Budget { max_chunk_bytes: 100, max_chunks: 10 });
    assert!(matches!(r, Err(chunkah::model::PackError::NoComponents)));
}

/// Two components and two loose files under a generous budget: everything
/// lands exactly once, directory-complete, within the budget and the chunk
/// ceiling; the large component's paths never follow the residual ones.
#[test]
fn test_pack_two_components_and_residual() {
    let mib = 1024 * 1024;
    let mut entries = vec![dir("/a"), dir("/b"), dir("/x")];
    let mut a_paths = vec!["/a"];
    let names: Vec<String> = (0..10).map(|i| format!("/a/f{}", i)).collect();
    for n in &names {
        entries.push(file(n, &vec![7u8; 5 * mib], 100));
    }
    for n in &names {
        a_paths.push(n);
    }
    entries.push(file("/b/big", &vec![1u8; 5 * mib], 100));
    entries.push(file("/x/l1", &vec![2u8; 1024], 100));
    entries.push(file("/x/l2", &vec![3u8; 1024], 100));
    let files = filemap(entries);
    let comps = vec![component("compa", &a_paths), component("compb", &["/b", "/b/big"])];
    let budget = Budget { max_chunk_bytes: 100 * mib as u64, max_chunks: 10 };
    let chunks = pack(&files, &comps, &budget).unwrap();

    // completeness: every scanned path exactly once
    let mut got = all_paths(&chunks);
    got.sort();
    let mut want: Vec<Vec<u8>> = files.entries.iter().map(|e| e.path.clone()).collect();
    want.sort();
    assert_eq!(got, want);
    // budget and ceiling
    assert!(chunks.len() <= 10);
    for (i, c) in chunks.iter().enumerate() {
        assert!(
            chunk_bytes(c) <= budget.max_chunk_bytes
                || c.components.len() == 1
                || i == chunks.len() - 1
        );
    }
    // the first chunk starts with the largest component
    assert_eq!(chunks[0].components[0], b"compa".to_vec());
    // directory-completeness
    for (i, c) in chunks.iter().enumerate() {
        for e in &c.entries {
            let p = String::from_utf8(e.path.clone()).unwrap();
            if let Some(pos) = p.rfind('/') {
                if pos > 0 {
                    let parent = p[..pos].as_bytes().to_vec();
                    let seen = chunks[..=i]
                        .iter()
                        .any(|c2| c2.entries.iter().any(|e2| e2.path == parent));
                    assert!(seen, "ancestor {} missing", &p[..pos]);
                }
            }
        }
    }
}

/// A single component larger than the byte budget gets its own oversized
/// chunk; everything else stays within the budget.
#[test]
fn test_pack_oversized_component_own_chunk() {
    let entries = vec![
        dir("/big"),
        file("/big/blob", &vec![9u8; 300], 100),
        dir("/small"),
        file("/small/f", &vec![1u8; 10], 100),
    ];
    let files = filemap(entries);
    let comps = vec![
        component("big", &["/big", "/big/blob"]),
        component("small", &["/small", "/small/f"]),
    ];
    let budget = Budget { max_chunk_bytes: 100, max_chunks: 10 };
    let chunks = pack(&files, &comps, &budget).unwrap();
    assert_eq!(chunks.len(), 2);
    // the oversized chunk holds exactly the one component
    assert_eq!(chunks[0].components.len(), 1);
    assert_eq!(chunks[0].components[0], b"big".to_vec());
    assert!(chunk_bytes(&chunks[0]) > 100);
    // the other chunk respects the budget
    assert!(chunk_bytes(&chunks[1]) <= 100);
}

/// With a ceiling of one chunk, everything merges into a single
/// directory-complete chunk.
#[test]
fn test_pack_single_chunk_ceiling() {
    let entries = vec![
        dir("/a"),
        file("/a/f", b"aaa", 100),
        dir("/b"),
        file("/b/g", b"bbbb", 100),
        file("/loose", b"x", 100),
    ];
    let files = filemap(entries);
    let comps = vec![component("ca", &["/a", "/a/f"]), component("cb", &["/b", "/b/g"])];
    let budget = Budget { max_chunk_bytes: 1, max_chunks: 1 };
    let chunks = pack(&files, &comps, &budget).unwrap();
    assert_eq!(chunks.len(), 1);
    let mut got = all_paths(&chunks);
    got.sort();
    let mut want: Vec<Vec<u8>> = files.entries.iter().map(|e| e.path.clone()).collect();
    want.sort();
    assert_eq!(got, want);
    // dirs precede their contents
    let paths = all_paths(&chunks);
    let ia = paths.iter().position(|p| p == &b"/a".to_vec()).unwrap();
    let iaf = paths.iter().position(|p| p == &b"/a/f".to_vec()).unwrap();
    assert!(ia < iaf);
}

/// Components of equal size order by name; with no components at all,
/// everything becomes one residual chunk.
#[test]
fn test_pack_tie_order_and_residual_only() {
    let entries = vec![
        dir("/m"),
        file("/m/x", b"12345", 100),
        dir("/n"),
        file("/n/y", b"67890", 100),
    ];
    let files = filemap(entries);
    // equal sizes: names decide, "ma" before "mb"
    let comps = vec![component("mb", &["/n", "/n/y"]), component("ma", &["/m", "/m/x"])];
    let budget = Budget { max_chunk_bytes: 4, max_chunks: 10 };
    let chunks = pack(&files, &comps, &budget).unwrap();
    assert_eq!(chunks.len(), 2);
    assert_eq!(chunks[0].components[0], b"ma".to_vec());
    assert_eq!(chunks[1].components[0], b"mb".to_vec());

    // no components: a single residual chunk holds the whole scan
    let files2 = filemap(vec![dir("/m"), file("/m/x", b"12345", 100)]);
    let chunks2 = pack(&files2, &Vec::new(), &budget).unwrap();
    assert_eq!(chunks2.len(), 1);
    assert_eq!(chunks2[0].components, vec![b"residual".to_vec()]);
    assert_eq!(all_paths(&chunks2), vec![b"/m".to_vec(), b"/m/x".to_vec()]);
}

/// A non-text xattr key fails serialization with the offending path, and
/// assembly aborts without producing a layout.
#[test]
fn test_serialize_rejects_non_text_xattr_key() {
    let mut bad = file("/etc/conf", b"data", 100);
    bad.path = b"/etc/conf".to_vec();
    bad.xattrs.push((vec![0xffu8, 0x01u8], b"v".to_vec()));
    let chunk = Chunk { components: vec![b"c".to_vec()], entries: vec![dir("/etc"), bad] };
    let r = serialize_chunk(&chunk, 1000);
    match r {
        Err(SerializeError::InvalidXattrKey(p)) => assert_eq!(p, b"/etc/conf".to_vec()),
        _ => panic!("expected InvalidXattrKey"),
    }
    let meta = ImageMeta {
        architecture: b"amd64".to_vec(),
        os: b"linux".to_vec(),
        compression: Compression::Gzip,
        mtime_clamp: 1000,
    };
    match assemble(&vec![chunk], &meta) {
        Err(AssembleError::Serialize(SerializeError::InvalidXattrKey(p))) => {
            assert_eq!(p, b"/etc/conf".to_vec())
        },
        _ => panic!("expected serialize failure"),
    }
}

/// The serialized stream is a valid tar: the `tar` crate reads back the
/// same paths, kinds, sizes, modes and contents, and every mtime is the
/// minimum of the scanned mtime and the clamp.
#[test]
fn test_tar_roundtrip_and_mtime_clamp() {
    let mut f = file("/d/hello.txt", b"content", 2000);
    f.xattrs.push((b"user.test".to_vec(), b"val".to_vec()));
    let entries = vec![dir("/d"), f, symlink("/d/link", "hello.txt")];
    let chunk = Chunk { components: vec![b"c".to_vec()], entries };
    let clamp = 500;
    let bytes = serialize_chunk(&chunk, clamp).unwrap();
    let mut ar = tar::Archive::new(bytes.as_slice());
    let mut seen = Vec::new();
    for e in ar.entries().unwrap() {
        let mut e = e.unwrap();
        let path = e.path().unwrap().to_string_lossy().to_string();
        let kind = e.header().entry_type();
        let mtime = e.header().mtime().unwrap();
        assert!(mtime <= clamp, "mtime {} not clamped", mtime);
        if path == "d/hello.txt" {
            assert!(kind.is_file());
            let mut c = Vec::new();
            e.read_to_end(&mut c).unwrap();
            assert_eq!(c, b"content");
            assert_eq!(e.header().mode().unwrap(), 0o644);
            // original mtime 2000 exceeds the clamp of 500
            assert_eq!(mtime, 500);
            let xs = e.pax_extensions().unwrap().unwrap();
            let mut found = false;
            for x in xs {
                let x = x.unwrap();
                if x.key().unwrap() == "SCHILY.xattr.user.test" {
                    assert_eq!(x.value_bytes(), b"val");
                    found = true;
                }
            }
            assert!(found, "xattr record missing");
        }
        if path == "d/link" {
            assert!(kind.is_symlink());
            assert_eq!(
                e.link_name().unwrap().unwrap().to_string_lossy(),
                "hello.txt"
            );
        }
        seen.push(path);
    }
    assert_eq!(seen, vec!["d/", "d/hello.txt", "d/link"]);
    // a directory mtime below the clamp passes through unchanged
    let bytes2 = serialize_chunk(&chunk, 5000).unwrap();
    let mut ar2 = tar::Archive::new(bytes2.as_slice());
    let first = ar2.entries().unwrap().next().unwrap().unwrap();
    assert_eq!(first.header().mtime().unwrap(), 100);
}

/// The assembled layout is complete, its gzip blobs decompress back to the
/// tar streams, the digests in the blob names match the contents, and two
/// runs over the same input are byte-identical.
#[test]
fn test_assemble_layout_and_determinism() {
    let entries = vec![dir("/opt"), file("/opt/app", b"binary-bits", 100)];
    let files = filemap(entries);
    let comps = vec![component("app", &["/opt", "/opt/app"])];
    let budget = Budget { max_chunk_bytes: 1 << 20, max_chunks: 5 };
    let chunks = pack(&files, &comps, &budget).unwrap();
    let meta = ImageMeta {
        architecture: b"amd64".to_vec(),
        os: b"linux".to_vec(),
        compression: Compression::Gzip,
        mtime_clamp: 1000,
    };
    let layout = assemble(&chunks, &meta).unwrap();
    assert_eq!(layout.files.len(), chunks.len() + 4);

    // layer blob: name matches content digest, content decompresses to the tar stream
    let blob = &layout.files[0];
    let digest = sha2::Sha256::digest(&blob.data);
    let hex: String = digest.iter().map(|b| format!("{:02x}", b)).collect();
    assert_eq!(blob.path, format!("blobs/sha256/{}", hex).into_bytes());
    let mut dec = flate2::read::GzDecoder::new(blob.data.as_slice());
    let mut stream = Vec::new();
    dec.read_to_end(&mut stream).unwrap();
    let direct = serialize_chunk(&chunks[0], 1000).unwrap();
    assert_eq!(stream, direct);

    // config blob holds the diff id of the uncompressed stream
    let cfg = &layout.files[chunks.len()];
    let cfg_text = String::from_utf8(cfg.data.clone()).unwrap();
    let diff = sha2::Sha256::digest(&stream);
    let diffhex: String = diff.iter().map(|b| format!("{:02x}", b)).collect();
    assert!(cfg_text.contains(&format!("\"diff_ids\":[\"sha256:{}\"]", diffhex)));
    assert!(cfg_text.contains("\"architecture\":\"amd64\""));
    assert!(cfg_text.contains("\"os\":\"linux\""));

    // marker and index names
    assert_eq!(layout.files[chunks.len() + 1].path, b"oci-layout".to_vec());
    assert_eq!(
        layout.files[chunks.len() + 1].data,
        b"{\"imageLayoutVersion\":\"1.0.0\"}".to_vec()
    );
    assert_eq!(layout.files[chunks.len() + 3].path, b"index.json".to_vec());
    let idx_text = String::from_utf8(layout.files[chunks.len() + 3].data.clone()).unwrap();
    let man = &layout.files[chunks.len() + 2];
    let mandig = sha2::Sha256::digest(&man.data);
    let manhex: String = mandig.iter().map(|b| format!("{:02x}", b)).collect();
    assert!(idx_text.contains(&format!("sha256:{}", manhex)));

    // determinism: a second full run gives identical bytes everywhere
    let chunks2 = pack(&files, &comps, &budget).unwrap();
    let layout2 = assemble(&chunks2, &meta).unwrap();
    assert_eq!(layout.files.len(), layout2.files.len());
    for (a, b) in layout.files.iter().zip(layout2.files.iter()) {
        assert_eq!(a.path, b.path);
        assert_eq!(a.data, b.data);
    }

    // stored (uncompressed) layers carry the tar media type and raw stream
    let meta_store = ImageMeta { compression: Compression::Store, ..restmeta() };
    let layout3 = assemble(&chunks, &meta_store).unwrap();
    assert_eq!(layout3.files[0].data, direct);
    let man3 = String::from_utf8(layout3.files[chunks.len() + 2].data.clone()).unwrap();
    assert!(man3.contains("application/vnd.oci.image.layer.v1.tar\""));
}

fn restmeta() -> ImageMeta {
    ImageMeta {
        architecture: b"amd64".to_vec(),
        os: b"linux".to_vec(),
        compression: Compression::Gzip,
        mtime_clamp: 1000,
    }
}
