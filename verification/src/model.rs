use vstd::prelude::*;
use crate::bytes::lex_lt;

verus! {

// The data model: one scanned filesystem entry, the scan result as an
// ordered map, the component records that claim paths, and the chunks the
// packing engine produces.

/// Kind of one filesystem entry.
#[derive(Clone, Copy, PartialEq, Eq, Structural, Debug)]
pub enum FileType {
    File,
    Directory,
    Symlink,
    Fifo,
    CharDevice,
    BlockDevice,
}

/// Immutable record of one scanned filesystem entry.
///
/// `path` is absolute UTF-8, held as bytes; `content` carries the bytes of a
/// regular file (empty for every other kind) so that serialization is a pure
/// function of the record.
#[derive(Debug)]
pub struct FileInfo {
    pub path: Vec<u8>,
    pub file_type: FileType,
    pub size: u64,
    pub mode: u32,
    pub uid: u32,
    pub gid: u32,
    pub mtime: u64,
    pub link_target: Vec<u8>,
    pub xattrs: Vec<(Vec<u8>, Vec<u8>)>,
    pub content: Vec<u8>,
}

/// Mathematical value of a `FileInfo` record.
pub ghost struct FileInfoModel {
    pub path: Seq<u8>,
    pub file_type: FileType,
    pub size: u64,
    pub mode: u32,
    pub uid: u32,
    pub gid: u32,
    pub mtime: u64,
    pub link_target: Seq<u8>,
    pub xattrs: Seq<(Seq<u8>, Seq<u8>)>,
    pub content: Seq<u8>,
}

impl View for FileInfo {
    type V = FileInfoModel;

    open spec fn view(&self) -> FileInfoModel {
        FileInfoModel {
            path: self.path@,
            file_type: self.file_type,
            size: self.size,
            mode: self.mode,
            uid: self.uid,
            gid: self.gid,
            mtime: self.mtime,
            link_target: self.link_target@,
            xattrs: self.xattrs@.map(|i: int, kv: (Vec<u8>, Vec<u8>)| (kv.0@, kv.1@)),
            content: self.content@,
        }
    }
}

/// Copies a byte vector; the derived `Clone` would say nothing to the
/// verifier, so copying is spelled out.
pub fn clone_bytes(v: &Vec<u8>) -> (r: Vec<u8>)
    ensures
        r@ =~= v@,
{
    let mut r: Vec<u8> = Vec::new();
    let mut i: usize = 0;
    while i < v.len()
        invariant
            i <= v.len(),
            r@ =~= v@.subrange(0, i as int),
        decreases v.len() - i,
    {
        r.push(v[i]);
        proof {
            assert(v@.subrange(0, i as int + 1) =~= v@.subrange(0, i as int).push(v@[i as int]));
        }
        i = i + 1;
    }
    proof {
        assert(v@.subrange(0, v@.len() as int) =~= v@);
    }
    r
}

/// Copies a record, field by field, preserving its mathematical value.
pub fn clone_info(f: &FileInfo) -> (r: FileInfo)
    ensures
        r@ =~= f@,
{
    let mut xs: Vec<(Vec<u8>, Vec<u8>)> = Vec::new();
    let mut i: usize = 0;
    while i < f.xattrs.len()
        invariant
            i <= f.xattrs@.len(),
            xs@.len() == i,
            forall|j: int|
                0 <= j < i ==> (#[trigger] xs@[j]).0@ =~= f.xattrs@[j].0@ && xs@[j].1@
                    =~= f.xattrs@[j].1@,
        decreases f.xattrs@.len() - i,
    {
        let k = clone_bytes(&f.xattrs[i].0);
        let v = clone_bytes(&f.xattrs[i].1);
        xs.push((k, v));
        i = i + 1;
    }
    let r = FileInfo {
        path: clone_bytes(&f.path),
        file_type: f.file_type,
        size: f.size,
        mode: f.mode,
        uid: f.uid,
        gid: f.gid,
        mtime: f.mtime,
        link_target: clone_bytes(&f.link_target),
        xattrs: xs,
        content: clone_bytes(&f.content),
    };
    proof {
        assert(r@.xattrs =~= f@.xattrs);
    }
    r
}

/// An absolute path: starts with `/`, no empty components, no trailing
/// slash, and not the bare root.
pub open spec fn valid_path(p: Seq<u8>) -> bool {
    &&& p.len() >= 2
    &&& p[0] == 47u8
    &&& p[p.len() - 1] != 47u8
    &&& forall|i: int| 1 <= i < p.len() ==> !((#[trigger] p[i]) == 47u8 && p[i - 1] == 47u8)
}

/// `d` is a strict ancestor directory of `p` (the root is never listed).
pub open spec fn is_ancestor(d: Seq<u8>, p: Seq<u8>) -> bool {
    &&& 0 < d.len() < p.len()
    &&& d =~= p.subrange(0, d.len() as int)
    &&& p[d.len() as int] == 47u8
}

pub proof fn lemma_ancestor_valid(d: Seq<u8>, p: Seq<u8>)
    requires
        valid_path(p),
        is_ancestor(d, p),
    ensures
        valid_path(d),
        lex_lt(d, p),
{
    assert(d[0] == p[0]);
    assert(d.len() >= 2) by {
        if d.len() == 1 {
            assert(p[1] == 47u8 && p[0] == 47u8);
        }
    }
    assert(d[d.len() - 1] == p[d.len() - 1]);
    assert(!(p[d.len() as int] == 47u8 && p[d.len() - 1] == 47u8));
    crate::bytes::lemma_prefix_lex_lt(d, p);
}

impl FileInfo {
    /// Well-formedness of one record: a valid path, a link target only on
    /// symlinks, content only on regular files and matching the size, and
    /// permission bits that fit the classic mode field.
    pub open spec fn wf(self) -> bool {
        &&& valid_path(self.path@)
        &&& self.file_type != FileType::Symlink ==> self.link_target@.len() == 0
        &&& self.file_type == FileType::File ==> self.content@.len() == self.size
        &&& self.file_type != FileType::File ==> self.content@.len() == 0
        &&& self.mode <= 0o7777
    }

    /// The bytes this entry contributes to a chunk's budget: regular file
    /// sizes count, everything else weighs nothing.
    pub open spec fn weight(self) -> int {
        if self.file_type == FileType::File {
            self.size as int
        } else {
            0
        }
    }
}

/// The scan result: entries strictly ordered by path. An ancestor of a
/// scanned path that is itself scanned must be a directory (the scan walks a
/// tree), and every ancestor of a scanned path is scanned (the walk reports
/// a directory before its contents).
pub struct FileMap {
    pub entries: Vec<FileInfo>,
}

impl FileMap {
    pub open spec fn paths(self) -> Seq<Seq<u8>> {
        self.entries@.map(|i: int, f: FileInfo| f.path@)
    }

    pub open spec fn has_path(self, p: Seq<u8>) -> bool {
        exists|i: int| 0 <= i < self.entries@.len() && self.entries@[i].path@ =~= p
    }

    /// Strictly sorted by path and entry-wise well formed.
    pub open spec fn wf(self) -> bool {
        &&& forall|i: int, j: int|
            0 <= i < j < self.entries@.len() ==> lex_lt(
                self.entries@[i].path@,
                self.entries@[j].path@,
            )
        &&& forall|i: int| 0 <= i < self.entries@.len() ==> (#[trigger] self.entries@[i]).wf()
        &&& forall|i: int, j: int|
            0 <= i < self.entries@.len() && 0 <= j < self.entries@.len() && is_ancestor(
                self.entries@[i].path@,
                self.entries@[j].path@,
            ) ==> self.entries@[i].file_type == FileType::Directory
    }

    /// Every ancestor of a scanned path was itself scanned.
    pub open spec fn ancestor_closed(self) -> bool {
        forall|j: int, d: Seq<u8>|
            0 <= j < self.entries@.len() && is_ancestor(d, self.entries@[j].path@)
                ==> self.has_path(d)
    }

    /// Distinct paths: two entries never share a path.
    pub proof fn lemma_distinct_paths(self)
        requires
            self.wf(),
        ensures
            forall|i: int, j: int|
                0 <= i < j < self.entries@.len() ==> self.entries@[i].path@
                    != self.entries@[j].path@,
    {
        assert forall|i: int, j: int| 0 <= i < j < self.entries@.len() implies self.entries@[i].path@
            != self.entries@[j].path@ by {
            crate::bytes::lemma_lex_lt_irrefl(self.entries@[i].path@);
        }
    }

    /// Linear lookup of a path.
    pub fn find(&self, p: &Vec<u8>) -> (r: Option<usize>)
        ensures
            match r {
                Some(i) => i < self.entries@.len() && self.entries@[i as int].path@ =~= p@,
                None => !self.has_path(p@),
            },
    {
        let mut i: usize = 0;
        while i < self.entries.len()
            invariant
                i <= self.entries@.len(),
                forall|j: int| 0 <= j < i ==> !(self.entries@[j].path@ =~= p@),
            decreases self.entries@.len() - i,
        {
            if crate::bytes::bytes_eq(&self.entries[i].path, p) {
                return Some(i);
            }
            i = i + 1;
        }
        None
    }
}

/// A named group of paths believed to come from one installable unit.
#[derive(Debug)]
pub struct Component {
    pub name: Vec<u8>,
    pub paths: Vec<Vec<u8>>,
}

/// Packing limits: a byte budget per chunk and a ceiling on chunk count.
#[derive(Clone, Copy, Debug)]
pub struct Budget {
    pub max_chunk_bytes: u64,
    pub max_chunks: usize,
}

/// An ordered group of entries destined for one layer, with the names of
/// the components whose files it carries.
#[derive(Debug)]
pub struct Chunk {
    pub components: Vec<Vec<u8>>,
    pub entries: Vec<FileInfo>,
}

/// Sum of the regular-file bytes of the first `n` entries of a list.
pub open spec fn entries_weight_to(s: Seq<FileInfo>, n: int) -> int
    decreases n,
{
    if n <= 0 {
        0
    } else {
        entries_weight_to(s, n - 1) + s[n - 1].weight()
    }
}

/// Sum of the regular-file bytes of a list of entries.
pub open spec fn entries_weight(s: Seq<FileInfo>) -> int {
    entries_weight_to(s, s.len() as int)
}

impl Chunk {
    pub open spec fn paths(self) -> Seq<Seq<u8>> {
        self.entries@.map(|i: int, f: FileInfo| f.path@)
    }

    pub open spec fn has_path(self, p: Seq<u8>) -> bool {
        exists|i: int| 0 <= i < self.entries@.len() && self.entries@[i].path@ =~= p
    }

    /// Sum of the regular-file bytes of all entries.
    pub open spec fn weight(self) -> int {
        entries_weight(self.entries@)
    }
}

/// Why packing refused its input.
#[derive(Clone, Copy, PartialEq, Eq, Structural, Debug)]
pub enum PackError {
    /// Nothing to pack: no scanned paths at all.
    NoComponents,
    /// The chunk-count ceiling is zero.
    BudgetTooSmall,
}

} // verus!
