use vstd::prelude::*;
use crate::bytes::{bytes_eq, bytes_lt, lex_lt};
use crate::model::{
    clone_bytes, clone_info, is_ancestor, Budget, Chunk, Component, FileInfo, FileMap, FileType,
    PackError,
};

verus! {

// The packing engine: groups the scanned entries by owning component,
// orders the components for layer reuse, assigns them greedily to chunks
// under the byte budget and chunk-count ceiling, and repairs
// directory-completeness.

/// The scanned weight of one path: the file size if the path is a scanned
/// regular file, zero otherwise.
pub open spec fn path_weight(files: FileMap, p: Seq<u8>) -> int {
    if files.has_path(p) {
        files.entries@[files.index_of(p)].weight()
    } else {
        0
    }
}

impl FileMap {
    /// Index of the entry holding path `p` (meaningful when `has_path(p)`).
    pub open spec fn index_of(self, p: Seq<u8>) -> int {
        choose|i: int| 0 <= i < self.entries@.len() && self.entries@[i].path@ =~= p
    }

    /// With distinct paths, any witness index is the index.
    pub proof fn lemma_index_of(self, p: Seq<u8>, i: int)
        requires
            self.wf(),
            0 <= i < self.entries@.len(),
            self.entries@[i].path@ =~= p,
        ensures
            self.has_path(p),
            self.index_of(p) == i,
    {
        self.lemma_distinct_paths();
        assert(self.has_path(p));
        let j = self.index_of(p);
        if i < j {
            assert(self.entries@[i].path@ != self.entries@[j].path@);
        } else if j < i {
            assert(self.entries@[j].path@ != self.entries@[i].path@);
        }
    }
}

pub proof fn lemma_path_weight_nonneg(files: FileMap, p: Seq<u8>)
    ensures
        path_weight(files, p) >= 0,
{
}

/// Sum of the scanned weights of a list of paths.
pub open spec fn paths_weight(files: FileMap, ps: Seq<Seq<u8>>) -> int
    decreases ps.len(),
{
    if ps.len() == 0 {
        0
    } else {
        paths_weight(files, ps.drop_last()) + path_weight(files, ps.last())
    }
}

pub proof fn lemma_paths_weight_nonneg(files: FileMap, ps: Seq<Seq<u8>>)
    ensures
        paths_weight(files, ps) >= 0,
    decreases ps.len(),
{
    if ps.len() > 0 {
        lemma_paths_weight_nonneg(files, ps.drop_last());
    }
}

/// One packing group: a component, or the residual set of unclaimed paths.
pub struct Group {
    pub name: Vec<u8>,
    pub paths: Vec<Vec<u8>>,
    pub size: u64,
    pub oversize: bool,
}

/// The path views of a group.
pub open spec fn gpaths(g: Group) -> Seq<Seq<u8>> {
    g.paths@.map(|i: int, p: Vec<u8>| p@)
}

/// A well-formed group: every path is scanned, and `size` is the exact
/// weight sum unless the sum does not fit a `u64` (then `oversize` is set).
pub open spec fn gwf(g: Group, files: FileMap) -> bool {
    &&& forall|k: int| 0 <= k < gpaths(g).len() ==> files.has_path(#[trigger] gpaths(g)[k])
    &&& !g.oversize ==> g.size as int == paths_weight(files, gpaths(g))
    &&& g.oversize ==> paths_weight(files, gpaths(g)) > u64::MAX
}

/// Some group of the list owns path `p`.
pub open spec fn ghas(gs: Seq<Group>, p: Seq<u8>) -> bool {
    exists|gi: int, k: int|
        0 <= gi < gs.len() && 0 <= k < gpaths(gs[gi]).len() && gpaths(gs[gi])[k] =~= p
}

/// Some group of some chunk of the plan owns path `p`.
pub open spec fn ghas2(plan: Seq<Vec<Group>>, p: Seq<u8>) -> bool {
    exists|c: int| 0 <= c < plan.len() && ghas((#[trigger] plan[c])@, p)
}

/// Packing priority: larger total size first, ties broken by name.
pub open spec fn prio_before(a: Group, b: Group) -> bool {
    ||| a.size > b.size
    ||| (a.size == b.size && lex_lt(a.name@, b.name@))
}

pub proof fn lemma_prio_trans(a: Group, b: Group, c: Group)
    ensures
        prio_before(a, b) && prio_before(b, c) ==> prio_before(a, c),
{
    if prio_before(a, b) && prio_before(b, c) && a.size == b.size && b.size == c.size {
        crate::bytes::lemma_lex_lt_trans(a.name@, b.name@, c.name@);
    }
}

/// `g` is one of the groups of `orig`.
pub open spec fn from_orig(orig: Seq<Group>, g: Group) -> bool {
    exists|j: int| 0 <= j < orig.len() && g == orig[j]
}

/// Path `p` is a scanned regular file.
pub open spec fn scanned_file(files: FileMap, p: Seq<u8>) -> bool {
    files.has_path(p) && files.entries@[files.index_of(p)].file_type == FileType::File
}

/// `g` is one of the groups of `gs`.
pub open spec fn in_groups(gs: Seq<Group>, g: Group) -> bool {
    exists|k: int| 0 <= k < gs.len() && gs[k] == g
}

/// The spec invariant of component records: two components never claim
/// the same path.
pub open spec fn comps_disjoint(cs: Seq<Component>) -> bool {
    forall|c1: int, c2: int, k1: int, k2: int|
        0 <= c1 < c2 < cs.len() && 0 <= k1 < cs[c1].paths@.len() && 0 <= k2 < cs[c2].paths@.len()
            ==> !((#[trigger] cs[c1].paths@[k1])@ =~= (#[trigger] cs[c2].paths@[k2])@)
}

/// Distinct groups own disjoint path sets.
pub open spec fn gdisj(gs: Seq<Group>) -> bool {
    forall|i1: int, i2: int, k1: int, k2: int|
        0 <= i1 < gs.len() && 0 <= i2 < gs.len() && i1 != i2 && 0 <= k1 < gpaths(gs[i1]).len()
            && 0 <= k2 < gpaths(gs[i2]).len() ==> !(#[trigger] gpaths(gs[i1])[k1] =~= #[trigger] gpaths(
            gs[i2],
        )[k2])
}

/// `g` is one of the groups of the plan.
pub open spec fn in_plan(plan: Seq<Vec<Group>>, g: Group) -> bool {
    exists|c: int, gi: int|
        0 <= c < plan.len() && 0 <= gi < plan[c]@.len() && plan[c]@[gi] == g
}

/// Groups of different plan chunks own disjoint path sets.
pub open spec fn plan_cross_disjoint(plan: Seq<Vec<Group>>) -> bool {
    forall|c1: int, c2: int, g1: int, g2: int, k1: int, k2: int|
        0 <= c1 < c2 < plan.len() && 0 <= g1 < plan[c1]@.len() && 0 <= g2 < plan[c2]@.len() && 0
            <= k1 < gpaths(plan[c1]@[g1]).len() && 0 <= k2 < gpaths(plan[c2]@[g2]).len() ==> !(
        #[trigger] gpaths(plan[c1]@[g1])[k1] =~= #[trigger] gpaths(plan[c2]@[g2])[k2])
}

pub proof fn lemma_prio_irrefl(a: Group)
    ensures
        !prio_before(a, a),
{
    crate::bytes::lemma_lex_lt_irrefl(a.name@);
}

/// Sum of the recorded sizes of a list of groups.
pub open spec fn sizes_sum(gs: Seq<Group>) -> int
    decreases gs.len(),
{
    if gs.len() == 0 {
        0
    } else {
        sizes_sum(gs.drop_last()) + gs.last().size
    }
}

/// Membership of a path view in a vector of byte vectors.
pub open spec fn in_path_list(v: Seq<Vec<u8>>, p: Seq<u8>) -> bool {
    exists|k: int| 0 <= k < v.len() && v[k]@ =~= p
}

/// Executable membership test.
pub fn contains_path(v: &Vec<Vec<u8>>, p: &Vec<u8>) -> (r: bool)
    ensures
        r == in_path_list(v@, p@),
{
    let mut i: usize = 0;
    while i < v.len()
        invariant
            i <= v@.len(),
            forall|k: int| 0 <= k < i ==> !(v@[k]@ =~= p@),
        decreases v@.len() - i,
    {
        if bytes_eq(&v[i], p) {
            return true;
        }
        i = i + 1;
    }
    false
}

/// All strict ancestors of a valid path, nearest the root first.
pub fn ancestors_of(p: &Vec<u8>) -> (r: Vec<Vec<u8>>)
    ensures
        forall|k: int| 0 <= k < r@.len() ==> is_ancestor((#[trigger] r@[k])@, p@),
        forall|d: Seq<u8>| is_ancestor(d, p@) ==> in_path_list(r@, d),
{
    let mut r: Vec<Vec<u8>> = Vec::new();
    let mut k: usize = 1;
    if p.len() == 0 {
        proof {
            assert(forall|d: Seq<u8>| is_ancestor(d, p@) ==> false);
        }
        return r;
    }
    while k < p.len()
        invariant
            1 <= k <= p@.len(),
            forall|j: int| 0 <= j < r@.len() ==> is_ancestor((#[trigger] r@[j])@, p@),
            forall|d: Seq<u8>| is_ancestor(d, p@) && d.len() < k ==> in_path_list(r@, d),
        decreases p@.len() - k,
    {
        if p[k] == 47u8 {
            let mut pre: Vec<u8> = Vec::new();
            let mut j: usize = 0;
            while j < k
                invariant
                    j <= k < p@.len(),
                    pre@ =~= p@.subrange(0, j as int),
                decreases k - j,
            {
                pre.push(p[j]);
                proof {
                    assert(p@.subrange(0, j as int + 1) =~= p@.subrange(0, j as int).push(
                        p@[j as int],
                    ));
                }
                j = j + 1;
            }
            proof {
                assert(is_ancestor(pre@, p@));
            }
            let ghost rprev = r@;
            r.push(pre);
            k = k + 1;
            proof {
                assert forall|d: Seq<u8>| is_ancestor(d, p@) && d.len() < k implies in_path_list(
                    r@,
                    d,
                ) by {
                    if d.len() == k - 1 {
                        assert(r@[r@.len() - 1]@ =~= d);
                    } else {
                        assert(in_path_list(rprev, d));
                        let w = choose|w: int| 0 <= w < rprev.len() && rprev[w]@ =~= d;
                        assert(r@[w]@ =~= d);
                    }
                }
            }
        } else {
            k = k + 1;
            proof {
                assert forall|d: Seq<u8>| is_ancestor(d, p@) && d.len() < k implies in_path_list(
                    r@,
                    d,
                ) by {
                    if d.len() == k - 1 {
                        assert(p@[d.len() as int] == 47u8);
                    }
                }
            }
        }
    }
    proof {
        assert forall|d: Seq<u8>| is_ancestor(d, p@) implies in_path_list(r@, d) by {
            assert(d.len() < p@.len());
        }
    }
    r
}


/// The path views of a vector of byte vectors.
pub open spec fn pview(v: Seq<Vec<u8>>) -> Seq<Seq<u8>> {
    v.map(|i: int, p: Vec<u8>| p@)
}

/// Some component of the list claims path `p`.
pub open spec fn claimed(cs: Seq<Component>, p: Seq<u8>) -> bool {
    exists|ci: int, k: int|
        0 <= ci < cs.len() && 0 <= k < cs[ci].paths@.len() && cs[ci].paths@[k]@ =~= p
}

/// Executable test whether any component claims `p`.
fn is_claimed(components: &Vec<Component>, p: &Vec<u8>) -> (r: bool)
    ensures
        r == claimed(components@, p@),
{
    let mut ci: usize = 0;
    while ci < components.len()
        invariant
            ci <= components@.len(),
            forall|c: int, k: int|
                0 <= c < ci && 0 <= k < components@[c].paths@.len() ==> !(components@[c].paths@[k]@
                    =~= p@),
        decreases components@.len() - ci,
    {
        if contains_path(&components[ci].paths, p) {
            return true;
        }
        ci = ci + 1;
    }
    false
}

/// Executable weight of one scanned entry.
fn weight_of(f: &FileInfo) -> (w: u64)
    ensures
        w as int == f.weight(),
{
    match f.file_type {
        FileType::File => f.size,
        _ => 0,
    }
}

/// Builds one group from a name and a path list, keeping only scanned
/// paths and recording the exact weight sum (or the overflow flag).
fn build_one_group(files: &FileMap, name: Vec<u8>, src: &Vec<Vec<u8>>) -> (g: Group)
    requires
        files.wf(),
    ensures
        gwf(g, *files),
        forall|k: int|
            0 <= k < src@.len() && files.has_path(src@[k]@) ==> in_path_list(g.paths@, src@[k]@),
        forall|k2: int|
            0 <= k2 < g.paths@.len() ==> exists|k: int|
                0 <= k < src@.len() && (#[trigger] g.paths@[k2])@ =~= src@[k]@,
        g.name@ == name@,
{
    let mut paths: Vec<Vec<u8>> = Vec::new();
    let mut size: u64 = 0;
    let mut oversize: bool = false;
    let mut k: usize = 0;
    while k < src.len()
        invariant
            k <= src@.len(),
            files.wf(),
            forall|k2: int| 0 <= k2 < pview(paths@).len() ==> files.has_path(#[trigger] pview(paths@)[k2]),
            !oversize ==> size as int == paths_weight(*files, pview(paths@)),
            oversize ==> paths_weight(*files, pview(paths@)) > u64::MAX,
            forall|k2: int|
                0 <= k2 < k && files.has_path(src@[k2]@) ==> in_path_list(paths@, src@[k2]@),
            forall|k2: int|
                0 <= k2 < paths@.len() ==> exists|k3: int|
                    0 <= k3 < src@.len() && (#[trigger] paths@[k2])@ =~= src@[k3]@,
        decreases src@.len() - k,
    {
        let p = &src[k];
        match files.find(p) {
            Some(idx) => {
                let w = weight_of(&files.entries[idx]);
                proof {
                    files.lemma_index_of(p@, idx as int);
                    assert(path_weight(*files, p@) == w as int);
                }
                let ghost pathsprev = paths@;
                paths.push(clone_bytes(p));
                proof {
                    assert(pview(paths@) =~= pview(pathsprev).push(p@));
                    assert(pview(paths@).drop_last() =~= pview(pathsprev));
                    lemma_paths_weight_nonneg(*files, pview(pathsprev));
                    assert forall|k2: int|
                        0 <= k2 < paths@.len() implies exists|k3: int|
                            0 <= k3 < src@.len() && (#[trigger] paths@[k2])@ =~= src@[k3]@ by {
                        if k2 < paths@.len() - 1 {
                            assert(paths@[k2] == pathsprev[k2]);
                            let k3 = choose|k3: int|
                                0 <= k3 < src@.len() && pathsprev[k2]@ =~= src@[k3]@;
                            assert(paths@[k2]@ =~= src@[k3]@);
                        } else {
                            assert(paths@[k2]@ =~= src@[k as int]@);
                        }
                    }
                    assert forall|k2: int|
                        0 <= k2 < k + 1 && files.has_path(src@[k2]@) implies in_path_list(
                        paths@,
                        src@[k2]@,
                    ) by {
                        if k2 == k {
                            assert(paths@[paths@.len() - 1]@ =~= src@[k2]@);
                        } else {
                            assert(in_path_list(pathsprev, src@[k2]@));
                            let w = choose|w: int|
                                0 <= w < pathsprev.len() && pathsprev[w]@ =~= src@[k2]@;
                            assert(paths@[w]@ =~= src@[k2]@);
                        }
                    }
                }
                if oversize {
                } else if u64::MAX - size < w {
                    oversize = true;
                } else {
                    size = size + w;
                }
            },
            None => {},
        }
        k = k + 1;
    }
    Group { name, paths, size, oversize }
}

/// Builds the component groups and the residual group of unclaimed paths.
fn build_groups(files: &FileMap, components: &Vec<Component>) -> (r: (Vec<Group>, Option<Group>))
    requires
        files.wf(),
    ensures
        forall|gi: int| 0 <= gi < r.0@.len() ==> gwf(#[trigger] r.0@[gi], *files),
        match r.1 {
            Some(g) => gwf(g, *files),
            None => true,
        },
        r.0@.len() == components@.len(),
        forall|i: int|
            0 <= i < files.entries@.len() ==> ghas(r.0@, (#[trigger] files.entries@[i]).path@)
                || (r.1 matches Some(g) && in_path_list(g.paths@, files.entries@[i].path@)),
        forall|ci: int, k2: int|
            0 <= ci < r.0@.len() && 0 <= k2 < r.0@[ci].paths@.len() ==> exists|k: int|
                0 <= k < components@[ci].paths@.len() && (#[trigger] r.0@[ci].paths@[k2])@
                    =~= components@[ci].paths@[k]@,
        forall|ci: int, k: int|
            0 <= ci < components@.len() && 0 <= k < components@[ci].paths@.len()
                && files.has_path((#[trigger] components@[ci].paths@[k])@) ==> in_path_list(
                r.0@[ci].paths@,
                components@[ci].paths@[k]@,
            ),
        r.1 matches Some(g) ==> forall|k2: int|
            0 <= k2 < g.paths@.len() ==> !claimed(components@, (#[trigger] g.paths@[k2])@),
{
    let mut comp_groups: Vec<Group> = Vec::new();
    let mut ci: usize = 0;
    while ci < components.len()
        invariant
            ci <= components@.len(),
            files.wf(),
            comp_groups@.len() == ci,
            forall|gi: int| 0 <= gi < ci ==> gwf(#[trigger] comp_groups@[gi], *files),
            forall|c: int, k: int|
                0 <= c < ci && 0 <= k < components@[c].paths@.len() && files.has_path(
                    components@[c].paths@[k]@,
                ) ==> in_path_list(comp_groups@[c].paths@, components@[c].paths@[k]@),
            forall|c: int, k2: int|
                0 <= c < ci && 0 <= k2 < comp_groups@[c].paths@.len() ==> exists|k: int|
                    0 <= k < components@[c].paths@.len() && (#[trigger] comp_groups@[c].paths@[k2])@
                        =~= components@[c].paths@[k]@,
        decreases components@.len() - ci,
    {
        let name = clone_bytes(&components[ci].name);
        let ghost prev = comp_groups@;
        let g = build_one_group(files, name, &components[ci].paths);
        comp_groups.push(g);
        ci = ci + 1;
    }
    // Residual group: scanned paths no component claims.
    let mut res_paths: Vec<Vec<u8>> = Vec::new();
    let mut res_size: u64 = 0;
    let mut res_over: bool = false;
    let mut i: usize = 0;
    while i < files.entries.len()
        invariant
            i <= files.entries@.len(),
            files.wf(),
            forall|k2: int| 0 <= k2 < pview(res_paths@).len() ==> files.has_path(#[trigger] pview(res_paths@)[k2]),
            !res_over ==> res_size as int == paths_weight(*files, pview(res_paths@)),
            res_over ==> paths_weight(*files, pview(res_paths@)) > u64::MAX,
            forall|i2: int|
                0 <= i2 < i ==> claimed(components@, (#[trigger] files.entries@[i2]).path@)
                    || in_path_list(res_paths@, files.entries@[i2].path@),
            forall|k2: int|
                0 <= k2 < res_paths@.len() ==> !claimed(components@, (#[trigger] res_paths@[k2])@),
        decreases files.entries@.len() - i,
    {
        let p = &files.entries[i].path;
        if !is_claimed(components, p) {
            let w = weight_of(&files.entries[i]);
            proof {
                files.lemma_index_of(p@, i as int);
                assert(path_weight(*files, p@) == w as int);
            }
            let ghost pathsprev = res_paths@;
            res_paths.push(clone_bytes(p));
            proof {
                assert(pview(res_paths@) =~= pview(pathsprev).push(p@));
                assert(pview(res_paths@).drop_last() =~= pview(pathsprev));
                lemma_paths_weight_nonneg(*files, pview(pathsprev));
                assert forall|i2: int|
                    0 <= i2 < i + 1 && !claimed(
                        components@,
                        (#[trigger] files.entries@[i2]).path@,
                    ) implies in_path_list(res_paths@, files.entries@[i2].path@) by {
                    if i2 == i {
                        assert(res_paths@[res_paths@.len() - 1]@ =~= files.entries@[i2].path@);
                    } else {
                        assert(in_path_list(pathsprev, files.entries@[i2].path@));
                        let w = choose|w: int|
                            0 <= w < pathsprev.len() && pathsprev[w]@ =~= files.entries@[i2].path@;
                        assert(res_paths@[w]@ =~= files.entries@[i2].path@);
                    }
                }
            }
            if res_over {
            } else if u64::MAX - res_size < w {
                res_over = true;
            } else {
                res_size = res_size + w;
            }
        }
        i = i + 1;
    }
    let residual = if res_paths.len() > 0 {
        let mut name: Vec<u8> = Vec::new();
        name.push(114u8);  // "residual"
        name.push(101u8);
        name.push(115u8);
        name.push(105u8);
        name.push(100u8);
        name.push(117u8);
        name.push(97u8);
        name.push(108u8);
        Some(Group { name, paths: res_paths, size: res_size, oversize: res_over })
    } else {
        None
    };
    proof {
        assert forall|i2: int| 0 <= i2 < files.entries@.len() implies ghas(
            comp_groups@,
            (#[trigger] files.entries@[i2]).path@,
        ) || (residual matches Some(g) && in_path_list(
            g.paths@,
            files.entries@[i2].path@,
        )) by {
            let p = files.entries@[i2].path@;
            if claimed(components@, p) {
                let (c, k) = choose|c: int, k: int|
                    0 <= c < components@.len() && 0 <= k < components@[c].paths@.len()
                        && components@[c].paths@[k]@ =~= p;
                files.lemma_index_of(p, i2);
                assert(files.has_path(components@[c].paths@[k]@));
                assert(in_path_list(comp_groups@[c].paths@, components@[c].paths@[k]@));
                let k2 = choose|k2: int|
                    0 <= k2 < comp_groups@[c].paths@.len() && comp_groups@[c].paths@[k2]@
                        =~= components@[c].paths@[k]@;
                assert(gpaths(comp_groups@[c])[k2] =~= p);
            }
        }
    }
    (comp_groups, residual)
}


/// Executable priority comparison.
fn prio_gt(a: &Group, b: &Group) -> (r: bool)
    ensures
        r == prio_before(*a, *b),
{
    if a.size > b.size {
        true
    } else if a.size == b.size {
        bytes_lt(&a.name, &b.name)
    } else {
        false
    }
}

/// Orders groups by packing priority: descending total size, ties by name.
/// The result is a permutation of the input.
fn order_groups(groups: Vec<Group>) -> (out: Vec<Group>)
    requires
        gdisj(groups@),
    ensures
        out@.len() == groups@.len(),
        forall|k: int| 0 <= k < out@.len() ==> #[trigger] from_orig(groups@, out@[k]),
        forall|j: int|
            0 <= j < groups@.len() ==> #[trigger] in_groups(out@, groups@[j]),
        forall|p: Seq<u8>| #[trigger] ghas(out@, p) <==> ghas(groups@, p),
        forall|i: int, j: int| 0 <= i < j < out@.len() ==> !prio_before(out@[j], out@[i]),
        gdisj(out@),
{
    let ghost orig = groups@;
    let mut rem = groups;
    let mut out: Vec<Group> = Vec::new();
    proof {
        assert forall|k: int| 0 <= k < rem@.len() implies #[trigger] from_orig(orig, rem@[k]) by {
            assert(rem@[k] == orig[k]);
        }
        assert(out@ + rem@ =~= orig);
        assert forall|j: int| 0 <= j < orig.len() implies #[trigger] in_groups(
            out@ + rem@,
            orig[j],
        ) by {
            assert((out@ + rem@)[j] == orig[j]);
        }
    }
    while rem.len() > 0
        invariant
            out@.len() + rem@.len() == orig.len(),
            forall|k: int| 0 <= k < out@.len() ==> #[trigger] from_orig(orig, out@[k]),
            forall|k: int| 0 <= k < rem@.len() ==> #[trigger] from_orig(orig, rem@[k]),
            gdisj(out@ + rem@),
            forall|j: int| 0 <= j < orig.len() ==> #[trigger] in_groups(out@ + rem@, orig[j]),
            forall|p: Seq<u8>| #[trigger] ghas(orig, p) <==> (ghas(out@, p) || ghas(rem@, p)),
            forall|i: int, j: int| 0 <= i < j < out@.len() ==> !prio_before(out@[j], out@[i]),
            forall|i: int, j: int|
                0 <= i < out@.len() && 0 <= j < rem@.len() ==> !prio_before(
                    #[trigger] rem@[j],
                    #[trigger] out@[i],
                ),
        decreases rem@.len(),
    {
        // Find the highest-priority remaining group.
        let mut bi: usize = 0;
        let mut i: usize = 1;
        proof {
            lemma_prio_irrefl(rem@[0]);
        }
        while i < rem.len()
            invariant
                bi < i <= rem@.len(),
                rem@.len() > 0,
                forall|j: int| 0 <= j < i ==> !prio_before(#[trigger] rem@[j], rem@[bi as int]),
            decreases rem@.len() - i,
        {
            if prio_gt(&rem[i], &rem[bi]) {
                proof {
                    assert forall|j: int| 0 <= j < i + 1 implies !prio_before(
                        #[trigger] rem@[j],
                        rem@[i as int],
                    ) by {
                        if j == i {
                            lemma_prio_irrefl(rem@[i as int]);
                        } else {
                            lemma_prio_trans(rem@[j], rem@[i as int], rem@[bi as int]);
                        }
                    }
                }
                bi = i;
            }
            i = i + 1;
        }
        let ghost remprev = rem@;
        let ghost outprev = out@;
        let g = rem.remove(bi);
        proof {
            assert(rem@ =~= remprev.subrange(0, bi as int) + remprev.subrange(
                bi as int + 1,
                remprev.len() as int,
            ));
            assert(g == remprev[bi as int]);
            assert forall|k: int| 0 <= k < rem@.len() implies #[trigger] from_orig(
                orig,
                rem@[k],
            ) by {
                if k < bi {
                    assert(rem@[k] == remprev[k]);
                    assert(from_orig(orig, remprev[k]));
                } else {
                    assert(rem@[k] == remprev[k + 1]);
                    assert(from_orig(orig, remprev[k + 1]));
                }
            }
        }
        out.push(g);
        proof {
            // Moving one group across keeps the concatenation a permutation:
            // each new position maps to a distinct old one.
            let concp = outprev + remprev;
            let concn = out@ + rem@;
            let ghost m = |t: int|
                if t < outprev.len() {
                    t
                } else if t == outprev.len() {
                    outprev.len() + bi
                } else if t - outprev.len() - 1 < bi {
                    t - 1
                } else {
                    t
                };
            assert forall|t: int| 0 <= t < concn.len() implies concn[t] == concp[m(t)] && 0 <= m(
                t,
            ) < concp.len() by {
                if t < outprev.len() {
                    assert(concn[t] == outprev[t]);
                } else if t == outprev.len() {
                    assert(concn[t] == g);
                    assert(concp[outprev.len() + bi] == remprev[bi as int]);
                } else {
                    let r = t - outprev.len() - 1;
                    assert(concn[t] == rem@[r]);
                    if r < bi {
                        assert(rem@[r] == remprev[r]);
                        assert(concp[t - 1] == remprev[r]);
                    } else {
                        assert(rem@[r] == remprev[r + 1]);
                        assert(concp[t] == remprev[r + 1]);
                    }
                }
            }
            assert forall|i1: int, i2: int, k1: int, k2: int|
                0 <= i1 < concn.len() && 0 <= i2 < concn.len() && i1 != i2 && 0 <= k1 < gpaths(
                    concn[i1],
                ).len() && 0 <= k2 < gpaths(concn[i2]).len() implies !(#[trigger] gpaths(
                concn[i1],
            )[k1] =~= #[trigger] gpaths(concn[i2])[k2]) by {
                assert(concn[i1] == concp[m(i1)]);
                assert(concn[i2] == concp[m(i2)]);
                assert(m(i1) != m(i2));
            }
            assert forall|j2: int| 0 <= j2 < orig.len() implies #[trigger] in_groups(
                concn,
                orig[j2],
            ) by {
                assert(in_groups(concp, orig[j2]));
                let k = choose|k: int| 0 <= k < concp.len() && concp[k] == orig[j2];
                if k < outprev.len() {
                    assert(concn[k] == concp[k]);
                } else if k == outprev.len() + bi {
                    assert(concn[outprev.len() as int] == concp[k]);
                } else if k - outprev.len() < bi {
                    assert(concn[k + 1] == concp[k]);
                } else {
                    assert(concn[k] == concp[k]);
                }
            }
            // Union of owned paths is preserved by moving one group across.
            assert forall|p: Seq<u8>| #[trigger] ghas(orig, p) implies (ghas(out@, p) || ghas(
                rem@,
                p,
            )) by {
                if ghas(outprev, p) {
                    let (gi, k) = choose|gi: int, k: int|
                        0 <= gi < outprev.len() && 0 <= k < gpaths(outprev[gi]).len() && gpaths(
                            outprev[gi],
                        )[k] =~= p;
                    assert(out@[gi] == outprev[gi]);
                    assert(gpaths(out@[gi])[k] =~= p);
                } else {
                    assert(ghas(remprev, p));
                    let (gi, k) = choose|gi: int, k: int|
                        0 <= gi < remprev.len() && 0 <= k < gpaths(remprev[gi]).len() && gpaths(
                            remprev[gi],
                        )[k] =~= p;
                    if gi == bi {
                        assert(out@[out@.len() - 1] == g);
                        assert(gpaths(out@[out@.len() - 1])[k] =~= p);
                    } else if gi < bi {
                        assert(rem@[gi] == remprev[gi]);
                        assert(gpaths(rem@[gi])[k] =~= p);
                    } else {
                        assert(rem@[gi - 1] == remprev[gi]);
                        assert(gpaths(rem@[gi - 1])[k] =~= p);
                    }
                }
            }
            assert forall|p: Seq<u8>| (ghas(out@, p) || ghas(rem@, p)) implies #[trigger] ghas(
                orig,
                p,
            ) by {
                if ghas(out@, p) {
                    let (gi, k) = choose|gi: int, k: int|
                        0 <= gi < out@.len() && 0 <= k < gpaths(out@[gi]).len() && gpaths(
                            out@[gi],
                        )[k] =~= p;
                    if gi < out@.len() - 1 {
                        assert(outprev[gi] == out@[gi]);
                        assert(ghas(outprev, p));
                    } else {
                        assert(out@[gi] == remprev[bi as int]);
                        assert(gpaths(remprev[bi as int])[k] =~= p);
                        assert(ghas(remprev, p));
                    }
                } else {
                    let (gi, k) = choose|gi: int, k: int|
                        0 <= gi < rem@.len() && 0 <= k < gpaths(rem@[gi]).len() && gpaths(
                            rem@[gi],
                        )[k] =~= p;
                    if gi < bi {
                        assert(remprev[gi] == rem@[gi]);
                        assert(ghas(remprev, p));
                    } else {
                        assert(remprev[gi + 1] == rem@[gi]);
                        assert(gpaths(remprev[gi + 1])[k] =~= p);
                        assert(ghas(remprev, p));
                    }
                }
            }
            assert forall|i2: int, j2: int|
                0 <= i2 < out@.len() && 0 <= j2 < rem@.len() implies !prio_before(
                #[trigger] rem@[j2],
                #[trigger] out@[i2],
            ) by {
                let prev_j = if j2 < bi {
                    j2
                } else {
                    j2 + 1
                };
                assert(rem@[j2] == remprev[prev_j]);
                if i2 < out@.len() - 1 {
                    assert(out@[i2] == outprev[i2]);
                } else {
                    assert(out@[i2] == remprev[bi as int]);
                }
            }
        }
    }
    proof {
        assert(out@ + rem@ =~= out@);
        assert forall|j: int| 0 <= j < orig.len() implies #[trigger] in_groups(
            out@,
            orig[j],
        ) by {
            assert(in_groups(out@ + rem@, orig[j]));
            let k = choose|k: int|
                0 <= k < (out@ + rem@).len() && (out@ + rem@)[k] == orig[j];
            assert(out@[k] == orig[j]);
        }
        assert forall|i1: int, i2: int, k1: int, k2: int|
            0 <= i1 < out@.len() && 0 <= i2 < out@.len() && i1 != i2 && 0 <= k1 < gpaths(
                out@[i1],
            ).len() && 0 <= k2 < gpaths(out@[i2]).len() implies !(#[trigger] gpaths(
            out@[i1],
        )[k1] =~= #[trigger] gpaths(out@[i2])[k2]) by {
            assert((out@ + rem@)[i1] == out@[i1]);
            assert((out@ + rem@)[i2] == out@[i2]);
        }
    }
    out
}

/// Greedy assignment of ordered groups to chunk slots: fill the current
/// chunk while the byte budget holds, never split a group, and once the
/// chunk-count ceiling is reached merge everything remaining into the last
/// chunk.
fn greedy_plan(ordered: Vec<Group>, max_chunk_bytes: u64, max_chunks: usize) -> (plan: Vec<
    Vec<Group>,
>)
    requires
        max_chunks >= 1,
        gdisj(ordered@),
    ensures
        plan_cross_disjoint(plan@),
        forall|j: int|
            0 <= j < ordered@.len() ==> #[trigger] in_plan(plan@, ordered@[j]),
        plan@.len() <= max_chunks,
        forall|c: int| 0 <= c < plan@.len() ==> (#[trigger] plan@[c])@.len() >= 1,
        forall|c: int, k: int|
            0 <= c < plan@.len() && 0 <= k < plan@[c]@.len() ==> #[trigger] from_orig(
                ordered@,
                plan@[c]@[k],
            ),
        forall|p: Seq<u8>| #[trigger] ghas2(plan@, p) <==> ghas(ordered@, p),
        forall|c: int|
            0 <= c < plan@.len() && (#[trigger] plan@[c])@.len() > 1 && c < plan@.len() - 1 ==> (
            sizes_sum(plan@[c]@) <= max_chunk_bytes && forall|k: int|
                0 <= k < plan@[c]@.len() ==> !(#[trigger] plan@[c]@[k]).oversize),
{
    let ghost orig = ordered@;
    let mut rem = ordered;
    let mut plan: Vec<Vec<Group>> = Vec::new();
    let mut cur: Vec<Group> = Vec::new();
    let mut cur_bytes: u64 = 0;
    let mut cur_over: bool = false;
    proof {
        assert forall|k: int| 0 <= k < rem@.len() implies #[trigger] from_orig(orig, rem@[k]) by {
            assert(rem@[k] == orig[k]);
        }
        assert forall|j: int| 0 <= j < orig.len() implies #[trigger] in_plan(plan@, orig[j])
            || in_groups(cur@, orig[j]) || in_groups(rem@, orig[j]) by {
            assert(rem@[j] == orig[j]);
        }
    }
    while rem.len() > 0
        invariant
            max_chunks >= 1,
            plan@.len() + (if cur@.len() > 0 { 1int } else { 0int }) <= max_chunks,
            cur@.len() == 0 ==> plan@.len() == 0,
            forall|c: int| 0 <= c < plan@.len() ==> (#[trigger] plan@[c])@.len() >= 1,
            forall|c: int, k: int|
                0 <= c < plan@.len() && 0 <= k < plan@[c]@.len() ==> #[trigger] from_orig(
                    orig,
                    plan@[c]@[k],
                ),
            forall|k: int| 0 <= k < cur@.len() ==> #[trigger] from_orig(orig, cur@[k]),
            forall|k: int| 0 <= k < rem@.len() ==> #[trigger] from_orig(orig, rem@[k]),
            plan_cross_disjoint(plan@),
            gdisj(rem@),
            // groups in closed chunks, the open chunk and the remainder own
            // pairwise disjoint paths
            forall|c: int, g: int, k: int, gc: int, kc: int|
                0 <= c < plan@.len() && 0 <= g < plan@[c]@.len() && 0 <= gc < cur@.len() && 0 <= k
                    < gpaths(plan@[c]@[g]).len() && 0 <= kc < gpaths(cur@[gc]).len() ==> !(
                #[trigger] gpaths(plan@[c]@[g])[k] =~= #[trigger] gpaths(cur@[gc])[kc]),
            forall|c: int, g: int, k: int, gr: int, kr: int|
                0 <= c < plan@.len() && 0 <= g < plan@[c]@.len() && 0 <= gr < rem@.len() && 0 <= k
                    < gpaths(plan@[c]@[g]).len() && 0 <= kr < gpaths(rem@[gr]).len() ==> !(
                #[trigger] gpaths(plan@[c]@[g])[k] =~= #[trigger] gpaths(rem@[gr])[kr]),
            forall|gc: int, kc: int, gr: int, kr: int|
                0 <= gc < cur@.len() && 0 <= gr < rem@.len() && 0 <= kc < gpaths(
                    cur@[gc],
                ).len() && 0 <= kr < gpaths(rem@[gr]).len() ==> !(#[trigger] gpaths(
                cur@[gc],
            )[kc] =~= #[trigger] gpaths(rem@[gr])[kr]),
            forall|j: int|
                0 <= j < orig.len() ==> #[trigger] in_plan(plan@, orig[j]) || in_groups(
                    cur@,
                    orig[j],
                ) || in_groups(rem@, orig[j]),
            forall|p: Seq<u8>| #[trigger] ghas(orig, p) <==> (ghas2(plan@, p) || ghas(cur@, p) || ghas(rem@, p)),
            // Closed chunks with more than one group fit the budget exactly.
            forall|c: int|
                0 <= c < plan@.len() && (#[trigger] plan@[c])@.len() > 1 ==> (sizes_sum(plan@[c]@)
                    <= max_chunk_bytes && forall|k: int|
                    0 <= k < plan@[c]@.len() ==> !(#[trigger] plan@[c]@[k]).oversize),
            // The open chunk with more than one group fits too, unless the
            // ceiling forced merging.
            cur@.len() > 1 && plan@.len() + 1 < max_chunks ==> (!cur_over && cur_bytes
                <= max_chunk_bytes),
            !cur_over ==> cur_bytes as int == sizes_sum(cur@) && (forall|k: int|
                0 <= k < cur@.len() ==> !(#[trigger] cur@[k]).oversize),
            cur@.len() == 0 ==> !cur_over && cur_bytes == 0,
        decreases rem@.len(),
    {
        let ghost remprev = rem@;
        let ghost curprev = cur@;
        let ghost planprev = plan@;
        let g = rem.remove(0);
        proof {
            assert(g == remprev[0]);
            assert(rem@ =~= remprev.subrange(1, remprev.len() as int));
            assert forall|k: int| 0 <= k < rem@.len() implies #[trigger] from_orig(
                orig,
                rem@[k],
            ) by {
                assert(rem@[k] == remprev[k + 1]);
                assert(from_orig(orig, remprev[k + 1]));
            }
        }
        let g_over = g.oversize;
        let g_size = g.size;
        if cur.len() == 0 {
            cur.push(g);
            cur_bytes = g_size;
            cur_over = g_over;
            proof {
                assert(sizes_sum(cur@) == sizes_sum(cur@.drop_last()) + cur@.last().size);
                assert(cur@.drop_last() =~= curprev);
                assert(sizes_sum(curprev) == 0);
                if !cur_over {
                    assert(cur_bytes as int == sizes_sum(cur@));
                }
            }
        } else if plan.len() + 1 >= max_chunks {
            // Ceiling reached: merge everything remaining into this chunk.
            cur.push(g);
            if !cur_over {
                if u64::MAX - cur_bytes < g_size {
                    cur_over = true;
                } else {
                    cur_bytes = cur_bytes + g_size;
                }
            }
            if g_over {
                cur_over = true;
            }
            proof {
                assert(cur@.drop_last() =~= curprev);
                if !cur_over {
                    assert(cur_bytes as int == sizes_sum(cur@));
                    assert forall|k: int| 0 <= k < cur@.len() implies !(
                    #[trigger] cur@[k]).oversize by {
                        if k < cur@.len() - 1 {
                            assert(cur@[k] == curprev[k]);
                        } else {
                            assert(cur@[k] == g);
                        }
                    }
                }
            }
        } else if !cur_over && !g_over && cur_bytes <= max_chunk_bytes && max_chunk_bytes
            - cur_bytes >= g_size {
            cur.push(g);
            cur_bytes = cur_bytes + g_size;
            proof {
                assert(cur@.drop_last() =~= curprev);
                assert(cur_bytes as int == sizes_sum(cur@));
                assert forall|k: int| 0 <= k < cur@.len() implies !(
                #[trigger] cur@[k]).oversize by {
                    if k < cur@.len() - 1 {
                        assert(cur@[k] == curprev[k]);
                    } else {
                        assert(cur@[k] == g);
                    }
                }
            }
        } else {
            plan.push(cur);
            let mut fresh: Vec<Group> = Vec::new();
            fresh.push(g);
            cur = fresh;
            cur_bytes = g_size;
            cur_over = g_over;
            proof {
                assert(cur@.drop_last() =~= Seq::<Group>::empty());
                assert(sizes_sum(Seq::<Group>::empty()) == 0);
                if !cur_over {
                    assert(cur_bytes as int == sizes_sum(cur@));
                }
                assert forall|c: int, k: int|
                    0 <= c < plan@.len() && 0 <= k < plan@[c]@.len() implies #[trigger] from_orig(
                    orig,
                    plan@[c]@[k],
                ) by {
                    if c < plan@.len() - 1 {
                        assert(plan@[c] == planprev[c]);
                        assert(from_orig(orig, planprev[c]@[k]));
                    } else {
                        assert(plan@[c]@ =~= curprev);
                        assert(from_orig(orig, curprev[k]));
                        assert(plan@[c]@[k] == curprev[k]);
                    }
                }
            }
        }
        proof {
            // Path-union bookkeeping for each of the four branches.
            assert forall|p: Seq<u8>| #[trigger] ghas(orig, p) implies (ghas2(plan@, p) || ghas(
                cur@,
                p,
            ) || ghas(rem@, p)) by {
                if ghas2(planprev, p) {
                    let c = choose|c: int| 0 <= c < planprev.len() && ghas(planprev[c]@, p);
                    assert(plan@[c] == planprev[c]);
                    assert(ghas2(plan@, p));
                } else if ghas(curprev, p) {
                    let (gi, k) = choose|gi: int, k: int|
                        0 <= gi < curprev.len() && 0 <= k < gpaths(curprev[gi]).len() && gpaths(
                            curprev[gi],
                        )[k] =~= p;
                    if cur@.len() == curprev.len() + 1 {
                        assert(cur@[gi] == curprev[gi]);
                        assert(gpaths(cur@[gi])[k] =~= p);
                        assert(ghas(cur@, p));
                    } else {
                        assert(plan@[plan@.len() - 1]@ =~= curprev);
                        assert(ghas(plan@[plan@.len() - 1]@, p));
                        assert(ghas2(plan@, p));
                    }
                } else if ghas(remprev, p) {
                    let (gi, k) = choose|gi: int, k: int|
                        0 <= gi < remprev.len() && 0 <= k < gpaths(remprev[gi]).len() && gpaths(
                            remprev[gi],
                        )[k] =~= p;
                    if gi == 0 {
                        assert(cur@[cur@.len() - 1] == g);
                        assert(gpaths(cur@[cur@.len() - 1])[k] =~= p);
                        assert(ghas(cur@, p));
                    } else {
                        assert(rem@[gi - 1] == remprev[gi]);
                        assert(gpaths(rem@[gi - 1])[k] =~= p);
                        assert(ghas(rem@, p));
                    }
                }
            }
            assert forall|p: Seq<u8>| (ghas2(plan@, p) || ghas(cur@, p) || ghas(rem@, p)) implies
                #[trigger] ghas(orig, p) by {
                if ghas2(plan@, p) {
                    let c = choose|c: int| 0 <= c < plan@.len() && ghas(plan@[c]@, p);
                    if c < planprev.len() {
                        assert(planprev[c] == plan@[c]);
                        assert(ghas2(planprev, p));
                    } else {
                        assert(plan@[c]@ =~= curprev);
                        assert(ghas(curprev, p));
                    }
                } else if ghas(cur@, p) {
                    let (gi, k) = choose|gi: int, k: int|
                        0 <= gi < cur@.len() && 0 <= k < gpaths(cur@[gi]).len() && gpaths(
                            cur@[gi],
                        )[k] =~= p;
                    if gi < cur@.len() - 1 && cur@.len() == curprev.len() + 1 {
                        assert(cur@[gi] == curprev[gi]);
                        assert(ghas(curprev, p));
                    } else if gi == cur@.len() - 1 {
                        assert(cur@[gi] == g);
                        assert(gpaths(remprev[0])[k] =~= p);
                        assert(ghas(remprev, p));
                    }
                } else {
                    let (gi, k) = choose|gi: int, k: int|
                        0 <= gi < rem@.len() && 0 <= k < gpaths(rem@[gi]).len() && gpaths(
                            rem@[gi],
                        )[k] =~= p;
                    assert(rem@[gi] == remprev[gi + 1]);
                    assert(gpaths(remprev[gi + 1])[k] =~= p);
                    assert(ghas(remprev, p));
                }
            }
            // every original group is still somewhere: closed, open or left
            assert forall|j2: int| 0 <= j2 < orig.len() implies #[trigger] in_plan(
                plan@,
                orig[j2],
            ) || in_groups(cur@, orig[j2]) || in_groups(rem@, orig[j2]) by {
                if in_plan(planprev, orig[j2]) {
                    let (c2, gi2) = choose|c2: int, gi2: int|
                        0 <= c2 < planprev.len() && 0 <= gi2 < planprev[c2]@.len()
                            && planprev[c2]@[gi2] == orig[j2];
                    assert(plan@[c2] == planprev[c2]);
                    assert(in_plan(plan@, orig[j2]));
                } else if in_groups(curprev, orig[j2]) {
                    let k2 = choose|k2: int|
                        0 <= k2 < curprev.len() && curprev[k2] == orig[j2];
                    if cur@.len() == curprev.len() + 1 {
                        assert(cur@[k2] == curprev[k2]);
                        assert(in_groups(cur@, orig[j2]));
                    } else {
                        assert(plan@[plan@.len() - 1]@ =~= curprev);
                        assert(plan@[plan@.len() - 1]@[k2] == orig[j2]);
                        assert(in_plan(plan@, orig[j2]));
                    }
                } else {
                    assert(in_groups(remprev, orig[j2]));
                    let k2 = choose|k2: int|
                        0 <= k2 < remprev.len() && remprev[k2] == orig[j2];
                    if k2 == 0 {
                        assert(cur@[cur@.len() - 1] == g);
                        assert(in_groups(cur@, orig[j2]));
                    } else {
                        assert(rem@[k2 - 1] == remprev[k2]);
                        assert(in_groups(rem@, orig[j2]));
                    }
                }
            }
        }
    }
    if cur.len() > 0 {
        let ghost planprev = plan@;
        let ghost curprev = cur@;
        plan.push(cur);
        proof {
            assert forall|c: int, k: int|
                0 <= c < plan@.len() && 0 <= k < plan@[c]@.len() implies #[trigger] from_orig(
                orig,
                plan@[c]@[k],
            ) by {
                if c < plan@.len() - 1 {
                    assert(plan@[c] == planprev[c]);
                    assert(from_orig(orig, planprev[c]@[k]));
                } else {
                    assert(plan@[c]@ =~= curprev);
                    assert(from_orig(orig, curprev[k]));
                    assert(plan@[c]@[k] == curprev[k]);
                }
            }
            assert forall|p: Seq<u8>| #[trigger] ghas2(plan@, p) implies ghas(orig, p) by {
                let c = choose|c: int| 0 <= c < plan@.len() && ghas(plan@[c]@, p);
                if c < planprev.len() {
                    assert(planprev[c] == plan@[c]);
                    assert(ghas2(planprev, p));
                } else {
                    assert(plan@[c]@ =~= curprev);
                    assert(ghas(curprev, p));
                }
            }
            assert forall|p: Seq<u8>| ghas(orig, p) implies #[trigger] ghas2(plan@, p) by {
                if ghas2(planprev, p) {
                    let c = choose|c: int| 0 <= c < planprev.len() && ghas(planprev[c]@, p);
                    assert(plan@[c] == planprev[c]);
                } else {
                    assert(ghas(curprev, p));
                    assert(plan@[plan@.len() - 1]@ =~= curprev);
                }
            }
            assert forall|c: int|
                0 <= c < plan@.len() && (#[trigger] plan@[c])@.len() > 1 && c < plan@.len()
                    - 1 implies (sizes_sum(plan@[c]@) <= max_chunk_bytes && forall|k: int|
                0 <= k < plan@[c]@.len() ==> !(#[trigger] plan@[c]@[k]).oversize) by {
                assert(plan@[c] == planprev[c]);
            }
            assert forall|c1: int, c2: int, g1: int, g2: int, k1: int, k2: int|
                0 <= c1 < c2 < plan@.len() && 0 <= g1 < plan@[c1]@.len() && 0 <= g2
                    < plan@[c2]@.len() && 0 <= k1 < gpaths(plan@[c1]@[g1]).len() && 0 <= k2
                    < gpaths(plan@[c2]@[g2]).len() implies !(#[trigger] gpaths(
                plan@[c1]@[g1],
            )[k1] =~= #[trigger] gpaths(plan@[c2]@[g2])[k2]) by {
                assert(plan@[c1] == planprev[c1]);
                if c2 < plan@.len() - 1 {
                    assert(plan@[c2] == planprev[c2]);
                } else {
                    assert(plan@[c2]@ =~= curprev);
                    assert(plan@[c2]@[g2] == curprev[g2]);
                }
            }
            assert forall|j2: int| 0 <= j2 < orig.len() implies #[trigger] in_plan(
                plan@,
                orig[j2],
            ) by {
                if in_plan(planprev, orig[j2]) {
                    let (c2, gi2) = choose|c2: int, gi2: int|
                        0 <= c2 < planprev.len() && 0 <= gi2 < planprev[c2]@.len()
                            && planprev[c2]@[gi2] == orig[j2];
                    assert(plan@[c2] == planprev[c2]);
                } else {
                    assert(in_groups(curprev, orig[j2]));
                    let k2 = choose|k2: int|
                        0 <= k2 < curprev.len() && curprev[k2] == orig[j2];
                    assert(plan@[plan@.len() - 1]@ =~= curprev);
                    assert(plan@[plan@.len() - 1]@[k2] == orig[j2]);
                }
            }
        }
    }
    plan
}


/// The set of path views held in a vector of byte vectors.
pub open spec fn wset(v: Seq<Vec<u8>>) -> Set<Seq<u8>> {
    Set::new(|p: Seq<u8>| in_path_list(v, p))
}

pub proof fn lemma_wset_push(v: Seq<Vec<u8>>, x: Vec<u8>)
    ensures
        wset(v.push(x)) =~= wset(v).insert(x@),
{
    assert forall|p: Seq<u8>| wset(v.push(x)).contains(p) implies wset(v).insert(x@).contains(
        p,
    ) by {
        let k = choose|k: int| 0 <= k < v.push(x).len() && v.push(x)[k]@ =~= p;
        if k < v.len() {
            assert(v[k]@ =~= p);
        }
    }
    assert forall|p: Seq<u8>| wset(v).insert(x@).contains(p) implies wset(v.push(x)).contains(
        p,
    ) by {
        if wset(v).contains(p) {
            let k = choose|k: int| 0 <= k < v.len() && v[k]@ =~= p;
            assert(v.push(x)[k]@ =~= p);
        } else {
            assert(v.push(x)[v.len() as int]@ =~= p);
        }
    }
}

/// Weight of the scan prefix restricted to a set of selected paths.
pub open spec fn cwp(files: Seq<FileInfo>, ws: Set<Seq<u8>>, i: int) -> int
    decreases i,
{
    if i <= 0 {
        0
    } else {
        cwp(files, ws, i - 1) + if ws.contains(files[i - 1].path@) {
            files[i - 1].weight()
        } else {
            0
        }
    }
}

/// Adding one fresh path to the selection adds exactly that path's weight.
proof fn lemma_cwp_grow(files: FileMap, ws: Set<Seq<u8>>, p: Seq<u8>, i: int)
    requires
        files.wf(),
        !ws.contains(p),
        0 <= i <= files.entries@.len(),
    ensures
        cwp(files.entries@, ws.insert(p), i) == cwp(files.entries@, ws, i) + (
        if files.has_path(p) && files.index_of(p) < i {
            path_weight(files, p)
        } else {
            0
        }),
    decreases i,
{
    if i > 0 {
        lemma_cwp_grow(files, ws, p, i - 1);
        let q = files.entries@[i - 1].path@;
        if q == p {
            files.lemma_index_of(p, i - 1);
        } else {
            if files.has_path(p) && files.index_of(p) == i - 1 {
                assert(files.entries@[i - 1].path@ =~= p);
            }
        }
    }
}

/// Two lists agreeing on a prefix have the same partial weight.
proof fn lemma_ew_congruent(a: Seq<FileInfo>, b: Seq<FileInfo>, n: int)
    requires
        0 <= n <= a.len(),
        n <= b.len(),
        forall|k: int| 0 <= k < n ==> a[k] == b[k],
    ensures
        crate::model::entries_weight_to(a, n) == crate::model::entries_weight_to(b, n),
    decreases n,
{
    if n > 0 {
        lemma_ew_congruent(a, b, n - 1);
    }
}

proof fn lemma_ew_push(s: Seq<FileInfo>, e: FileInfo)
    ensures
        crate::model::entries_weight(s.push(e)) == crate::model::entries_weight(s) + e.weight(),
{
    lemma_ew_congruent(s.push(e), s, s.len() as int);
    assert(s.push(e)[s.len() as int] == e);
}

/// Weight sum of a plan chunk, stated over the actual scanned paths.
pub open spec fn gws(files: FileMap, gs: Seq<Group>) -> int
    decreases gs.len(),
{
    if gs.len() == 0 {
        0
    } else {
        gws(files, gs.drop_last()) + paths_weight(files, gpaths(gs.last()))
    }
}

/// When no group overflows, the recorded sizes match the scanned sums.
proof fn lemma_gws_sizes(files: FileMap, gs: Seq<Group>)
    requires
        forall|k: int| 0 <= k < gs.len() ==> gwf(#[trigger] gs[k], files),
        forall|k: int| 0 <= k < gs.len() ==> !(#[trigger] gs[k]).oversize,
    ensures
        gws(files, gs) == sizes_sum(gs),
    decreases gs.len(),
{
    if gs.len() > 0 {
        assert(forall|k: int| 0 <= k < gs.drop_last().len() ==> gs.drop_last()[k] == gs[k]);
        lemma_gws_sizes(files, gs.drop_last());
    }
}

/// Path `p` is owned by some group of a plan chunk before `c`.
pub open spec fn owned_by_plan_prefix(plan: Seq<Vec<Group>>, c: int, p: Seq<u8>) -> bool {
    exists|c2: int, g: int, k: int|
        0 <= c2 < c && c2 < plan.len() && 0 <= g < plan[c2]@.len() && 0 <= k < gpaths(
            plan[c2]@[g],
        ).len() && gpaths(plan[c2]@[g])[k] =~= p
}

/// Path `p` is a strict ancestor of some scanned path.
pub open spec fn ancestor_path(files: FileMap, p: Seq<u8>) -> bool {
    exists|q: Seq<u8>| files.has_path(q) && is_ancestor(p, q)
}

/// Paths `p` and `q` stand together in one chunk of the list.
pub open spec fn pair_in_one_chunk(chunks: Seq<Chunk>, p: Seq<u8>, q: Seq<u8>) -> bool {
    exists|j: int| 0 <= j < chunks.len() && (#[trigger] chunks[j]).has_path(p) && chunks[j].has_path(q)
}

/// Some chunk of the list holds path `p`.
pub open spec fn chunks_has(chunks: Seq<Chunk>, p: Seq<u8>) -> bool {
    exists|j: int| 0 <= j < chunks.len() && (#[trigger] chunks[j]).has_path(p)
}



pub proof fn lemma_ipl_push(v: Seq<Vec<u8>>, x: Vec<u8>)
    ensures
        forall|q: Seq<u8>| #[trigger] in_path_list(v.push(x), q) <==> (in_path_list(v, q) || x@
            =~= q),
{
    assert forall|q: Seq<u8>| #[trigger] in_path_list(v.push(x), q) implies (in_path_list(v, q)
        || x@ =~= q) by {
        let k = choose|k: int| 0 <= k < v.push(x).len() && v.push(x)[k]@ =~= q;
        if k < v.len() {
            assert(v[k]@ =~= q);
        }
    }
    assert forall|q: Seq<u8>| (in_path_list(v, q) || x@ =~= q) implies #[trigger] in_path_list(
        v.push(x),
        q,
    ) by {
        if in_path_list(v, q) {
            let k = choose|k: int| 0 <= k < v.len() && v[k]@ =~= q;
            assert(v.push(x)[k]@ =~= q);
        } else {
            assert(v.push(x)[v.len() as int]@ =~= q);
        }
    }
}

/// No two members of the list hold the same path.
pub open spec fn distinct_paths(v: Seq<Vec<u8>>) -> bool {
    forall|a: int, b: int| 0 <= a < b < v.len() ==> !((#[trigger] v[a])@ =~= (#[trigger] v[b])@)
}

pub proof fn lemma_distinct_push(v: Seq<Vec<u8>>, x: Vec<u8>)
    requires
        distinct_paths(v),
        !in_path_list(v, x@),
    ensures
        distinct_paths(v.push(x)),
{
    assert forall|a: int, b: int| 0 <= a < b < v.push(x).len() implies !((#[trigger] v.push(x)[a])@
        =~= (#[trigger] v.push(x)[b])@) by {
        if b == v.len() {
            if v[a]@ =~= x@ {
                assert(in_path_list(v, x@));
            }
        }
    }
}

/// Every member of the list is a scanned path.
pub open spec fn all_scanned(files: FileMap, v: Seq<Vec<u8>>) -> bool {
    forall|a: int| 0 <= a < v.len() ==> files.has_path((#[trigger] v[a])@)
}

pub proof fn lemma_chunks_push(s: Seq<Chunk>, x: Chunk)
    ensures
        forall|q: Seq<u8>| #[trigger] chunks_has(s.push(x), q) <==> (chunks_has(s, q)
            || x.has_path(q)),
{
    assert forall|q: Seq<u8>| #[trigger] chunks_has(s.push(x), q) implies (chunks_has(s, q)
        || x.has_path(q)) by {
        let j = choose|j: int| 0 <= j < s.push(x).len() && (#[trigger] s.push(x)[j]).has_path(q);
        if j < s.len() {
            assert(s[j].has_path(q));
        }
    }
    assert forall|q: Seq<u8>| (chunks_has(s, q) || x.has_path(q)) implies #[trigger] chunks_has(
        s.push(x),
        q,
    ) by {
        if chunks_has(s, q) {
            let j = choose|j: int| 0 <= j < s.len() && (#[trigger] s[j]).has_path(q);
            assert(s.push(x)[j].has_path(q));
        } else {
            assert(s.push(x)[s.len() as int].has_path(q));
        }
    }
}

/// An empty selection weighs nothing.
proof fn lemma_cwp_none(files: Seq<FileInfo>, ws: Set<Seq<u8>>, i: int)
    requires
        forall|p: Seq<u8>| !ws.contains(p),
    ensures
        cwp(files, ws, i) == 0,
    decreases i,
{
    if i > 0 {
        lemma_cwp_none(files, ws, i - 1);
    }
}

/// Exhibits the witness for ownership by a plan prefix.
proof fn lemma_owned_prefix_witness(
    plan: Seq<Vec<Group>>,
    bound: int,
    c: int,
    g: int,
    k: int,
    p: Seq<u8>,
)
    requires
        0 <= c < bound,
        c < plan.len(),
        0 <= g < plan[c]@.len(),
        0 <= k < gpaths(plan[c]@[g]).len(),
        gpaths(plan[c]@[g])[k] =~= p,
    ensures
        owned_by_plan_prefix(plan, bound, p),
{
}

/// A scanned regular file owned by plan chunk `c` is not among the paths
/// placed by earlier chunks: those are owned by earlier chunks (disjoint
/// from chunk `c`'s) or are ancestor directories of scanned paths, and an
/// ancestor of a scanned path is a directory, not a regular file.
proof fn lemma_file_not_preplaced(
    files: FileMap,
    plan: Seq<Vec<Group>>,
    c: int,
    gi: int,
    k: int,
    placedstart: Seq<Vec<u8>>,
)
    requires
        files.wf(),
        plan_cross_disjoint(plan),
        0 <= c < plan.len(),
        0 <= gi < plan[c]@.len(),
        0 <= k < gpaths(plan[c]@[gi]).len(),
        scanned_file(files, gpaths(plan[c]@[gi])[k]),
        forall|a: int|
            0 <= a < placedstart.len() ==> owned_by_plan_prefix(
                plan,
                c,
                (#[trigger] placedstart[a])@,
            ) || ancestor_path(files, placedstart[a]@),
    ensures
        !in_path_list(placedstart, gpaths(plan[c]@[gi])[k]),
{
    let p = gpaths(plan[c]@[gi])[k];
    if !in_path_list(placedstart, p) {
        return ;
    }
    let a = choose|a: int| 0 <= a < placedstart.len() && placedstart[a]@ =~= p;
    if owned_by_plan_prefix(plan, c, placedstart[a]@) {
        let (c3, g3, k4) = choose|c3: int, g3: int, k4: int|
            0 <= c3 < c && c3 < plan.len() && 0 <= g3 < plan[c3]@.len() && 0 <= k4 < gpaths(
                plan[c3]@[g3],
            ).len() && gpaths(plan[c3]@[g3])[k4] =~= placedstart[a]@;
        assert(gpaths(plan[c3]@[g3])[k4] =~= gpaths(plan[c]@[gi])[k]);
    } else {
        assert(ancestor_path(files, placedstart[a]@));
        let q = choose|q: Seq<u8>| files.has_path(q) && is_ancestor(placedstart[a]@, q);
        let pi = files.index_of(p);
        let qi = files.index_of(q);
        assert(files.entries@[pi].path@ =~= p);
        assert(files.entries@[qi].path@ =~= q);
        assert(is_ancestor(files.entries@[pi].path@, files.entries@[qi].path@));
        assert(files.entries@[pi].file_type == FileType::Directory);
    }
}

/// Builds the chunks of a plan: each chunk takes the paths its groups own
/// that no earlier chunk placed, together with their not-yet-placed
/// ancestor directories, in scan order. Chunks that would come out empty
/// are dropped.
#[verifier::rlimit(100)]
#[verifier::spinoff_prover]
fn build_chunks(files: &FileMap, plan: &Vec<Vec<Group>>, max_chunk_bytes: u64) -> (chunks: Vec<
    Chunk,
>)
    requires
        files.wf(),
        files.ancestor_closed(),
        forall|c: int, k: int|
            0 <= c < plan@.len() && 0 <= k < plan@[c]@.len() ==> gwf(
                #[trigger] plan@[c]@[k],
                *files,
            ),
        forall|c: int|
            0 <= c < plan@.len() && (#[trigger] plan@[c])@.len() > 1 && c < plan@.len() - 1 ==> (
            sizes_sum(plan@[c]@) <= max_chunk_bytes && forall|k: int|
                0 <= k < plan@[c]@.len() ==> !(#[trigger] plan@[c]@[k]).oversize),
        plan_cross_disjoint(plan@),
    ensures
        // all the scanned regular files of one planned group land together
        forall|c: int, gi: int, k1: int, k2: int|
            0 <= c < plan@.len() && 0 <= gi < plan@[c]@.len() && 0 <= k1 < gpaths(
                plan@[c]@[gi],
            ).len() && 0 <= k2 < gpaths(plan@[c]@[gi]).len() && scanned_file(
                *files,
                #[trigger] gpaths(plan@[c]@[gi])[k1],
            ) && scanned_file(*files, #[trigger] gpaths(plan@[c]@[gi])[k2])
                ==> pair_in_one_chunk(
                chunks@,
                gpaths(plan@[c]@[gi])[k1],
                gpaths(plan@[c]@[gi])[k2],
            ),
        chunks@.len() <= plan@.len(),
        forall|j: int| 0 <= j < chunks@.len() ==> (#[trigger] chunks@[j]).entries@.len() >= 1,
        forall|j: int, a: int, b: int|
            0 <= j < chunks@.len() && 0 <= a < b < chunks@[j].entries@.len() ==> lex_lt(
                (#[trigger] chunks@[j].entries@[a])@.path,
                (#[trigger] chunks@[j].entries@[b])@.path,
            ),
        forall|j: int, i: int|
            0 <= j < chunks@.len() && 0 <= i < chunks@[j].entries@.len() ==> exists|fi: int|
                0 <= fi < files.entries@.len() && (#[trigger] chunks@[j].entries@[i])@
                    =~= files.entries@[fi]@,
        forall|p: Seq<u8>| #[trigger] chunks_has(chunks@, p) ==> files.has_path(p),
        forall|p: Seq<u8>| #[trigger] ghas2(plan@, p) ==> chunks_has(chunks@, p),
        forall|j1: int, j2: int, p: Seq<u8>|
            0 <= j1 < j2 < chunks@.len() ==> !(#[trigger] chunks@[j1].has_path(p)
                && #[trigger] chunks@[j2].has_path(p)),
        forall|j: int, i: int, d: Seq<u8>|
            0 <= j < chunks@.len() && 0 <= i < chunks@[j].entries@.len() && #[trigger] is_ancestor(
                d,
                chunks@[j].entries@[i]@.path,
            ) ==> exists|j2: int| 0 <= j2 <= j && (#[trigger] chunks@[j2]).has_path(d),
        forall|j: int|
            0 <= j < chunks@.len() && (#[trigger] chunks@[j]).weight() > max_chunk_bytes ==> (
            chunks@[j].components@.len() == 1 || j == chunks@.len() - 1),
{
    let mut chunks: Vec<Chunk> = Vec::new();
    let mut placed: Vec<Vec<u8>> = Vec::new();
    let mut c: usize = 0;
    while c < plan.len()
        invariant
            c <= plan@.len(),
            files.wf(),
            files.ancestor_closed(),
            forall|c2: int, k: int|
                0 <= c2 < plan@.len() && 0 <= k < plan@[c2]@.len() ==> gwf(
                    #[trigger] plan@[c2]@[k],
                    *files,
                ),
            forall|c2: int|
                0 <= c2 < plan@.len() && (#[trigger] plan@[c2])@.len() > 1 && c2 < plan@.len()
                    - 1 ==> (sizes_sum(plan@[c2]@) <= max_chunk_bytes && forall|k: int|
                    0 <= k < plan@[c2]@.len() ==> !(#[trigger] plan@[c2]@[k]).oversize),
            plan_cross_disjoint(plan@),
            chunks@.len() <= c,
            // placed paths are exactly the paths of the chunks built so far
            forall|q: Seq<u8>| #[trigger] in_path_list(placed@, q) <==> chunks_has(chunks@, q),
            // placed paths are distinct and scanned
            distinct_paths(placed@),
            all_scanned(*files, placed@),
            // every path of an already processed group is placed
            forall|c2: int, gi: int, k: int|
                0 <= c2 < c && 0 <= gi < plan@[c2]@.len() && 0 <= k < gpaths(
                    plan@[c2]@[gi],
                ).len() ==> in_path_list(placed@, #[trigger] gpaths(plan@[c2]@[gi])[k]),
            forall|j: int| 0 <= j < chunks@.len() ==> (#[trigger] chunks@[j]).entries@.len() >= 1,
            forall|j: int, a: int, b: int|
                0 <= j < chunks@.len() && 0 <= a < b < chunks@[j].entries@.len() ==> lex_lt(
                    (#[trigger] chunks@[j].entries@[a])@.path,
                    (#[trigger] chunks@[j].entries@[b])@.path,
                ),
            forall|j: int, i: int|
                0 <= j < chunks@.len() && 0 <= i < chunks@[j].entries@.len() ==> exists|fi: int|
                    0 <= fi < files.entries@.len() && (#[trigger] chunks@[j].entries@[i])@
                        =~= files.entries@[fi]@,
            forall|j1: int, j2: int, p: Seq<u8>|
                0 <= j1 < j2 < chunks@.len() ==> !(#[trigger] chunks@[j1].has_path(p)
                    && #[trigger] chunks@[j2].has_path(p)),
            forall|j: int, i: int, d: Seq<u8>|
                0 <= j < chunks@.len() && 0 <= i < chunks@[j].entries@.len()
                    && #[trigger] is_ancestor(d, chunks@[j].entries@[i]@.path) ==> exists|j2: int|
                    0 <= j2 <= j && (#[trigger] chunks@[j2]).has_path(d),
            forall|j: int|
                0 <= j < chunks@.len() && (#[trigger] chunks@[j]).weight() > max_chunk_bytes ==> (
                chunks@[j].components@.len() == 1 || (j == chunks@.len() - 1 && c >= plan@.len())),
            // everything placed is either owned by an earlier plan chunk or
            // an ancestor directory of a scanned path
            forall|a: int|
                0 <= a < placed@.len() ==> owned_by_plan_prefix(
                    plan@,
                    c as int,
                    (#[trigger] placed@[a])@,
                ) || ancestor_path(*files, placed@[a]@),
            // scanned regular files of an already processed group stand together
            forall|c2: int, gi: int, k1: int, k2: int|
                0 <= c2 < c && 0 <= gi < plan@[c2]@.len() && 0 <= k1 < gpaths(
                    plan@[c2]@[gi],
                ).len() && 0 <= k2 < gpaths(plan@[c2]@[gi]).len() && scanned_file(
                    *files,
                    #[trigger] gpaths(plan@[c2]@[gi])[k1],
                ) && scanned_file(*files, #[trigger] gpaths(plan@[c2]@[gi])[k2])
                    ==> pair_in_one_chunk(
                    chunks@,
                    gpaths(plan@[c2]@[gi])[k1],
                    gpaths(plan@[c2]@[gi])[k2],
                ),
        decreases plan@.len() - c,
    {
        let groups: &Vec<Group> = &plan[c];
        let ghost placedstart = placed@;
        proof {
            assert forall|a: int| 0 <= a < placedstart.len() implies owned_by_plan_prefix(
                plan@,
                c as int,
                (#[trigger] placedstart[a])@,
            ) || ancestor_path(*files, placedstart[a]@) by {
                assert(placedstart[a] == placed@[a]);
            }
        }
        let mut want: Vec<Vec<u8>> = Vec::new();
        let ghost mut ww: int = 0int;
        let ghost mut acc: int = 0int;
        proof {
            assert(forall|p: Seq<u8>| !wset(want@).contains(p));
            lemma_cwp_none(files.entries@, wset(want@), files.entries@.len() as int);
            assert(groups@.take(0) =~= Seq::<Group>::empty());
        }
        let mut gi: usize = 0;
        while gi < groups.len()
            invariant
                gi <= groups@.len(),
                c < plan@.len(),
                files.wf(),
                files.ancestor_closed(),
                groups@ == plan@[c as int]@,
                forall|k: int|
                    0 <= k < groups@.len() ==> gwf(#[trigger] groups@[k], *files),
                // placed = placedstart plus want, in lockstep
                forall|q: Seq<u8>| #[trigger] in_path_list(placed@, q) <==> (in_path_list(
                    placedstart,
                    q,
                ) || in_path_list(want@, q)),
                forall|a: int|
                    0 <= a < placed@.len() ==> owned_by_plan_prefix(
                        plan@,
                        c as int + 1,
                        (#[trigger] placed@[a])@,
                    ) || ancestor_path(*files, placed@[a]@),
                distinct_paths(placed@),
                all_scanned(*files, placed@),
                all_scanned(*files, want@),
                forall|a: int| 0 <= a < want@.len() ==> !in_path_list(placedstart, (#[trigger] want@[a])@),
                // exact weight of the selection
                ww == cwp(files.entries@, wset(want@), files.entries@.len() as int),
                // bound by the scanned sums of processed groups
                acc == gws(*files, groups@.take(gi as int)),
                ww <= acc,
                // ancestors of everything wanted are placed
                forall|a: int, d: Seq<u8>|
                    0 <= a < want@.len() && #[trigger] is_ancestor(d, want@[a]@)
                        ==> in_path_list(placed@, d),
                // everything wanted was owned or is an ancestor of something owned
                forall|c2: int, gi2: int, k: int|
                    0 <= c2 < c && 0 <= gi2 < plan@[c2]@.len() && 0 <= k < gpaths(
                        plan@[c2]@[gi2],
                    ).len() ==> in_path_list(placed@, #[trigger] gpaths(plan@[c2]@[gi2])[k]),
                forall|gi2: int, k: int|
                    0 <= gi2 < gi && 0 <= k < gpaths(groups@[gi2]).len() ==> in_path_list(
                        placed@,
                        #[trigger] gpaths(groups@[gi2])[k],
                    ),
            decreases groups@.len() - gi,
        {
            let ghost gseq = gpaths(groups@[gi as int]);
            let mut k: usize = 0;
            while k < groups[gi].paths.len()
                invariant
                    k <= gseq.len(),
                    gi < groups@.len(),
                    c < plan@.len(),
                    files.wf(),
                    files.ancestor_closed(),
                    groups@ == plan@[c as int]@,
                    gseq == gpaths(groups@[gi as int]),
                    gseq.len() == groups@[gi as int].paths@.len(),
                    forall|k2: int|
                        0 <= k2 < groups@.len() ==> gwf(#[trigger] groups@[k2], *files),
                    forall|q: Seq<u8>| #[trigger] in_path_list(placed@, q) <==> (in_path_list(
                        placedstart,
                        q,
                    ) || in_path_list(want@, q)),
                    forall|a: int|
                    0 <= a < placed@.len() ==> owned_by_plan_prefix(
                        plan@,
                        c as int + 1,
                        (#[trigger] placed@[a])@,
                    ) || ancestor_path(*files, placed@[a]@),
                distinct_paths(placed@),
                    all_scanned(*files, placed@),
                    all_scanned(*files, want@),
                    forall|a: int| 0 <= a < want@.len() ==> !in_path_list(placedstart, (#[trigger] want@[a])@),
                    ww == cwp(files.entries@, wset(want@), files.entries@.len() as int),
                    acc == gws(*files, groups@.take(gi as int)),
                    ww <= acc + paths_weight(*files, gseq.take(k as int)),
                    forall|a: int, d: Seq<u8>|
                        0 <= a < want@.len() && #[trigger] is_ancestor(d, want@[a]@)
                            ==> in_path_list(placed@, d),
                    forall|c2: int, gi2: int, k2: int|
                        0 <= c2 < c && 0 <= gi2 < plan@[c2]@.len() && 0 <= k2 < gpaths(
                            plan@[c2]@[gi2],
                        ).len() ==> in_path_list(placed@, #[trigger] gpaths(plan@[c2]@[gi2])[k2]),
                    forall|gi2: int, k2: int|
                        0 <= gi2 < gi && 0 <= k2 < gpaths(groups@[gi2]).len() ==> in_path_list(
                            placed@,
                            #[trigger] gpaths(groups@[gi2])[k2],
                        ),
                    forall|k2: int|
                        0 <= k2 < k ==> in_path_list(placed@, #[trigger] gseq[k2]),
                decreases gseq.len() - k,
            {
                let p: &Vec<u8> = &groups[gi].paths[k];
                proof {
                    assert(gseq[k as int] =~= p@);
                    assert(files.has_path(p@));
                    lemma_paths_weight_nonneg(*files, gseq.take(k as int));
                    assert(gseq.take(k as int + 1).drop_last() =~= gseq.take(k as int));
                    assert(gseq.take(k as int + 1).last() =~= p@);
                }
                if !contains_path(&placed, p) {
                    let ghost placedprev = placed@;
                    let ghost wantprev = want@;
                    let pc = clone_bytes(p);
                    let pc2 = clone_bytes(p);
                    proof {
                        lemma_ipl_push(placedprev, pc);
                        lemma_ipl_push(wantprev, pc2);
                        lemma_distinct_push(placedprev, pc);
                    }
                    placed.push(pc);
                    want.push(pc2);
                    proof {
                        assert forall|a: int| 0 <= a < placed@.len() implies owned_by_plan_prefix(
                            plan@,
                            c as int + 1,
                            (#[trigger] placed@[a])@,
                        ) || ancestor_path(*files, placed@[a]@) by {
                            if a == placed@.len() - 1 {
                                assert(groups@[gi as int] == plan@[c as int]@[gi as int]);
                                assert(gseq == gpaths(plan@[c as int]@[gi as int]));
                                assert(gpaths(plan@[c as int]@[gi as int])[k as int] =~= placed@[a]@);
                                lemma_owned_prefix_witness(
                                    plan@,
                                    c as int + 1,
                                    c as int,
                                    gi as int,
                                    k as int,
                                    placed@[a]@,
                                );
                            } else {
                                assert(placed@[a] == placedprev[a]);
                            }
                        }
                        lemma_wset_push(wantprev, want@[want@.len() - 1]);
                        assert(wset(want@) =~= wset(wantprev).insert(p@));
                        assert(!wset(wantprev).contains(p@));
                        lemma_cwp_grow(*files, wset(wantprev), p@, files.entries@.len() as int);
                        let pi = files.index_of(p@);
                        assert(files.index_of(p@) < files.entries@.len());
                        ww = ww + path_weight(*files, p@);
                        lemma_path_weight_nonneg(*files, p@);
                        assert(paths_weight(*files, gseq.take(k as int + 1)) == paths_weight(
                            *files,
                            gseq.take(k as int),
                        ) + path_weight(*files, p@));
                    }
                    let anc = ancestors_of(p);
                    let ghost pview = p@;
                    let mut ai: usize = 0;
                    while ai < anc.len()
                        invariant
                            ai <= anc@.len(),
                            c < plan@.len(),
                            gi < groups@.len(),
                            k < gseq.len(),
                            groups@ == plan@[c as int]@,
                            gseq == gpaths(groups@[gi as int]),
                            gseq[k as int] =~= pview,
                            files.wf(),
                            files.ancestor_closed(),
                            files.has_path(pview),
                            forall|a2: int|
                                0 <= a2 < anc@.len() ==> is_ancestor(
                                    (#[trigger] anc@[a2])@,
                                    pview,
                                ),
                            forall|d: Seq<u8>|
                                is_ancestor(d, pview) ==> in_path_list(anc@, d),
                            forall|q: Seq<u8>| #[trigger] in_path_list(placed@, q) <==> (
                            in_path_list(placedstart, q) || in_path_list(want@, q)),
                        forall|a: int|
                    0 <= a < placed@.len() ==> owned_by_plan_prefix(
                        plan@,
                        c as int + 1,
                        (#[trigger] placed@[a])@,
                    ) || ancestor_path(*files, placed@[a]@),
                    distinct_paths(placed@),
                            all_scanned(*files, placed@),
                            all_scanned(*files, want@),
                            forall|a: int| 0 <= a < want@.len() ==> !in_path_list(placedstart, (#[trigger] want@[a])@),
                            ww == cwp(files.entries@, wset(want@), files.entries@.len() as int),
                            ww <= acc + paths_weight(*files, gseq.take(k as int + 1)),
                            in_path_list(want@, pview),
                            // processed ancestors of p are placed
                            forall|a2: int|
                                0 <= a2 < ai ==> in_path_list(placed@, (#[trigger] anc@[a2])@),
                            // everything wanted except p and p's own ancestors keeps its closure
                            forall|a: int, d: Seq<u8>|
                                0 <= a < want@.len() && #[trigger] is_ancestor(d, want@[a]@)
                                    ==> (in_path_list(placed@, d) || is_ancestor(d, pview)),
                            forall|c2: int, gi2: int, k2: int|
                                0 <= c2 < c && 0 <= gi2 < plan@[c2]@.len() && 0 <= k2 < gpaths(
                                    plan@[c2]@[gi2],
                                ).len() ==> in_path_list(
                                    placed@,
                                    #[trigger] gpaths(plan@[c2]@[gi2])[k2],
                                ),
                            forall|gi2: int, k2: int|
                                0 <= gi2 < gi && 0 <= k2 < gpaths(groups@[gi2]).len()
                                    ==> in_path_list(placed@, #[trigger] gpaths(groups@[gi2])[k2]),
                            forall|k2: int|
                                0 <= k2 < k ==> in_path_list(placed@, #[trigger] gseq[k2]),
                        decreases anc@.len() - ai,
                    {
                        let d: &Vec<u8> = &anc[ai];
                        if !contains_path(&placed, d) {
                            let ghost placedprev2 = placed@;
                            let ghost wantprev2 = want@;
                            let dc = clone_bytes(d);
                            let dc2 = clone_bytes(d);
                            proof {
                                lemma_ipl_push(placedprev2, dc);
                                lemma_ipl_push(wantprev2, dc2);
                                lemma_distinct_push(placedprev2, dc);
                            }
                            placed.push(dc);
                            want.push(dc2);
                            proof {
                                assert forall|a: int|
                                    0 <= a < placed@.len() implies owned_by_plan_prefix(
                                    plan@,
                                    c as int + 1,
                                    (#[trigger] placed@[a])@,
                                ) || ancestor_path(*files, placed@[a]@) by {
                                    if a == placed@.len() - 1 {
                                        assert(is_ancestor(placed@[a]@, pview));
                                        assert(ancestor_path(*files, placed@[a]@));
                                    } else {
                                        assert(placed@[a] == placedprev2[a]);
                                    }
                                }
                                lemma_wset_push(wantprev2, want@[want@.len() - 1]);
                                assert(wset(want@) =~= wset(wantprev2).insert(d@));
                                assert(!wset(wantprev2).contains(d@));
                                lemma_cwp_grow(
                                    *files,
                                    wset(wantprev2),
                                    d@,
                                    files.entries@.len() as int,
                                );
                                // d is a scanned ancestor, hence a directory of weight zero
                                assert(files.has_path(d@)) by {
                                    let pi = files.index_of(pview);
                                    files.lemma_index_of(
                                        pview,
                                        choose|i: int|
                                            0 <= i < files.entries@.len()
                                                && files.entries@[i].path@ =~= pview,
                                    );
                                }
                                let di = files.index_of(d@);
                                let pi2 = files.index_of(pview);
                                assert(files.entries@[di].path@ =~= d@);
                                assert(files.entries@[pi2].path@ =~= pview);
                                assert(is_ancestor(
                                    files.entries@[di].path@,
                                    files.entries@[pi2].path@,
                                ));
                                assert(files.entries@[di].file_type == FileType::Directory);
                                assert(path_weight(*files, d@) == 0);
                                ww = ww + 0int;
                            }
                        }
                        ai = ai + 1;
                    }
                    proof {
                        // after the walk, every ancestor of everything wanted is placed
                        assert forall|a: int, d: Seq<u8>|
                            0 <= a < want@.len() && #[trigger] is_ancestor(
                                d,
                                want@[a]@,
                            ) implies in_path_list(placed@, d) by {
                            if is_ancestor(d, pview) {
                                assert(in_path_list(anc@, d));
                                let a2 = choose|a2: int|
                                    0 <= a2 < anc@.len() && anc@[a2]@ =~= d;
                                assert(in_path_list(placed@, anc@[a2]@));
                            }
                        }
                    }
                } else {
                    proof {
                        lemma_path_weight_nonneg(*files, p@);
                        assert(paths_weight(*files, gseq.take(k as int + 1)) == paths_weight(
                            *files,
                            gseq.take(k as int),
                        ) + path_weight(*files, p@));
                    }
                }
                k = k + 1;
            }
            gi = gi + 1;
            proof {
                assert(groups@.take(gi as int).drop_last() =~= groups@.take(gi as int - 1));
                assert(groups@.take(gi as int).last() == groups@[gi as int - 1]);
                assert(gseq.take(gseq.len() as int) =~= gseq);
                acc = acc + paths_weight(*files, gseq);
            }
        }
        // Select the wanted entries in scan order.
        let ghost ws = wset(want@);
        let mut entries: Vec<FileInfo> = Vec::new();
        let mut i: usize = 0;
        while i < files.entries.len()
            invariant
                i <= files.entries@.len(),
                files.wf(),
                ws == wset(want@),
                entries@.len() <= i,
                crate::model::entries_weight(entries@) == cwp(files.entries@, ws, i as int),
                forall|a: int|
                    0 <= a < entries@.len() ==> exists|fi: int|
                        0 <= fi < i && (#[trigger] entries@[a])@ =~= files.entries@[fi]@,
                forall|a: int|
                    0 <= a < entries@.len() ==> in_path_list(
                        want@,
                        (#[trigger] entries@[a])@.path,
                    ),
                forall|a: int, j: int|
                    0 <= a < entries@.len() && i <= j < files.entries@.len() ==> lex_lt(
                        (#[trigger] entries@[a])@.path,
                        (#[trigger] files.entries@[j]).path@,
                    ),
                forall|a: int, b: int|
                    0 <= a < b < entries@.len() ==> lex_lt(
                        (#[trigger] entries@[a])@.path,
                        (#[trigger] entries@[b])@.path,
                    ),
                forall|fi: int|
                    0 <= fi < i && ws.contains((#[trigger] files.entries@[fi]).path@)
                        ==> exists|a: int|
                        0 <= a < entries@.len() && (#[trigger] entries@[a])@.path
                            =~= files.entries@[fi].path@,
            decreases files.entries@.len() - i,
        {
            let sel = contains_path(&want, &files.entries[i].path);
            proof {
                assert(sel == ws.contains(files.entries@[i as int].path@));
            }
            if sel {
                let ghost entriesprev = entries@;
                let e = clone_info(&files.entries[i]);
                entries.push(e);
                proof {
                    lemma_ew_push(entriesprev, entries@[entries@.len() - 1]);
                    assert(entries@[entries@.len() - 1]@ =~= files.entries@[i as int]@);
                    assert(entries@[entries@.len() - 1]@.path =~= files.entries@[i as int].path@);
                    assert forall|fi: int|
                        0 <= fi < i + 1 && ws.contains(
                            (#[trigger] files.entries@[fi]).path@,
                        ) implies exists|a: int|
                        0 <= a < entries@.len() && (#[trigger] entries@[a])@.path
                            =~= files.entries@[fi].path@ by {
                        if fi == i {
                            assert(entries@[entries@.len() - 1]@.path
                                =~= files.entries@[fi].path@);
                        } else {
                            let a = choose|a: int|
                                0 <= a < entriesprev.len() && (#[trigger] entriesprev[a])@.path
                                    =~= files.entries@[fi].path@;
                            assert(entries@[a]@.path =~= files.entries@[fi].path@);
                        }
                    }
                }
            }
            i = i + 1;
        }
        proof {
            assert(crate::model::entries_weight(entries@) == ww) by {
                assert(cwp(files.entries@, ws, files.entries@.len() as int) == ww);
            }
        }
        if entries.len() > 0 {
            let mut comps: Vec<Vec<u8>> = Vec::new();
            let mut gi2: usize = 0;
            while gi2 < groups.len()
                invariant
                    gi2 <= groups@.len(),
                    comps@.len() == gi2,
                decreases groups@.len() - gi2,
            {
                comps.push(clone_bytes(&groups[gi2].name));
                gi2 = gi2 + 1;
            }
            let ghost chunksprev = chunks@;
            let ghost compslen = comps@.len() as int;
            let newchunk = Chunk { components: comps, entries };
            chunks.push(newchunk);
            proof {
                let nc = chunks@[chunks@.len() - 1];
                lemma_chunks_push(chunksprev, nc);
                assert(chunks@ == chunksprev.push(nc));
                // the new chunk's paths are exactly the wanted paths
                assert forall|q: Seq<u8>| nc.has_path(q) implies in_path_list(want@, q) by {
                    let a = choose|a: int|
                        0 <= a < nc.entries@.len() && nc.entries@[a].path@ =~= q;
                    assert(in_path_list(want@, nc.entries@[a]@.path));
                }
                assert forall|q: Seq<u8>| in_path_list(want@, q) implies nc.has_path(q) by {
                    assert(ws.contains(q));
                    let a = choose|a: int| 0 <= a < want@.len() && want@[a]@ =~= q;
                    assert(files.has_path(want@[a]@));
                    let fi = choose|fi: int|
                        0 <= fi < files.entries@.len() && files.entries@[fi].path@ =~= q;
                    assert(ws.contains(files.entries@[fi].path@));
                    let a2 = choose|a2: int|
                        0 <= a2 < nc.entries@.len() && (#[trigger] nc.entries@[a2])@.path
                            =~= files.entries@[fi].path@;
                    assert(nc.entries@[a2].path@ =~= q);
                }
                // scanned regular files owned by this chunk's groups were all
                // unplaced before, hence wanted and in the new chunk
                assert forall|gi2: int, k3: int|
                    0 <= gi2 < plan@[c as int]@.len() && 0 <= k3 < gpaths(
                        plan@[c as int]@[gi2],
                    ).len() && scanned_file(
                        *files,
                        #[trigger] gpaths(plan@[c as int]@[gi2])[k3],
                    ) implies in_path_list(want@, gpaths(plan@[c as int]@[gi2])[k3]) by {
                    let p = gpaths(plan@[c as int]@[gi2])[k3];
                    assert(in_path_list(placed@, p));
                    if in_path_list(placedstart, p) {
                        lemma_file_not_preplaced(*files, plan@, c as int, gi2, k3, placedstart);
                    }
                }
                assert forall|c2: int, gi2: int, k3: int, k4: int|
                    0 <= c2 < c + 1 && 0 <= gi2 < plan@[c2]@.len() && 0 <= k3 < gpaths(
                        plan@[c2]@[gi2],
                    ).len() && 0 <= k4 < gpaths(plan@[c2]@[gi2]).len() && scanned_file(
                        *files,
                        #[trigger] gpaths(plan@[c2]@[gi2])[k3],
                    ) && scanned_file(*files, #[trigger] gpaths(plan@[c2]@[gi2])[k4])
                        implies pair_in_one_chunk(
                    chunks@,
                    gpaths(plan@[c2]@[gi2])[k3],
                    gpaths(plan@[c2]@[gi2])[k4],
                ) by {
                    if c2 == c {
                        assert(in_path_list(want@, gpaths(plan@[c2]@[gi2])[k3]));
                        assert(in_path_list(want@, gpaths(plan@[c2]@[gi2])[k4]));
                        assert(nc.has_path(gpaths(plan@[c2]@[gi2])[k3]));
                        assert(nc.has_path(gpaths(plan@[c2]@[gi2])[k4]));
                        assert(chunks@[chunks@.len() - 1].has_path(gpaths(plan@[c2]@[gi2])[k3]));
                    } else {
                        let j = choose|j: int|
                            0 <= j < chunksprev.len() && (#[trigger] chunksprev[j]).has_path(
                                gpaths(plan@[c2]@[gi2])[k3],
                            ) && chunksprev[j].has_path(gpaths(plan@[c2]@[gi2])[k4]);
                        assert(chunks@[j] == chunksprev[j]);
                        assert(chunks@[j].has_path(gpaths(plan@[c2]@[gi2])[k3]));
                    }
                }
                // placed now matches the union of all chunks
                assert forall|q: Seq<u8>| #[trigger] in_path_list(placed@, q) implies chunks_has(
                    chunks@,
                    q,
                ) by {
                    if in_path_list(placedstart, q) {
                        assert(chunks_has(chunksprev, q));
                        let j = choose|j: int|
                            0 <= j < chunksprev.len() && (#[trigger] chunksprev[j]).has_path(q);
                        assert(chunks@[j].has_path(q));
                    } else {
                        assert(in_path_list(want@, q));
                        assert(nc.has_path(q));
                    }
                }
                assert forall|q: Seq<u8>| chunks_has(chunks@, q) implies #[trigger] in_path_list(
                    placed@,
                    q,
                ) by {
                    if chunks_has(chunksprev, q) {
                        assert(in_path_list(placedstart, q));
                    } else {
                        assert(nc.has_path(q));
                        assert(in_path_list(want@, q));
                    }
                }
                // chunks stay pairwise disjoint
                assert forall|j1: int, j2: int, p: Seq<u8>|
                    0 <= j1 < j2 < chunks@.len() implies !(#[trigger] chunks@[j1].has_path(p)
                        && #[trigger] chunks@[j2].has_path(p)) by {
                    if j2 == chunks@.len() - 1 {
                        if chunks@[j1].has_path(p) && chunks@[j2].has_path(p) {
                            assert(chunksprev[j1].has_path(p));
                            assert(chunks_has(chunksprev, p));
                            assert(in_path_list(placedstart, p));
                            assert(in_path_list(want@, p));
                            let a = choose|a: int| 0 <= a < want@.len() && want@[a]@ =~= p;
                            assert(!in_path_list(placedstart, want@[a]@));
                            assert(false);
                        }
                    } else {
                        assert(chunks@[j1] == chunksprev[j1]);
                        assert(chunks@[j2] == chunksprev[j2]);
                    }
                }
                // directory-completeness
                assert forall|j: int, i2: int, d: Seq<u8>|
                    0 <= j < chunks@.len() && 0 <= i2 < chunks@[j].entries@.len()
                        && #[trigger] is_ancestor(d, chunks@[j].entries@[i2]@.path) implies exists|
                    j2: int,
                |
                    0 <= j2 <= j && (#[trigger] chunks@[j2]).has_path(d) by {
                    if j < chunks@.len() - 1 {
                        assert(chunks@[j] == chunksprev[j]);
                        let j2 = choose|j2: int|
                            0 <= j2 <= j && (#[trigger] chunksprev[j2]).has_path(d);
                        assert(chunks@[j2].has_path(d));
                    } else {
                        let q = chunks@[j].entries@[i2]@.path;
                        assert(nc.has_path(q)) by {
                            assert(nc.entries@[i2].path@ =~= q);
                        }
                        assert(in_path_list(want@, q));
                        let a = choose|a: int| 0 <= a < want@.len() && want@[a]@ =~= q;
                        assert(is_ancestor(d, want@[a]@));
                        assert(in_path_list(placed@, d));
                        if in_path_list(placedstart, d) {
                            assert(chunks_has(chunksprev, d));
                            let j2 = choose|j2: int|
                                0 <= j2 < chunksprev.len() && (#[trigger] chunksprev[j2]).has_path(
                                    d,
                                );
                            assert(chunks@[j2].has_path(d));
                        } else {
                            assert(in_path_list(want@, d));
                            assert(nc.has_path(d));
                            assert(chunks@[j].has_path(d));
                        }
                    }
                }
                // the budget claim for the new chunk
                assert(nc.weight() == ww);
                assert(groups@.take(groups@.len() as int) =~= groups@);
                assert(nc.weight() <= gws(*files, groups@));
                if nc.components@.len() > 1 && (c as int) < plan@.len() - 1 {
                    assert(nc.components@.len() == plan@[c as int]@.len());
                    lemma_gws_sizes(*files, groups@);
                    assert(nc.weight() <= max_chunk_bytes);
                }
                assert forall|j: int|
                    0 <= j < chunks@.len() && (#[trigger] chunks@[j]).weight()
                        > max_chunk_bytes implies (chunks@[j].components@.len() == 1 || (j
                        == chunks@.len() - 1 && c + 1 >= plan@.len())) by {
                    if j < chunks@.len() - 1 {
                        assert(chunks@[j] == chunksprev[j]);
                    }
                }
                // the carried per-chunk shape facts
                assert forall|j: int, a: int, b: int|
                    0 <= j < chunks@.len() && 0 <= a < b < chunks@[j].entries@.len() implies
                    lex_lt(
                    (#[trigger] chunks@[j].entries@[a])@.path,
                    (#[trigger] chunks@[j].entries@[b])@.path,
                ) by {
                    if j < chunks@.len() - 1 {
                        assert(chunks@[j] == chunksprev[j]);
                        assert(chunksprev[j].entries@[a] == chunks@[j].entries@[a]);
                    }
                }
                assert forall|j: int, i2: int|
                    0 <= j < chunks@.len() && 0 <= i2 < chunks@[j].entries@.len() implies exists|
                    fi: int,
                |
                    0 <= fi < files.entries@.len() && (#[trigger] chunks@[j].entries@[i2])@
                        =~= files.entries@[fi]@ by {
                    if j < chunks@.len() - 1 {
                        assert(chunks@[j] == chunksprev[j]);
                        let fi = choose|fi: int|
                            0 <= fi < files.entries@.len() && (
                            #[trigger] chunksprev[j].entries@[i2])@ =~= files.entries@[fi]@;
                        assert(chunks@[j].entries@[i2]@ =~= files.entries@[fi]@);
                    } else {
                        let fi = choose|fi: int|
                            0 <= fi < files.entries@.len() && (#[trigger] nc.entries@[i2])@
                                =~= files.entries@[fi]@;
                        assert(chunks@[j].entries@[i2]@ =~= files.entries@[fi]@);
                    }
                }
            }
            c = c + 1;
        } else {
            proof {
                // no group of this chunk owns a scanned regular file: any
                // such path would have been wanted, and nothing was
                assert forall|gi2: int, k3: int|
                    0 <= gi2 < plan@[c as int]@.len() && 0 <= k3 < gpaths(
                        plan@[c as int]@[gi2],
                    ).len() implies !scanned_file(
                    *files,
                    #[trigger] gpaths(plan@[c as int]@[gi2])[k3],
                ) by {
                    let p = gpaths(plan@[c as int]@[gi2])[k3];
                    if scanned_file(*files, p) {
                        assert(in_path_list(placed@, p));
                        if in_path_list(placedstart, p) {
                            lemma_file_not_preplaced(
                                *files,
                                plan@,
                                c as int,
                                gi2,
                                k3,
                                placedstart,
                            );
                        } else {
                            assert(in_path_list(want@, p));
                        }
                    }
                }
                // nothing was wanted, so nothing was placed either
                assert forall|q: Seq<u8>| in_path_list(want@, q) implies false by {
                    let a = choose|a: int| 0 <= a < want@.len() && want@[a]@ =~= q;
                    assert(files.has_path(want@[a]@));
                    let fi = files.index_of(q);
                    files.lemma_index_of(
                        q,
                        choose|i2: int|
                            0 <= i2 < files.entries@.len() && files.entries@[i2].path@ =~= q,
                    );
                    assert(ws.contains(q));
                    assert(exists|a2: int|
                        0 <= a2 < entries@.len() && (#[trigger] entries@[a2])@.path =~= q);
                }
            }
            c = c + 1;
        }
    }
    chunks
}

/// View of a chunk's entry models.
pub open spec fn entries_view(c: Chunk) -> Seq<crate::model::FileInfoModel> {
    c.entries@.map(|i: int, f: FileInfo| f@)
}


/// Packs the scanned tree into an ordered sequence of chunks.
///
/// Components are ordered by descending total size (ties by name) with the
/// residual group of unclaimed paths last, assigned greedily to chunks
/// under `budget`, and each chunk is made directory-complete. Every scanned
/// path lands in exactly one chunk; a chunk may exceed the byte budget only
/// when it holds a single component, or as the final forced-merge chunk.
pub fn pack(files: &FileMap, components: &Vec<Component>, budget: &Budget) -> (r: Result<
    Vec<Chunk>,
    PackError,
>)
    requires
        files.wf(),
        files.ancestor_closed(),
        comps_disjoint(components@),
    ensures
        r matches Err(PackError::BudgetTooSmall) <==> budget.max_chunks < 1,
        r matches Err(PackError::NoComponents) <==> (budget.max_chunks >= 1
            && files.entries@.len() == 0),
        r matches Ok(chunks) ==> {
            &&& forall|p: Seq<u8>| #[trigger] files.has_path(p) <==> chunks_has(chunks@, p)
            &&& forall|j1: int, j2: int, p: Seq<u8>|
                0 <= j1 < j2 < chunks@.len() ==> !(#[trigger] chunks@[j1].has_path(p)
                    && #[trigger] chunks@[j2].has_path(p))
            &&& forall|j: int| 0 <= j < chunks@.len() ==> (#[trigger] chunks@[j]).entries@.len() >= 1
            &&& forall|j: int, a: int, b: int|
                0 <= j < chunks@.len() && 0 <= a < b < chunks@[j].entries@.len() ==> lex_lt(
                    (#[trigger] chunks@[j].entries@[a])@.path,
                    (#[trigger] chunks@[j].entries@[b])@.path,
                )
            &&& forall|j: int, i: int|
                0 <= j < chunks@.len() && 0 <= i < chunks@[j].entries@.len() ==> exists|fi: int|
                    0 <= fi < files.entries@.len() && (#[trigger] chunks@[j].entries@[i])@
                        =~= files.entries@[fi]@
            &&& forall|j: int, i: int, d: Seq<u8>|
                0 <= j < chunks@.len() && 0 <= i < chunks@[j].entries@.len()
                    && #[trigger] is_ancestor(d, chunks@[j].entries@[i]@.path) ==> exists|j2: int|
                    0 <= j2 <= j && (#[trigger] chunks@[j2]).has_path(d)
            &&& chunks@.len() <= budget.max_chunks
            &&& forall|j: int|
                0 <= j < chunks@.len() && (#[trigger] chunks@[j]).weight()
                    > budget.max_chunk_bytes ==> (chunks@[j].components@.len() == 1 || j
                    == chunks@.len() - 1)
            // a component is never split: any two of its claimed paths that
            // are scanned regular files stand in the same chunk
            &&& forall|ci: int, k1: int, k2: int|
                0 <= ci < components@.len() && 0 <= k1 < components@[ci].paths@.len() && 0 <= k2
                    < components@[ci].paths@.len() && scanned_file(
                    *files,
                    (#[trigger] components@[ci].paths@[k1])@,
                ) && scanned_file(*files, (#[trigger] components@[ci].paths@[k2])@)
                    ==> pair_in_one_chunk(
                    chunks@,
                    components@[ci].paths@[k1]@,
                    components@[ci].paths@[k2]@,
                )
        },
{
    if budget.max_chunks < 1 {
        return Err(PackError::BudgetTooSmall);
    }
    if files.entries.len() == 0 {
        return Err(PackError::NoComponents);
    }
    let (cg, res) = build_groups(files, components);
    let ghost cgv = cg@;
    proof {
        // disjoint component claims give disjoint groups
        assert forall|i1: int, i2: int, k1: int, k2: int|
            0 <= i1 < cgv.len() && 0 <= i2 < cgv.len() && i1 != i2 && 0 <= k1 < gpaths(
                cgv[i1],
            ).len() && 0 <= k2 < gpaths(cgv[i2]).len() implies !(#[trigger] gpaths(
            cgv[i1],
        )[k1] =~= #[trigger] gpaths(cgv[i2])[k2]) by {
            assert(gpaths(cgv[i1])[k1] =~= cgv[i1].paths@[k1]@);
            assert(gpaths(cgv[i2])[k2] =~= cgv[i2].paths@[k2]@);
            let kk1 = choose|kk: int|
                0 <= kk < components@[i1].paths@.len() && (cgv[i1].paths@[k1])@
                    =~= components@[i1].paths@[kk]@;
            let kk2 = choose|kk: int|
                0 <= kk < components@[i2].paths@.len() && (cgv[i2].paths@[k2])@
                    =~= components@[i2].paths@[kk]@;
            if i1 < i2 {
                assert(!(components@[i1].paths@[kk1]@ =~= components@[i2].paths@[kk2]@));
            } else {
                assert(!(components@[i2].paths@[kk2]@ =~= components@[i1].paths@[kk1]@));
            }
        }
    }
    let ordered0 = order_groups(cg);
    proof {
        assert forall|k: int| 0 <= k < ordered0@.len() implies gwf(
            #[trigger] ordered0@[k],
            *files,
        ) by {
            assert(from_orig(cgv, ordered0@[k]));
            let j = choose|j: int| 0 <= j < cgv.len() && ordered0@[k] == cgv[j];
            assert(gwf(cgv[j], *files));
        }
    }
    let ghost o0 = ordered0@;
    let mut ordered = ordered0;
    let ghost has_res = res is Some;
    let ghost resg = if res is Some {
        res->Some_0
    } else {
        arbitrary()
    };
    match res {
        Some(rg) => {
            ordered.push(rg);
            proof {
                assert(ordered@ == o0.push(resg));
                assert forall|k: int| 0 <= k < ordered@.len() implies gwf(
                    #[trigger] ordered@[k],
                    *files,
                ) by {
                    if k < o0.len() {
                        assert(ordered@[k] == o0[k]);
                    } else {
                        assert(ordered@[k] == resg);
                    }
                }
                assert forall|p: Seq<u8>| #[trigger] ghas(ordered@, p) implies (ghas(o0, p)
                    || in_path_list(resg.paths@, p)) by {
                    let (gi, k) = choose|gi: int, k: int|
                        0 <= gi < ordered@.len() && 0 <= k < gpaths(ordered@[gi]).len() && gpaths(
                            ordered@[gi],
                        )[k] =~= p;
                    if gi < o0.len() {
                        assert(gpaths(o0[gi])[k] =~= p);
                        assert(ghas(o0, p));
                    } else {
                        assert(ordered@[gi] == resg);
                        assert(gpaths(resg)[k] =~= p);
                        assert(resg.paths@[k]@ =~= p);
                    }
                }
                // the residual owns no claimed path, so disjointness extends
                assert forall|i1: int, i2: int, k1: int, k2: int|
                    0 <= i1 < ordered@.len() && 0 <= i2 < ordered@.len() && i1 != i2 && 0 <= k1
                        < gpaths(ordered@[i1]).len() && 0 <= k2 < gpaths(
                        ordered@[i2],
                    ).len() implies !(#[trigger] gpaths(ordered@[i1])[k1] =~= #[trigger] gpaths(
                    ordered@[i2],
                )[k2]) by {
                    if i1 < o0.len() && i2 < o0.len() {
                        assert(ordered@[i1] == o0[i1]);
                        assert(ordered@[i2] == o0[i2]);
                    } else if i1 == o0.len() {
                        assert(ordered@[i1] == resg);
                        assert(ordered@[i2] == o0[i2]);
                        assert(from_orig(cgv, o0[i2]));
                        let j = choose|j: int| 0 <= j < cgv.len() && o0[i2] == cgv[j];
                        let kk = choose|kk: int|
                            0 <= kk < components@[j].paths@.len() && (cgv[j].paths@[k2])@
                                =~= components@[j].paths@[kk]@;
                        if gpaths(ordered@[i1])[k1] =~= gpaths(ordered@[i2])[k2] {
                            assert(resg.paths@[k1]@ =~= components@[j].paths@[kk]@);
                            assert(claimed(components@, resg.paths@[k1]@));
                            assert(!claimed(components@, resg.paths@[k1]@));
                        }
                    } else {
                        assert(ordered@[i2] == resg);
                        assert(ordered@[i1] == o0[i1]);
                        assert(from_orig(cgv, o0[i1]));
                        let j = choose|j: int| 0 <= j < cgv.len() && o0[i1] == cgv[j];
                        let kk = choose|kk: int|
                            0 <= kk < components@[j].paths@.len() && (cgv[j].paths@[k1])@
                                =~= components@[j].paths@[kk]@;
                        if gpaths(ordered@[i1])[k1] =~= gpaths(ordered@[i2])[k2] {
                            assert(resg.paths@[k2]@ =~= components@[j].paths@[kk]@);
                            assert(claimed(components@, resg.paths@[k2]@));
                            assert(!claimed(components@, resg.paths@[k2]@));
                        }
                    }
                }
                // each ordered group is still reachable after the push
                assert forall|j: int| 0 <= j < cgv.len() implies #[trigger] in_groups(
                    ordered@,
                    cgv[j],
                ) by {
                    assert(in_groups(o0, cgv[j]));
                    let k = choose|k: int| 0 <= k < o0.len() && o0[k] == cgv[j];
                    assert(ordered@[k] == cgv[j]);
                }
                assert forall|p: Seq<u8>| (ghas(o0, p) || in_path_list(resg.paths@, p)) implies
                    #[trigger] ghas(ordered@, p) by {
                    if ghas(o0, p) {
                        let (gi, k) = choose|gi: int, k: int|
                            0 <= gi < o0.len() && 0 <= k < gpaths(o0[gi]).len() && gpaths(
                                o0[gi],
                            )[k] =~= p;
                        assert(ordered@[gi] == o0[gi]);
                        assert(gpaths(ordered@[gi])[k] =~= p);
                    } else {
                        let k = choose|k: int|
                            0 <= k < resg.paths@.len() && resg.paths@[k]@ =~= p;
                        assert(ordered@[ordered@.len() - 1] == resg);
                        assert(gpaths(ordered@[ordered@.len() - 1])[k] =~= p);
                    }
                }
            }
        },
        None => {
            proof {
                assert forall|j: int| 0 <= j < cgv.len() implies #[trigger] in_groups(
                    ordered@,
                    cgv[j],
                ) by {
                    assert(in_groups(o0, cgv[j]));
                }
            }
        },
    }
    let ghost orderedv = ordered@;
    let plan = greedy_plan(ordered, budget.max_chunk_bytes, budget.max_chunks);
    proof {
        assert forall|c: int, k: int|
            0 <= c < plan@.len() && 0 <= k < plan@[c]@.len() implies gwf(
            #[trigger] plan@[c]@[k],
            *files,
        ) by {
            assert(from_orig(if has_res {
                o0.push(resg)
            } else {
                o0
            }, plan@[c]@[k]));
        }
    }
    let chunks = build_chunks(files, &plan, budget.max_chunk_bytes);
    proof {
        // every scanned path reaches some chunk
        assert forall|p: Seq<u8>| #[trigger] files.has_path(p) implies chunks_has(
            chunks@,
            p,
        ) by {
            let i = choose|i: int|
                0 <= i < files.entries@.len() && files.entries@[i].path@ =~= p;
            assert(ghas(cgv, files.entries@[i].path@) || (res matches Some(g) && in_path_list(
                g.paths@,
                files.entries@[i].path@,
            )));
            if ghas(cgv, files.entries@[i].path@) {
                assert(ghas(o0, p));
            }
            if has_res {
                assert(ghas(if has_res {
                    o0.push(resg)
                } else {
                    o0
                }, p));
            } else {
                assert(ghas(o0, p));
            }
            assert(ghas2(plan@, p));
        }
        // never-split: two scanned regular files claimed by one component
        // reach the same chunk
        assert forall|ci: int, k1: int, k2: int|
            0 <= ci < components@.len() && 0 <= k1 < components@[ci].paths@.len() && 0 <= k2
                < components@[ci].paths@.len() && scanned_file(
                *files,
                (#[trigger] components@[ci].paths@[k1])@,
            ) && scanned_file(*files, (#[trigger] components@[ci].paths@[k2])@)
                implies pair_in_one_chunk(
            chunks@,
            components@[ci].paths@[k1]@,
            components@[ci].paths@[k2]@,
        ) by {
            let p1 = components@[ci].paths@[k1]@;
            let p2 = components@[ci].paths@[k2]@;
            assert(files.has_path(p1));
            assert(files.has_path(p2));
            assert(in_path_list(cgv[ci].paths@, p1));
            assert(in_path_list(cgv[ci].paths@, p2));
            let a1 = choose|a: int| 0 <= a < cgv[ci].paths@.len() && cgv[ci].paths@[a]@ =~= p1;
            let a2 = choose|a: int| 0 <= a < cgv[ci].paths@.len() && cgv[ci].paths@[a]@ =~= p2;
            assert(in_groups(orderedv, cgv[ci]));
            let kk = choose|kk: int| 0 <= kk < orderedv.len() && orderedv[kk] == cgv[ci];
            assert(in_plan(plan@, orderedv[kk]));
            let (c2, gi2) = choose|c2: int, gi2: int|
                0 <= c2 < plan@.len() && 0 <= gi2 < plan@[c2]@.len() && plan@[c2]@[gi2]
                    == orderedv[kk];
            assert(plan@[c2]@[gi2] == cgv[ci]);
            assert(gpaths(plan@[c2]@[gi2])[a1] =~= p1);
            assert(gpaths(plan@[c2]@[gi2])[a2] =~= p2);
            assert(scanned_file(*files, gpaths(plan@[c2]@[gi2])[a1]));
            assert(scanned_file(*files, gpaths(plan@[c2]@[gi2])[a2]));
            assert(pair_in_one_chunk(
                chunks@,
                gpaths(plan@[c2]@[gi2])[a1],
                gpaths(plan@[c2]@[gi2])[a2],
            ));
            let j = choose|j: int|
                0 <= j < chunks@.len() && (#[trigger] chunks@[j]).has_path(
                    gpaths(plan@[c2]@[gi2])[a1],
                ) && chunks@[j].has_path(gpaths(plan@[c2]@[gi2])[a2]);
            assert(chunks@[j].has_path(p1));
            assert(chunks@[j].has_path(p2));
        }
    }
    Ok(chunks)
}

} // verus!