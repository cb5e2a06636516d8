//! The source archiver: choose the files that reproduce a package's
//! build, and pack them into a compressed archive.
//!
//! The caller reads the disk and hands in plain values: the manifest
//! files with their contents and the files found under the workspace.
//! The library locates the workspace and package roots, applies the
//! ignore engine, force-includes the manifest and lock files,
//! deduplicates by destination path with the first occurrence winning,
//! and packs the survivors. Only the packing itself is done by the
//! archive crates, behind trusted wrappers; a failure there is an
//! archive error, which is never retried.

use vstd::prelude::*;

use crate::bytes::spec_ends_with;
use crate::bytes::spec_starts_with;
use crate::errors::ClientError;
use crate::ignore::IgnoreSet;
use crate::ignore::spec_excluded;

verus! {

/// One file as a plain value: its path and its contents.
pub struct FileEntry {
    pub path: Vec<u8>,
    pub data: Vec<u8>,
}

/// The mathematical value of a [`FileEntry`].
pub struct FileEntryModel {
    pub path: Seq<u8>,
    pub data: Seq<u8>,
}

impl View for FileEntry {
    type V = FileEntryModel;

    open spec fn view(&self) -> FileEntryModel {
        FileEntryModel { path: self.path@, data: self.data@ }
    }
}

/// The views of a list of file entries.
pub open spec fn entry_views(v: Seq<FileEntry>) -> Seq<FileEntryModel> {
    v.map_values(|e: FileEntry| e@)
}

/// The text `Cargo.toml`.
pub open spec fn txt_manifest() -> Seq<u8> {
    seq![67u8, 97, 114, 103, 111, 46, 116, 111, 109, 108]
}

/// The text `Cargo.lock`.
pub open spec fn txt_lockfile() -> Seq<u8> {
    seq![67u8, 97, 114, 103, 111, 46, 108, 111, 99, 107]
}

/// Does the path's last segment equal `name`?
pub open spec fn spec_last_segment_is(p: Seq<u8>, name: Seq<u8>) -> bool {
    p == name || spec_ends_with(p, seq![47u8] + name)
}

/// Does the path's last segment equal `name`?
pub fn last_segment_is(p: &[u8], name: &[u8]) -> (r: bool)
    ensures
        r == spec_last_segment_is(p@, name@),
{
    if crate::bytes::bytes_eq(p, name) {
        return true;
    }
    let mut suffix: Vec<u8> = Vec::new();
    suffix.push(47u8);
    crate::bytes::extend_bytes(&mut suffix, name);
    proof {
        assert(suffix@ =~= seq![47u8] + name@);
    }
    crate::bytes::ends_with(p, suffix.as_slice())
}

/// Is this path a manifest file?
pub open spec fn spec_is_manifest(p: Seq<u8>) -> bool {
    spec_last_segment_is(p, txt_manifest())
}

/// The manifest files among a unit's source files, in order.
pub open spec fn spec_manifests_of(files: Seq<Seq<u8>>) -> Seq<Seq<u8>>
    decreases files.len(),
{
    if files.len() == 0 {
        Seq::empty()
    } else {
        (if spec_is_manifest(files[0]) {
            seq![files[0]]
        } else {
            Seq::<Seq<u8>>::empty()
        }) + spec_manifests_of(files.skip(1))
    }
}

/// The manifest files among a unit's source files.
pub fn manifest_files(files: &Vec<Vec<u8>>) -> (r: Vec<Vec<u8>>)
    ensures
        crate::bytes::views(r@) == spec_manifests_of(crate::bytes::views(files@)),
{
    let name: Vec<u8> = vec![67u8, 97, 114, 103, 111, 46, 116, 111, 109, 108];
    proof {
        assert(name@ =~= txt_manifest());
    }
    let ghost fv = crate::bytes::views(files@);
    let mut out: Vec<Vec<u8>> = Vec::new();
    let n = files.len();
    let mut i: usize = 0;
    proof {
        assert(fv.skip(0) =~~= fv);
        assert(crate::bytes::views(out@) + spec_manifests_of(fv) =~~= spec_manifests_of(fv));
    }
    while i < n
        invariant
            n == files.len(),
            0 <= i <= n,
            name@ == txt_manifest(),
            crate::bytes::views(files@) == fv,
            fv.len() == n,
            spec_manifests_of(fv) == crate::bytes::views(out@) + spec_manifests_of(
                fv.skip(i as int),
            ),
        decreases n - i,
    {
        proof {
            assert(fv.skip(i as int)[0] == fv[i as int]);
            assert(fv.skip(i as int).skip(1) =~~= fv.skip(i + 1));
        }
        if last_segment_is(files[i].as_slice(), name.as_slice()) {
            let c = crate::bytes::to_vec(files[i].as_slice());
            proof {
                assert(crate::bytes::views(out@.push(c)) =~~= crate::bytes::views(out@) + seq![c@]);
            }
            out.push(c);
            proof {
                assert(spec_manifests_of(fv) =~~= crate::bytes::views(out@) + spec_manifests_of(
                    fv.skip(i + 1),
                ));
            }
        } else {
            proof {
                assert(spec_manifests_of(fv) =~~= crate::bytes::views(out@) + spec_manifests_of(
                    fv.skip(i + 1),
                ));
            }
        }
        i = i + 1;
    }
    proof {
        assert(spec_manifests_of(fv.skip(n as int)) =~~= Seq::<Seq<u8>>::empty());
        assert(crate::bytes::views(out@) =~~= spec_manifests_of(fv));
    }
    out
}

/// The index of the last separator in the path, or `-1` when there is
/// none.
pub open spec fn spec_last_sep(p: Seq<u8>) -> int
    decreases p.len(),
{
    if p.len() == 0 {
        -1
    } else if p.last() == 47u8 {
        p.len() - 1
    } else {
        spec_last_sep(p.drop_last())
    }
}

/// The directory part of a path: everything before the last separator,
/// empty when there is none.
pub open spec fn spec_parent_dir(p: Seq<u8>) -> Seq<u8> {
    if spec_last_sep(p) < 0 {
        Seq::empty()
    } else {
        p.take(spec_last_sep(p))
    }
}

/// The last separator index is in bounds, points at a separator, and
/// nothing after it is one.
proof fn lemma_last_sep(p: Seq<u8>)
    ensures
        -1 <= spec_last_sep(p) < p.len(),
        spec_last_sep(p) >= 0 ==> p[spec_last_sep(p)] == 47u8,
        forall|k: int| spec_last_sep(p) < k < p.len() ==> p[k] != 47u8,
    decreases p.len(),
{
    if p.len() > 0 && p.last() != 47u8 {
        lemma_last_sep(p.drop_last());
        assert forall|k: int| spec_last_sep(p) < k < p.len() implies p[k] != 47u8 by {
            if k < p.len() - 1 {
                assert(p.drop_last()[k] == p[k]);
            }
        }
    }
}

/// The directory part of a path.
pub fn parent_dir(p: &[u8]) -> (r: Vec<u8>)
    ensures
        r@ == spec_parent_dir(p@),
{
    let n = p.len();
    let mut i: usize = n;
    while i > 0 && p[i - 1] != 47u8
        invariant
            0 <= i <= n,
            n == p.len(),
            forall|k: int| i <= k < n ==> p@[k] != 47u8,
        decreases i,
    {
        i = i - 1;
    }
    proof {
        lemma_last_sep(p@);
        if i == 0 {
            assert(spec_last_sep(p@) == -1) by {
                if spec_last_sep(p@) >= 0 {
                    assert(p@[spec_last_sep(p@)] == 47u8);
                }
            }
        } else {
            assert(p@[i - 1] == 47u8);
            assert(spec_last_sep(p@) == i - 1) by {
                if spec_last_sep(p@) > i - 1 {
                    assert(p@[spec_last_sep(p@)] != 47u8);
                    assert(p@[spec_last_sep(p@)] == 47u8);
                }
                if spec_last_sep(p@) < i - 1 {
                    assert(p@[i - 1int] != 47u8);
                }
            }
        }
    }
    if i == 0 {
        let empty: Vec<u8> = Vec::new();
        empty
    } else {
        crate::bytes::copy_range(p, 0, i - 1)
    }
}

/// How many segments a path has: one more than its separators.
pub open spec fn spec_seg_count(p: Seq<u8>) -> int {
    crate::ignore::spec_split(p, 47u8).len() as int
}

/// How many segments a path has.
pub fn seg_count(p: &[u8]) -> (r: usize)
    ensures
        r as int == spec_seg_count(p@),
{
    let parts = crate::ignore::split_bytes(p, 47u8);
    proof {
        assert(crate::bytes::views(parts@).len() == parts@.len());
    }
    parts.len()
}

/// The index of the first path with the fewest segments: the outermost
/// candidate root.
pub fn outermost_dir(dirs: &Vec<Vec<u8>>) -> (r: Option<usize>)
    ensures
        match r {
            Option::Some(i) => i < dirs.len() && (forall|j: int|
                0 <= j < dirs.len() ==> spec_seg_count(dirs@[i as int]@) <= spec_seg_count(
                    (#[trigger] dirs@[j])@,
                )) && (forall|j: int|
                0 <= j < i ==> spec_seg_count((#[trigger] dirs@[j])@) > spec_seg_count(
                    dirs@[i as int]@,
                )),
            Option::None => dirs.len() == 0,
        },
{
    if dirs.len() == 0 {
        return Option::None;
    }
    let mut best: usize = 0;
    let mut best_count = seg_count(dirs[0].as_slice());
    let mut i: usize = 1;
    while i < dirs.len()
        invariant
            dirs.len() >= 1,
            0 <= best < i <= dirs.len(),
            best_count as int == spec_seg_count(dirs@[best as int]@),
            forall|j: int|
                0 <= j < i ==> spec_seg_count(dirs@[best as int]@) <= spec_seg_count(
                    (#[trigger] dirs@[j])@,
                ),
            forall|j: int|
                0 <= j < best ==> spec_seg_count((#[trigger] dirs@[j])@) > spec_seg_count(
                    dirs@[best as int]@,
                ),
        decreases dirs.len() - i,
    {
        let c = seg_count(dirs[i].as_slice());
        if c < best_count {
            best = i;
            best_count = c;
        }
        i = i + 1;
    }
    Option::Some(best)
}

/// The index of the first path with the fewest segments, at the
/// specification level.
pub open spec fn spec_outermost(dirs: Seq<Seq<u8>>) -> int
    decreases dirs.len(),
{
    if dirs.len() <= 1 {
        0
    } else {
        let rest = 1 + spec_outermost(dirs.skip(1));
        if spec_seg_count(dirs[0]) <= spec_seg_count(dirs[rest]) {
            0
        } else {
            rest
        }
    }
}

/// The specification-level outermost index is in bounds, minimal, and
/// first among the minima.
pub proof fn lemma_outermost_props(dirs: Seq<Seq<u8>>)
    requires
        dirs.len() >= 1,
    ensures
        0 <= spec_outermost(dirs) < dirs.len(),
        forall|j: int|
            0 <= j < dirs.len() ==> spec_seg_count(dirs[spec_outermost(dirs)]) <= spec_seg_count(
                #[trigger] dirs[j],
            ),
        forall|j: int|
            0 <= j < spec_outermost(dirs) ==> spec_seg_count(#[trigger] dirs[j])
                > spec_seg_count(dirs[spec_outermost(dirs)]),
    decreases dirs.len(),
{
    if dirs.len() > 1 {
        lemma_outermost_props(dirs.skip(1));
        let rest = 1 + spec_outermost(dirs.skip(1));
        assert(dirs.skip(1)[rest - 1] == dirs[rest]);
        assert forall|j: int|
            0 <= j < dirs.len() implies spec_seg_count(dirs[spec_outermost(dirs)])
            <= spec_seg_count(#[trigger] dirs[j]) by {
            if j > 0 {
                assert(dirs.skip(1)[j - 1] == dirs[j]);
            }
        }
        assert forall|j: int|
            0 <= j < spec_outermost(dirs) implies spec_seg_count(#[trigger] dirs[j])
            > spec_seg_count(dirs[spec_outermost(dirs)]) by {
            if j > 0 {
                assert(dirs.skip(1)[j - 1] == dirs[j]);
            }
        }
    }
}

/// The directories of the manifest files, in order.
pub open spec fn spec_manifest_dirs(manifests: Seq<FileEntryModel>) -> Seq<Seq<u8>> {
    manifests.map_values(|m: FileEntryModel| spec_parent_dir(m.path))
}

/// The text `name = "`.
pub open spec fn txt_name_key() -> Seq<u8> {
    seq![110u8, 97, 109, 101, 32, 61, 32, 34]
}

/// The needle that identifies a package's own manifest: `name = "`,
/// the package name, and the closing quote.
pub open spec fn spec_name_needle(pkg: Seq<u8>) -> Seq<u8> {
    txt_name_key() + pkg + seq![34u8]
}

/// The needle that identifies a package's own manifest.
pub fn name_needle(pkg: &[u8]) -> (r: Vec<u8>)
    ensures
        r@ == spec_name_needle(pkg@),
{
    let mut out: Vec<u8> = vec![110u8, 97, 109, 101, 32, 61, 32, 34];
    proof {
        assert(out@ =~= txt_name_key());
    }
    crate::bytes::extend_bytes(&mut out, pkg);
    out.push(34u8);
    proof {
        assert(out@ =~= spec_name_needle(pkg@));
    }
    out
}

/// The directory of the first manifest whose content declares the
/// package's name, if any.
pub fn find_package_root(manifests: &Vec<FileEntry>, pkg: &[u8]) -> (r: Option<Vec<u8>>)
    ensures
        match r {
            Option::Some(d) => exists|i: int|
                0 <= i < manifests.len() && crate::bytes::spec_contains(
                    (#[trigger] manifests@[i])@.data,
                    spec_name_needle(pkg@),
                ) && d@ == spec_parent_dir(manifests@[i]@.path),
            Option::None => forall|i: int|
                0 <= i < manifests.len() ==> !crate::bytes::spec_contains(
                    (#[trigger] manifests@[i])@.data,
                    spec_name_needle(pkg@),
                ),
        },
{
    let needle = name_needle(pkg);
    let n = manifests.len();
    let mut i: usize = 0;
    while i < n
        invariant
            n == manifests.len(),
            0 <= i <= n,
            needle@ == spec_name_needle(pkg@),
            forall|k: int|
                0 <= k < i ==> !crate::bytes::spec_contains(
                    (#[trigger] manifests@[k])@.data,
                    spec_name_needle(pkg@),
                ),
        decreases n - i,
    {
        if crate::bytes::contains_bytes(manifests[i].data.as_slice(), needle.as_slice()) {
            let d = parent_dir(manifests[i].path.as_slice());
            return Option::Some(d);
        }
        i = i + 1;
    }
    Option::None
}

/// Is this relative path always kept, whatever the patterns say?
///
/// The manifest and the lock file are force-included: a build cannot
/// be reproduced without them.
pub open spec fn spec_forced(rel: Seq<u8>) -> bool {
    spec_last_segment_is(rel, txt_manifest()) || spec_last_segment_is(rel, txt_lockfile())
}

/// The path relative to the root, if the path lies under it.
pub open spec fn spec_rel_of(path: Seq<u8>, root: Seq<u8>) -> Option<Seq<u8>> {
    if root.len() == 0 {
        Option::Some(path)
    } else if spec_starts_with(path, root + seq![47u8]) && path.len() > root.len() + 1 {
        Option::Some(path.skip(root.len() as int + 1))
    } else {
        Option::None
    }
}

/// The path relative to the root, if the path lies under it.
pub fn rel_of(path: &[u8], root: &[u8]) -> (r: Option<Vec<u8>>)
    ensures
        match (r, spec_rel_of(path@, root@)) {
            (Option::Some(v), Option::Some(w)) => v@ == w,
            (Option::None, Option::None) => true,
            _ => false,
        },
{
    if root.len() == 0 {
        return Option::Some(crate::bytes::to_vec(path));
    }
    let mut prefix = crate::bytes::to_vec(root);
    prefix.push(47u8);
    proof {
        assert(prefix@ =~= root@ + seq![47u8]);
    }
    if crate::bytes::starts_with(path, prefix.as_slice()) && path.len() > root.len() + 1 {
        let v = crate::bytes::copy_range(path, root.len() + 1, path.len());
        proof {
            assert(v@ =~= path@.skip(root@.len() as int + 1));
        }
        Option::Some(v)
    } else {
        Option::None
    }
}

/// The staged file set: each workspace file that lies under the root
/// and is either force-included or not excluded, under its relative
/// path, first occurrence of each relative path winning.
pub open spec fn spec_select(
    entries: Seq<FileEntryModel>,
    root: Seq<u8>,
    patterns: Seq<Seq<u8>>,
    seen: Set<Seq<u8>>,
) -> Seq<FileEntryModel>
    decreases entries.len(),
{
    if entries.len() == 0 {
        Seq::empty()
    } else {
        match spec_rel_of(entries[0].path, root) {
            Option::Some(rel) => {
                if (spec_forced(rel) || !spec_excluded(patterns, rel)) && !seen.contains(rel) {
                    seq![FileEntryModel { path: rel, data: entries[0].data }] + spec_select(
                        entries.skip(1),
                        root,
                        patterns,
                        seen.insert(rel),
                    )
                } else {
                    spec_select(entries.skip(1), root, patterns, seen)
                }
            },
            Option::None => spec_select(entries.skip(1), root, patterns, seen),
        }
    }
}

/// Is this relative path already among the selected entries?
fn already_selected(out: &Vec<FileEntry>, rel: &[u8]) -> (r: bool)
    ensures
        r == exists|k: int| 0 <= k < out.len() && (#[trigger] out@[k])@.path == rel@,
{
    let n = out.len();
    let mut k: usize = 0;
    while k < n
        invariant
            n == out.len(),
            0 <= k <= n,
            forall|m: int| 0 <= m < k ==> (#[trigger] out@[m])@.path != rel@,
        decreases n - k,
    {
        if crate::bytes::bytes_eq(out[k].path.as_slice(), rel) {
            assert(out@[k as int]@.path == rel@);
            return true;
        }
        k = k + 1;
    }
    false
}

/// Stage the file set of one archive: apply the ignore engine under
/// the root, force-include manifest and lock files, and deduplicate by
/// relative path, first occurrence winning.
pub fn select_files(entries: &Vec<FileEntry>, root: &[u8], ignore: &IgnoreSet) -> (r: Vec<
    FileEntry,
>)
    ensures
        entry_views(r@) == spec_select(entry_views(entries@), root@, ignore@, Set::empty()),
{
    let ghost ev = entry_views(entries@);
    let mut out: Vec<FileEntry> = Vec::new();
    let ghost mut seen: Set<Seq<u8>> = Set::empty();
    let n = entries.len();
    let mut i: usize = 0;
    proof {
        assert(ev.skip(0) =~~= ev);
        assert(entry_views(out@) + spec_select(ev, root@, ignore@, seen) =~~= spec_select(
            ev,
            root@,
            ignore@,
            seen,
        ));
    }
    loop
        invariant
            n == entries.len(),
            0 <= i <= n,
            entry_views(entries@) == ev,
            ev.len() == n,
            spec_select(ev, root@, ignore@, Set::empty()) == entry_views(out@) + spec_select(
                ev.skip(i as int),
                root@,
                ignore@,
                seen,
            ),
            seen =~= Set::new(
                |rel: Seq<u8>|
                    exists|k: int| 0 <= k < out.len() && (#[trigger] out@[k])@.path == rel,
            ),
        ensures
            i == n,
            spec_select(ev, root@, ignore@, Set::empty()) == entry_views(out@) + spec_select(
                ev.skip(n as int),
                root@,
                ignore@,
                seen,
            ),
        decreases n - i,
    {
        if i >= n {
            break ;
        }
        proof {
            assert(ev.skip(i as int)[0] == ev[i as int]);
            assert(ev.skip(i as int).skip(1) =~~= ev.skip(i + 1));
        }
        match rel_of(entries[i].path.as_slice(), root) {
            Option::Some(rel) => {
                let forced = {
                    let man: Vec<u8> = vec![67u8, 97, 114, 103, 111, 46, 116, 111, 109, 108];
                    let lock: Vec<u8> = vec![67u8, 97, 114, 103, 111, 46, 108, 111, 99, 107];
                    proof {
                        assert(man@ =~= txt_manifest());
                        assert(lock@ =~= txt_lockfile());
                    }
                    last_segment_is(rel.as_slice(), man.as_slice()) || last_segment_is(
                        rel.as_slice(),
                        lock.as_slice(),
                    )
                };
                let keep = forced || !ignore.is_excluded(rel.as_slice());
                let dup = already_selected(&out, rel.as_slice());
                proof {
                    assert(seen.contains(rel@) == dup);
                }
                if keep && !dup {
                    let data = crate::bytes::to_vec(entries[i].data.as_slice());
                    let ghost prev = entry_views(out@);
                    let ghost old_out = out@;
                    let e = FileEntry { path: rel, data };
                    proof {
                        assert(entry_views(out@.push(e)) =~~= prev + seq![e@]);
                    }
                    out.push(e);
                    proof {
                        let new_seen = Set::new(
                            |r2: Seq<u8>|
                                exists|k: int|
                                    0 <= k < out.len() && (#[trigger] out@[k])@.path == r2,
                        );
                        assert(out@ == old_out.push(e));
                        assert(new_seen =~= seen.insert(e@.path)) by {
                            assert forall|r2: Seq<u8>| #[trigger] new_seen.contains(r2) implies
                                seen.insert(e@.path).contains(r2) by {
                                let k = choose|k: int|
                                    0 <= k < out.len() && (#[trigger] out@[k])@.path == r2;
                                if k < out.len() - 1 {
                                    assert(old_out[k] == out@[k]);
                                    assert(exists|m: int|
                                        0 <= m < old_out.len() && (#[trigger] old_out[m])@.path
                                            == r2);
                                } else {
                                    assert(out@[k] == e);
                                }
                            }
                            assert forall|r2: Seq<u8>| seen.insert(e@.path).contains(r2) implies
                                #[trigger] new_seen.contains(r2) by {
                                if r2 == e@.path {
                                    assert(out@[out.len() - 1]@.path == r2);
                                } else {
                                    let k = choose|k: int|
                                        0 <= k < old_out.len() && (#[trigger] old_out[k])@.path
                                            == r2;
                                    assert(out@[k] == old_out[k]);
                                    assert(out@[k]@.path == r2);
                                }
                            }
                        }
                        seen = seen.insert(e@.path);
                        assert(spec_select(ev, root@, ignore@, Set::empty()) =~~= entry_views(out@)
                            + spec_select(ev.skip(i + 1), root@, ignore@, seen));
                    }
                } else {
                    proof {
                        assert(spec_select(ev, root@, ignore@, Set::empty()) =~~= entry_views(out@)
                            + spec_select(ev.skip(i + 1), root@, ignore@, seen));
                    }
                }
            },
            Option::None => {
                proof {
                    assert(spec_select(ev, root@, ignore@, Set::empty()) =~~= entry_views(out@)
                        + spec_select(ev.skip(i + 1), root@, ignore@, seen));
                }
            },
        }
        i = i + 1;
    }
    proof {
        assert(spec_select(ev.skip(n as int), root@, ignore@, seen) =~~= Seq::<
            FileEntryModel,
        >::empty());
        assert(entry_views(out@) =~~= spec_select(ev, root@, ignore@, Set::empty()));
    }
    out
}


/// An archive crate's failure.
#[verifier::external_type_specification]
#[verifier::external_body]
pub struct ExIoError(std::io::Error);

/// The archive builder and the gzip stream it compresses into,
/// held behind an opaque struct: Verus does not accept the builder's
/// generic type in a declaration.
#[verifier::external_body]
pub struct ArchiveWriter {
    inner: tar::Builder<flate2::write::GzEncoder<Vec<u8>>>,
}

/// The entries appended to an archive writer so far, in order.
pub uninterp spec fn writer_entries(w: ArchiveWriter) -> Seq<FileEntryModel>;

/// Does tar accept an entry under this path? Into an in-memory sink
/// nothing else can fail, so acceptance depends on the path alone.
pub uninterp spec fn append_accepts(rel: Seq<u8>) -> bool;

/// Does the packing of these entries flush successfully?
pub uninterp spec fn targz_ok(entries: Seq<FileEntryModel>) -> bool;

/// The compressed archive bytes of these entries.
///
/// The result depends on the entries alone: flate2 fixes every gzip
/// header field (zero mtime, operating-system byte 255 — its source
/// keeps streams reproducible across platforms), tar's GNU header is
/// zeroed except for the size, mode, path and checksum written here,
/// and the deflate stream at the fixed default level is a pure
/// function of its input.
pub uninterp spec fn targz_of(entries: Seq<FileEntryModel>) -> Seq<u8>;

/// Is this path stored byte-for-byte on every platform? tar rewrites
/// backslashes on one platform, so paths holding them are left out of
/// every claim over the names above.
pub open spec fn spec_portable_path(p: Seq<u8>) -> bool {
    forall|i: int| 0 <= i < p.len() ==> p[i] != 92u8
}

/// Is every staged path stored byte-for-byte on every platform?
pub open spec fn spec_all_portable(entries: Seq<FileEntryModel>) -> bool {
    forall|i: int| 0 <= i < entries.len() ==> spec_portable_path((#[trigger] entries[i]).path)
}

/// Relies on tar's `Builder::new` over flate2's `GzEncoder::new` with
/// `Compression::default`: a fresh archive builder, holding no entry,
/// whose output is gzip-compressed into an in-memory buffer.
#[verifier::external_body]
fn new_archive_writer() -> (r: ArchiveWriter)
    ensures
        writer_entries(r) == Seq::<FileEntryModel>::empty(),
{
    let enc = flate2::write::GzEncoder::new(Vec::new(), flate2::Compression::default());
    ArchiveWriter { inner: tar::Builder::new(enc) }
}

/// Relies on tar's `Header::new_gnu`, `set_size`, `set_mode` and
/// `Builder::append_data`: appends one entry under the given path with
/// the given bytes, size and mode recorded and checksum filled in.
/// Acceptance is decided by the path; an accepted entry is recorded.
#[verifier::external_body]
fn archive_append(w: &mut ArchiveWriter, rel: &[u8], data: &[u8]) -> (r: Result<
    (),
    std::io::Error,
>)
    ensures
        spec_portable_path(rel@) ==> (r is Ok <==> append_accepts(rel@)),
        (r is Ok && spec_portable_path(rel@)) ==> writer_entries(*final(w)) == writer_entries(
            *old(w),
        ).push(FileEntryModel { path: rel@, data: data@ }),
{
    let mut h = tar::Header::new_gnu();
    h.set_size(data.len() as u64);
    h.set_mode(0o644);
    let name = String::from_utf8_lossy(rel).into_owned();
    w.inner.append_data(&mut h, std::path::Path::new(&name), data)
}

/// Relies on tar's `Builder::into_inner` and flate2's
/// `GzEncoder::finish`: writes the archive's closing blocks, flushes
/// the gzip stream, and hands back the compressed bytes of the
/// recorded entries. Into an in-memory sink, the outcome depends on
/// the recorded entries alone.
#[verifier::external_body]
fn archive_finish(w: ArchiveWriter) -> (r: Result<Vec<u8>, std::io::Error>)
    ensures
        r is Ok <==> targz_ok(writer_entries(w)),
        r matches Ok(b) ==> b@ == targz_of(writer_entries(w)),
{
    let enc = w.inner.into_inner()?;
    enc.finish()
}

/// Relies on the standard library's `Display` for `std::io::Error`:
/// the error's text.
#[verifier::external_body]
fn io_error_text(e: &std::io::Error) -> Vec<u8> {
    format!("{}", e).into_bytes()
}

/// Did every staged entry get accepted and the stream flush? This is
/// exactly when the packing succeeds.
pub open spec fn spec_pack_ok(entries: Seq<FileEntryModel>) -> bool {
    (forall|i: int| 0 <= i < entries.len() ==> append_accepts((#[trigger] entries[i]).path))
        && targz_ok(entries)
}

/// Pack the staged files into a compressed tar archive, each under its
/// relative path.
///
/// The archive crates do the packing; the library fixes what goes in
/// and in what order. For a portable staging set the result is pinned:
/// packing succeeds exactly when tar accepts every path and the stream
/// flushes, and the bytes returned are the packing of exactly these
/// entries. Any failure surfaces as an archive error, never retried.
pub fn compress_archive(entries: &Vec<FileEntry>) -> (r: Result<Vec<u8>, ClientError>)
    ensures
        r is Err ==> r->Err_0@ is Archive,
        spec_all_portable(entry_views(entries@)) ==> (r is Ok <==> spec_pack_ok(
            entry_views(entries@),
        )),
        (spec_all_portable(entry_views(entries@)) && r is Ok) ==> r->Ok_0@ == targz_of(
            entry_views(entries@),
        ),
{
    let ghost ev = entry_views(entries@);
    let mut b = new_archive_writer();
    let n = entries.len();
    let mut i: usize = 0;
    proof {
        assert(ev.take(0) =~~= Seq::<FileEntryModel>::empty());
    }
    while i < n
        invariant
            n == entries.len(),
            0 <= i <= n,
            entry_views(entries@) == ev,
            ev.len() == n,
            spec_all_portable(ev) ==> writer_entries(b) == ev.take(i as int),
            spec_all_portable(ev) ==> forall|k: int|
                0 <= k < i ==> append_accepts((#[trigger] ev[k]).path),
        decreases n - i,
    {
        let ghost before = b;
        match archive_append(&mut b, entries[i].path.as_slice(), entries[i].data.as_slice()) {
            Result::Ok(()) => {
                proof {
                    if spec_all_portable(ev) {
                        assert(spec_portable_path(ev[i as int].path));
                        assert(ev[i as int] == (FileEntryModel {
                            path: entries@[i as int]@.path,
                            data: entries@[i as int]@.data,
                        }));
                        assert(ev.take(i as int).push(ev[i as int]) =~~= ev.take(i + 1));
                    }
                }
            },
            Result::Err(e) => {
                proof {
                    if spec_all_portable(ev) {
                        assert(spec_portable_path(ev[i as int].path));
                        assert(!append_accepts(ev[i as int].path));
                        assert(!spec_pack_ok(ev));
                    }
                }
                return Result::Err(ClientError::Archive { detail: io_error_text(&e) });
            },
        }
        i = i + 1;
    }
    proof {
        assert(ev.take(n as int) =~~= ev);
    }
    match archive_finish(b) {
        Result::Ok(bytes) => {
            proof {
                if spec_all_portable(ev) {
                    assert(bytes@ == targz_of(ev));
                    assert(spec_pack_ok(ev));
                }
            }
            Result::Ok(bytes)
        },
        Result::Err(e) => {
            proof {
                if spec_all_portable(ev) {
                    assert(!targz_ok(ev));
                    assert(!spec_pack_ok(ev));
                }
            }
            Result::Err(ClientError::Archive { detail: io_error_text(&e) })
        },
    }
}

/// The pattern set one run of the archiver matches against: the
/// built-in defaults, then the workspace ignore file's lines.
pub open spec fn spec_build_patterns(ignore_file: Option<Seq<u8>>) -> Seq<Seq<u8>> {
    match ignore_file {
        Option::Some(c) => crate::ignore::spec_default_patterns() + crate::ignore::spec_ignore_lines(c),
        Option::None => crate::ignore::spec_default_patterns(),
    }
}

/// The workspace root one run of the archiver stages under: the
/// outermost manifest directory.
pub open spec fn spec_build_root(manifests: Seq<FileEntryModel>) -> Seq<u8> {
    let dirs = spec_manifest_dirs(manifests);
    dirs[spec_outermost(dirs)]
}

/// The staged file set of one run of the archiver.
pub open spec fn spec_build_selection(
    manifests: Seq<FileEntryModel>,
    ignore_file: Option<Seq<u8>>,
    files: Seq<FileEntryModel>,
) -> Seq<FileEntryModel> {
    spec_select(files, spec_build_root(manifests), spec_build_patterns(ignore_file), Set::empty())
}

/// Produce the compressed source archive for one package.
///
/// The workspace root is the outermost manifest directory; the package
/// root is the directory of the manifest that declares the package's
/// name; failing to locate either is an archive error. The staged set
/// is [`select_files`] of the workspace files under that root, and for
/// a portable staging set the returned bytes are exactly its packing.
pub fn build_archive(
    package_name: &[u8],
    manifests: &Vec<FileEntry>,
    ignore_file: &Option<Vec<u8>>,
    workspace_files: &Vec<FileEntry>,
) -> (r: Result<Vec<u8>, ClientError>)
    ensures
        r is Err ==> r->Err_0@ is Archive,
        manifests.len() == 0 ==> r is Err,
        (forall|i: int|
            0 <= i < manifests.len() ==> !crate::bytes::spec_contains(
                (#[trigger] manifests@[i])@.data,
                spec_name_needle(package_name@),
            )) ==> r is Err,
        ({
            let staged = spec_build_selection(
                entry_views(manifests@),
                match ignore_file {
                    Option::Some(c) => Option::Some(c@),
                    Option::None => Option::None,
                },
                entry_views(workspace_files@),
            );
            &&& (spec_all_portable(staged) && r is Ok) ==> r->Ok_0@ == targz_of(staged)
            &&& (spec_all_portable(staged) && manifests.len() > 0 && (exists|i: int|
                0 <= i < manifests.len() && crate::bytes::spec_contains(
                    (#[trigger] manifests@[i])@.data,
                    spec_name_needle(package_name@),
                ))) ==> (r is Ok <==> spec_pack_ok(staged))
        }),
{
    let ghost mv = entry_views(manifests@);
    let mut dirs: Vec<Vec<u8>> = Vec::new();
    let n = manifests.len();
    let mut i: usize = 0;
    while i < n
        invariant
            n == manifests.len(),
            0 <= i <= n,
            dirs.len() == i,
            entry_views(manifests@) == mv,
            mv.len() == n,
            forall|k: int|
                0 <= k < i ==> (#[trigger] dirs@[k])@ == spec_parent_dir(mv[k].path),
        decreases n - i,
    {
        dirs.push(parent_dir(manifests[i].path.as_slice()));
        i = i + 1;
    }
    proof {
        assert(crate::bytes::views(dirs@) =~~= spec_manifest_dirs(mv));
    }
    let root_idx = match outermost_dir(&dirs) {
        Option::Some(k) => k,
        Option::None => {
            let detail: Vec<u8> = vec![
                110u8, 111, 32, 119, 111, 114, 107, 115, 112, 97, 99, 101, 32, 114, 111, 111,
                116,
            ];
            return Result::Err(ClientError::Archive { detail });
        },
    };
    proof {
        let dv = spec_manifest_dirs(mv);
        lemma_outermost_props(dv);
        let so = spec_outermost(dv);
        assert(dirs@[root_idx as int]@ == dv[root_idx as int]);
        if root_idx < so {
            assert(spec_seg_count(dv[root_idx as int]) > spec_seg_count(dv[so]));
            assert(spec_seg_count(dirs@[root_idx as int]@) <= spec_seg_count(dirs@[so]@));
        }
        if so < root_idx {
            assert(spec_seg_count(dirs@[so]@) > spec_seg_count(dirs@[root_idx as int]@));
            assert(spec_seg_count(dv[so]) <= spec_seg_count(dv[root_idx as int]));
        }
        assert(root_idx as int == so);
        assert(dirs@[root_idx as int]@ == spec_build_root(mv));
    }
    match find_package_root(manifests, package_name) {
        Option::Some(_pkg_root) => {},
        Option::None => {
            let detail: Vec<u8> = vec![
                110u8, 111, 32, 112, 97, 99, 107, 97, 103, 101, 32, 114, 111, 111, 116,
            ];
            return Result::Err(ClientError::Archive { detail });
        },
    }
    let ignore = match ignore_file {
        Option::Some(content) => IgnoreSet::with_ignore_file(content.as_slice()),
        Option::None => IgnoreSet::new(),
    };
    proof {
        assert(ignore@ == spec_build_patterns(
            match ignore_file {
                Option::Some(c) => Option::Some(c@),
                Option::None => Option::None,
            },
        ));
    }
    let selected = select_files(workspace_files, dirs[root_idx].as_slice(), &ignore);
    proof {
        assert(entry_views(selected@) == spec_build_selection(
            entry_views(manifests@),
            match ignore_file {
                Option::Some(c) => Option::Some(c@),
                Option::None => Option::None,
            },
            entry_views(workspace_files@),
        ));
    }
    compress_archive(&selected)
}

} // verus!
