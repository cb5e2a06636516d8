//! Discovery: from project metadata to build units in a safe order.
//!
//! The project-metadata reader is a collaborator that hands in plain
//! values: each package's name, manifest path, declared dependency
//! names, and targets with their kinds and the source files found
//! under them. The library assembles one immutable build unit per
//! package — keeping only library and binary targets and only Rust
//! source files — and orders the units so that every package stands
//! after all packages it depends on.

use vstd::prelude::*;

use crate::bytes::spec_ends_with;
use crate::bytes::views;
use crate::codec::BuildUnit;
use crate::errors::ClientError;
use crate::graph::idx_views;
use crate::graph::spec_acyclic;
use crate::graph::spec_is_topo_order;
use crate::graph::spec_wf_adj;
use crate::graph::topo_order;

verus! {

/// One target of a package: its name, its kind names, and the source
/// files found under its source directory.
pub struct TargetMeta {
    pub name: Vec<u8>,
    pub kinds: Vec<Vec<u8>>,
    pub src_files: Vec<Vec<u8>>,
}

/// One package as the metadata reader describes it.
pub struct PackageMeta {
    pub name: Vec<u8>,
    pub manifest_path: Vec<u8>,
    pub dependency_names: Vec<Vec<u8>>,
    pub targets: Vec<TargetMeta>,
}

/// The text `lib`.
pub open spec fn txt_lib() -> Seq<u8> {
    seq![108u8, 105, 98]
}

/// The text `bin`.
pub open spec fn txt_bin() -> Seq<u8> {
    seq![98u8, 105, 110]
}

/// The text `.rs`.
pub open spec fn txt_dot_rs() -> Seq<u8> {
    seq![46u8, 114, 115]
}

/// Is this target compiled and shipped: a library or a binary?
pub open spec fn spec_is_buildable(t: &TargetMeta) -> bool {
    exists|i: int|
        0 <= i < t.kinds@.len() && ((#[trigger] t.kinds@[i])@ == txt_lib() || t.kinds@[i]@
            == txt_bin())
}

/// The Rust source files among a target's files, in order.
pub open spec fn spec_rs_files(fs: Seq<Vec<u8>>) -> Seq<Seq<u8>>
    decreases fs.len(),
{
    if fs.len() == 0 {
        Seq::empty()
    } else {
        (if spec_ends_with(fs[0]@, txt_dot_rs()) {
            seq![fs[0]@]
        } else {
            Seq::<Seq<u8>>::empty()
        }) + spec_rs_files(fs.skip(1))
    }
}

/// The source files the buildable targets contribute, in target order.
pub open spec fn spec_targets_sources(ts: Seq<TargetMeta>) -> Seq<Seq<u8>>
    decreases ts.len(),
{
    if ts.len() == 0 {
        Seq::empty()
    } else {
        (if spec_is_buildable(&ts[0]) {
            spec_rs_files(ts[0].src_files@)
        } else {
            Seq::<Seq<u8>>::empty()
        }) + spec_targets_sources(ts.skip(1))
    }
}

/// The artifact names of the buildable targets, in target order.
pub open spec fn spec_target_artifacts(ts: Seq<TargetMeta>) -> Seq<Seq<u8>>
    decreases ts.len(),
{
    if ts.len() == 0 {
        Seq::empty()
    } else {
        (if spec_is_buildable(&ts[0]) {
            seq![ts[0].name@]
        } else {
            Seq::<Seq<u8>>::empty()
        }) + spec_target_artifacts(ts.skip(1))
    }
}

/// A unit's source files: the package manifest, the workspace manifest
/// if one exists, then every Rust source of every buildable target.
pub open spec fn spec_unit_sources(p: &PackageMeta, wsm: Option<Seq<u8>>) -> Seq<Seq<u8>> {
    seq![p.manifest_path@] + (match wsm {
        Option::Some(m) => seq![m],
        Option::None => Seq::<Seq<u8>>::empty(),
    }) + spec_targets_sources(p.targets@)
}

/// Is this target a library or a binary?
pub fn is_buildable(t: &TargetMeta) -> (r: bool)
    ensures
        r == spec_is_buildable(t),
{
    let lib: Vec<u8> = vec![108u8, 105, 98];
    let bin: Vec<u8> = vec![98u8, 105, 110];
    proof {
        assert(lib@ =~= txt_lib());
        assert(bin@ =~= txt_bin());
    }
    let n = t.kinds.len();
    let mut i: usize = 0;
    while i < n
        invariant
            n == t.kinds.len(),
            0 <= i <= n,
            lib@ == txt_lib(),
            bin@ == txt_bin(),
            forall|k: int|
                0 <= k < i ==> (#[trigger] t.kinds@[k])@ != txt_lib() && t.kinds@[k]@ != txt_bin(),
        decreases n - i,
    {
        if crate::bytes::bytes_eq(t.kinds[i].as_slice(), lib.as_slice()) || crate::bytes::bytes_eq(
            t.kinds[i].as_slice(),
            bin.as_slice(),
        ) {
            return true;
        }
        i = i + 1;
    }
    false
}

/// The Rust source files among a target's files.
fn rs_files(fs: &Vec<Vec<u8>>) -> (r: Vec<Vec<u8>>)
    ensures
        views(r@) == spec_rs_files(fs@),
{
    let suffix: Vec<u8> = vec![46u8, 114, 115];
    proof {
        assert(suffix@ =~= txt_dot_rs());
    }
    let mut out: Vec<Vec<u8>> = Vec::new();
    let n = fs.len();
    let mut i: usize = 0;
    proof {
        assert(fs@.skip(0) =~= fs@);
        assert(views(out@) + spec_rs_files(fs@) =~~= spec_rs_files(fs@));
    }
    while i < n
        invariant
            n == fs.len(),
            0 <= i <= n,
            suffix@ == txt_dot_rs(),
            spec_rs_files(fs@) == views(out@) + spec_rs_files(fs@.skip(i as int)),
        decreases n - i,
    {
        proof {
            assert(fs@.skip(i as int)[0] == fs@[i as int]);
            assert(fs@.skip(i as int).skip(1) =~= fs@.skip(i + 1));
        }
        if crate::bytes::ends_with(fs[i].as_slice(), suffix.as_slice()) {
            let c = crate::bytes::to_vec(fs[i].as_slice());
            proof {
                assert(views(out@.push(c)) =~~= views(out@) + seq![c@]);
            }
            out.push(c);
            proof {
                assert(spec_rs_files(fs@) =~~= views(out@) + spec_rs_files(fs@.skip(i + 1)));
            }
        } else {
            proof {
                assert(spec_rs_files(fs@) =~~= views(out@) + spec_rs_files(fs@.skip(i + 1)));
            }
        }
        i = i + 1;
    }
    proof {
        assert(spec_rs_files(fs@.skip(n as int)) =~~= Seq::<Seq<u8>>::empty());
        assert(views(out@) =~~= spec_rs_files(fs@));
    }
    out
}

/// Assemble one build unit from one package's metadata.
pub fn assemble_unit(p: &PackageMeta, workspace_manifest: &Option<Vec<u8>>) -> (r: BuildUnit)
    ensures
        r@.package_name == p.name@,
        r@.dependencies == views(p.dependency_names@),
        r@.source_files == spec_unit_sources(
            p,
            match workspace_manifest {
                Option::Some(m) => Option::Some(m@),
                Option::None => Option::None,
            },
        ),
        r@.artifacts == spec_target_artifacts(p.targets@),
{
    let mut sources: Vec<Vec<u8>> = Vec::new();
    sources.push(crate::bytes::to_vec(p.manifest_path.as_slice()));
    match workspace_manifest {
        Option::Some(m) => {
            sources.push(crate::bytes::to_vec(m.as_slice()));
        },
        Option::None => {},
    }
    let ghost head = views(sources@);
    let mut artifacts: Vec<Vec<u8>> = Vec::new();
    let n = p.targets.len();
    let mut i: usize = 0;
    proof {
        assert(p.targets@.skip(0) =~= p.targets@);
        assert(head + spec_targets_sources(p.targets@) =~~= views(sources@)
            + spec_targets_sources(p.targets@));
        assert(views(artifacts@) + spec_target_artifacts(p.targets@) =~~= spec_target_artifacts(
            p.targets@,
        ));
    }
    while i < n
        invariant
            n == p.targets.len(),
            0 <= i <= n,
            head + spec_targets_sources(p.targets@) == views(sources@) + spec_targets_sources(
                p.targets@.skip(i as int),
            ),
            spec_target_artifacts(p.targets@) == views(artifacts@) + spec_target_artifacts(
                p.targets@.skip(i as int),
            ),
        decreases n - i,
    {
        proof {
            assert(p.targets@.skip(i as int)[0] == p.targets@[i as int]);
            assert(p.targets@.skip(i as int).skip(1) =~= p.targets@.skip(i + 1));
        }
        let t = &p.targets[i];
        if is_buildable(t) {
            let files = rs_files(&t.src_files);
            let ghost before_sources = views(sources@);
            let m = files.len();
            let mut j: usize = 0;
            while j < m
                invariant
                    m == files.len(),
                    0 <= j <= m,
                    views(sources@) == before_sources + views(files@).take(j as int),
                decreases m - j,
            {
                let c = crate::bytes::to_vec(files[j].as_slice());
                proof {
                    assert(views(sources@.push(c)) =~~= views(sources@) + seq![c@]);
                    assert(before_sources + views(files@).take(j as int) + seq![views(files@)[
                    j as int]] =~~= before_sources + views(files@).take(j + 1));
                }
                sources.push(c);
                j = j + 1;
            }
            proof {
                assert(views(files@).take(m as int) =~~= views(files@));
                assert(views(sources@) =~~= before_sources + spec_rs_files(
                    p.targets@[i as int].src_files@,
                ));
            }
            let aname = crate::bytes::to_vec(t.name.as_slice());
            proof {
                assert(views(artifacts@.push(aname)) =~~= views(artifacts@) + seq![aname@]);
            }
            artifacts.push(aname);
            proof {
                assert(head + spec_targets_sources(p.targets@) =~~= views(sources@)
                    + spec_targets_sources(p.targets@.skip(i + 1)));
                assert(spec_target_artifacts(p.targets@) =~~= views(artifacts@)
                    + spec_target_artifacts(p.targets@.skip(i + 1)));
            }
        } else {
            proof {
                assert(head + spec_targets_sources(p.targets@) =~~= views(sources@)
                    + spec_targets_sources(p.targets@.skip(i + 1)));
                assert(spec_target_artifacts(p.targets@) =~~= views(artifacts@)
                    + spec_target_artifacts(p.targets@.skip(i + 1)));
            }
        }
        i = i + 1;
    }
    proof {
        assert(spec_targets_sources(p.targets@.skip(n as int)) =~~= Seq::<Seq<u8>>::empty());
        assert(spec_target_artifacts(p.targets@.skip(n as int)) =~~= Seq::<Seq<u8>>::empty());
        assert(views(sources@) =~~= head + spec_targets_sources(p.targets@));
        assert(views(artifacts@) =~~= spec_target_artifacts(p.targets@));
    }
    let unit = BuildUnit {
        package_name: crate::bytes::to_vec(p.name.as_slice()),
        dependencies: crate::codec::copy_list(&p.dependency_names),
        source_files: sources,
        artifacts,
    };
    proof {
        assert(unit@.source_files =~~= spec_unit_sources(
            p,
            match workspace_manifest {
                Option::Some(m) => Option::Some(m@),
                Option::None => Option::None,
            },
        ));
    }
    unit
}

/// The index of the first package with this name, if any.
pub open spec fn spec_find_name(names: Seq<Seq<u8>>, d: Seq<u8>) -> Option<int>
    decreases names.len(),
{
    if names.len() == 0 {
        Option::None
    } else if names[0] == d {
        Option::Some(0int)
    } else {
        match spec_find_name(names.skip(1), d) {
            Option::Some(j) => Option::Some(j + 1),
            Option::None => Option::None,
        }
    }
}

/// A found index is in bounds and names `d`.
pub proof fn lemma_find_name_bound(names: Seq<Seq<u8>>, d: Seq<u8>)
    ensures
        match spec_find_name(names, d) {
            Option::Some(j) => 0 <= j < names.len() && names[j] == d,
            Option::None => true,
        },
    decreases names.len(),
{
    if names.len() > 0 && names[0] != d {
        lemma_find_name_bound(names.skip(1), d);
    }
}

/// Find the first package with this name.
fn find_name(names: &Vec<Vec<u8>>, d: &[u8]) -> (r: Option<usize>)
    ensures
        match (r, spec_find_name(views(names@), d@)) {
            (Option::Some(i), Option::Some(j)) => i as int == j,
            (Option::None, Option::None) => true,
            _ => false,
        },
{
    let n = names.len();
    let mut i: usize = 0;
    proof {
        assert(views(names@).skip(0) =~~= views(names@));
    }
    while i < n
        invariant
            n == names.len(),
            0 <= i <= n,
            spec_find_name(views(names@), d@) == match spec_find_name(
                views(names@).skip(i as int),
                d@,
            ) {
                Option::Some(j) => Option::Some(j + i),
                Option::None => Option::None,
            },
        decreases n - i,
    {
        proof {
            assert(views(names@).skip(i as int)[0] == views(names@)[i as int]);
            assert(views(names@).skip(i as int).skip(1) =~~= views(names@).skip(i + 1));
        }
        if crate::bytes::bytes_eq(names[i].as_slice(), d) {
            assert(views(names@).skip(i as int)[0] == d@);
            return Option::Some(i);
        }
        i = i + 1;
    }
    proof {
        assert(views(names@).skip(n as int) =~~= Seq::<Seq<u8>>::empty());
    }
    Option::None
}

/// The dependency edges of one package: the indices of the named
/// packages, skipping names that are not packages of this project.
pub open spec fn spec_dep_edges(names: Seq<Seq<u8>>, deps: Seq<Seq<u8>>) -> Seq<usize>
    decreases deps.len(),
{
    if deps.len() == 0 {
        Seq::empty()
    } else {
        (match spec_find_name(names, deps[0]) {
            Option::Some(j) => seq![j as usize],
            Option::None => Seq::<usize>::empty(),
        }) + spec_dep_edges(names, deps.skip(1))
    }
}

/// Every edge points at a package.
pub proof fn lemma_dep_edges_bound(names: Seq<Seq<u8>>, deps: Seq<Seq<u8>>)
    ensures
        forall|k: int|
            0 <= k < spec_dep_edges(names, deps).len() ==> (#[trigger] spec_dep_edges(
                names,
                deps,
            )[k]) < names.len(),
    decreases deps.len(),
{
    if deps.len() > 0 {
        lemma_find_name_bound(names, deps[0]);
        lemma_dep_edges_bound(names, deps.skip(1));
        let first = match spec_find_name(names, deps[0]) {
            Option::Some(j) => seq![j as usize],
            Option::None => Seq::<usize>::empty(),
        };
        let rest = spec_dep_edges(names, deps.skip(1));
        assert forall|k: int|
            0 <= k < spec_dep_edges(names, deps).len() implies (#[trigger] spec_dep_edges(
            names,
            deps,
        )[k]) < names.len() by {
            assert(spec_dep_edges(names, deps) == first + rest);
            if k < first.len() {
                assert(spec_dep_edges(names, deps)[k] == first[k]);
            } else {
                assert(spec_dep_edges(names, deps)[k] == rest[k - first.len()]);
            }
        }
    }
}

/// The dependency graph of the units: node `i` is unit `i`, with an
/// edge to each unit its dependency names name.
pub fn build_graph(units: &Vec<BuildUnit>) -> (r: Vec<Vec<usize>>)
    ensures
        r.len() == units.len(),
        forall|i: int|
            0 <= i < units.len() ==> (#[trigger] r@[i])@ == spec_dep_edges(
                spec_unit_names(units@),
                views(units@[i].dependencies@),
            ),
        spec_wf_adj(idx_views(r@)),
{
    let mut names: Vec<Vec<u8>> = Vec::new();
    let n = units.len();
    let mut i: usize = 0;
    while i < n
        invariant
            n == units.len(),
            0 <= i <= n,
            names.len() == i,
            forall|k: int| 0 <= k < i ==> (#[trigger] names@[k])@ == units@[k].package_name@,
        decreases n - i,
    {
        names.push(crate::bytes::to_vec(units[i].package_name.as_slice()));
        i = i + 1;
    }
    proof {
        assert(views(names@) =~~= spec_unit_names(units@));
    }
    let mut adj: Vec<Vec<usize>> = Vec::new();
    let mut x: usize = 0;
    while x < n
        invariant
            n == units.len(),
            0 <= x <= n,
            adj.len() == x,
            views(names@) == spec_unit_names(units@),
            names.len() == n,
            forall|i2: int|
                0 <= i2 < x ==> (#[trigger] adj@[i2])@ == spec_dep_edges(
                    spec_unit_names(units@),
                    views(units@[i2].dependencies@),
                ),
        decreases n - x,
    {
        let deps = &units[x].dependencies;
        let mut row: Vec<usize> = Vec::new();
        let m = deps.len();
        let mut j: usize = 0;
        proof {
            assert(views(deps@).skip(0) =~~= views(deps@));
            assert(row@ + spec_dep_edges(views(names@), views(deps@)) =~= spec_dep_edges(
                views(names@),
                views(deps@),
            ));
        }
        while j < m
            invariant
                m == deps.len(),
                0 <= j <= m,
                names.len() == n,
                views(names@) == spec_unit_names(units@),
                deps == &units@[x as int].dependencies,
                x < n == units.len(),
                spec_dep_edges(views(names@), views(deps@)) == row@ + spec_dep_edges(
                    views(names@),
                    views(deps@).skip(j as int),
                ),
            decreases m - j,
        {
            proof {
                assert(views(deps@).skip(j as int)[0] == views(deps@)[j as int]);
                assert(views(deps@).skip(j as int).skip(1) =~~= views(deps@).skip(j + 1));
            }
            match find_name(&names, deps[j].as_slice()) {
                Option::Some(idx) => {
                    proof {
                        assert(row@.push(idx) =~= row@ + seq![idx]);
                    }
                    row.push(idx);
                    proof {
                        assert(spec_dep_edges(views(names@), views(deps@)) =~= row@
                            + spec_dep_edges(views(names@), views(deps@).skip(j + 1)));
                    }
                },
                Option::None => {
                    proof {
                        assert(spec_dep_edges(views(names@), views(deps@)) =~= row@
                            + spec_dep_edges(views(names@), views(deps@).skip(j + 1)));
                    }
                },
            }
            j = j + 1;
        }
        proof {
            assert(spec_dep_edges(views(names@), views(deps@).skip(m as int)) =~= Seq::<
                usize,
            >::empty());
            assert(row@ =~= spec_dep_edges(views(names@), views(deps@)));
        }
        adj.push(row);
        x = x + 1;
    }
    proof {
        assert forall|i2: int, j2: int|
            0 <= i2 < idx_views(adj@).len() && 0 <= j2 < idx_views(adj@)[i2].len() implies (
        #[trigger] idx_views(adj@)[i2][j2]) < idx_views(adj@).len() by {
            lemma_dep_edges_bound(spec_unit_names(units@), views(units@[i2].dependencies@));
            assert(idx_views(adj@)[i2] == adj@[i2]@);
            assert(spec_unit_names(units@).len() == n);
        }
    }
    adj
}

/// The package names of the units, in unit order.
pub open spec fn spec_unit_names(units: Seq<BuildUnit>) -> Seq<Seq<u8>> {
    units.map_values(|u: BuildUnit| u.package_name@)
}

/// The dependency graph the units describe: one row of edges per unit.
pub open spec fn spec_graph_edges(units: Seq<BuildUnit>) -> Seq<Seq<usize>> {
    Seq::new(units.len(), |i: int| spec_dep_edges(spec_unit_names(units), views(units[i].dependencies@)))
}

/// Order the units so that every unit stands after all units it
/// depends on, or fail naming a package that no safe order can place.
pub fn order_units(units: &Vec<BuildUnit>) -> (r: Result<Vec<BuildUnit>, ClientError>)
    ensures
        match r {
            Result::Ok(o) => exists|ord: Seq<usize>|
                {
                    &&& #[trigger] spec_is_topo_order(spec_graph_edges(units@), ord)
                    &&& o@.len() == units@.len()
                    &&& forall|k: int| 0 <= k < o@.len() ==> (#[trigger] o@[k])@ == units@[
                        ord[k] as int]@
                },
            Result::Err(e) => !spec_acyclic(spec_graph_edges(units@)) && (e@ matches
                crate::errors::ClientErrorModel::GraphCycle { package } && exists|i: int|
                0 <= i < units@.len() && package == (#[trigger] units@[i].package_name)@),
        },
{
    let adj = build_graph(units);
    proof {
        assert(idx_views(adj@) =~~= spec_graph_edges(units@));
    }
    match topo_order(&adj) {
        Result::Ok(order) => {
            let mut out: Vec<BuildUnit> = Vec::new();
            let n = order.len();
            let mut k: usize = 0;
            while k < n
                invariant
                    n == order.len(),
                    0 <= k <= n,
                    out.len() == k,
                    n == units.len(),
                    forall|m: int| 0 <= m < n ==> (#[trigger] order@[m]) < n,
                    forall|m: int| 0 <= m < k ==> (#[trigger] out@[m])@ == units@[order@[m] as int]@,
                decreases n - k,
            {
                out.push(units[order[k]].duplicate());
                k = k + 1;
            }
            proof {
                let ord = order@;
                assert(spec_is_topo_order(spec_graph_edges(units@), ord) && out@.len()
                    == units@.len() && forall|k2: int|
                    0 <= k2 < out@.len() ==> (#[trigger] out@[k2])@ == units@[ord[k2] as int]@);
            }
            Result::Ok(out)
        },
        Result::Err(i) => {
            let package = crate::bytes::to_vec(units[i].package_name.as_slice());
            Result::Err(ClientError::GraphCycle { package })
        },
    }
}


/// The units an explicit package selector keeps: all of them without a
/// selector, else exactly those bearing the selected name.
pub open spec fn spec_selected_units(units: Seq<BuildUnit>, selector: Option<Seq<u8>>) -> Seq<
    BuildUnit,
>
    decreases units.len(),
{
    match selector {
        Option::None => units,
        Option::Some(name) => {
            if units.len() == 0 {
                Seq::empty()
            } else {
                (if units[0].package_name@ == name {
                    seq![units[0]]
                } else {
                    Seq::<BuildUnit>::empty()
                }) + spec_selected_units(units.skip(1), selector)
            }
        },
    }
}

/// Keep only the explicitly selected package, or every unit when no
/// selector was given.
pub fn filter_units(units: &Vec<BuildUnit>, selector: &Option<Vec<u8>>) -> (r: Vec<BuildUnit>)
    ensures
        r@.map_values(|u: BuildUnit| u@) == spec_selected_units(
            units@,
            match selector {
                Option::Some(n) => Option::Some(n@),
                Option::None => Option::None,
            },
        ).map_values(|u: BuildUnit| u@),
{
    match selector {
        Option::None => {
            let mut out: Vec<BuildUnit> = Vec::new();
            let n = units.len();
            let mut i: usize = 0;
            while i < n
                invariant
                    n == units.len(),
                    0 <= i <= n,
                    out.len() == i,
                    forall|k: int| 0 <= k < i ==> (#[trigger] out@[k])@ == units@[k]@,
                decreases n - i,
            {
                out.push(units[i].duplicate());
                i = i + 1;
            }
            proof {
                assert(out@.map_values(|u: BuildUnit| u@) =~~= units@.map_values(
                    |u: BuildUnit| u@,
                ));
            }
            out
        },
        Option::Some(name) => {
            let ghost sel = Option::Some(name@);
            let mut out: Vec<BuildUnit> = Vec::new();
            let n = units.len();
            let mut i: usize = 0;
            proof {
                assert(units@.skip(0) =~= units@);
                assert(out@ + spec_selected_units(units@, sel) =~= spec_selected_units(
                    units@,
                    sel,
                ));
            }
            while i < n
                invariant
                    n == units.len(),
                    0 <= i <= n,
                    sel == Option::Some(name@),
                    spec_selected_units(units@, sel).map_values(|u: BuildUnit| u@) == (out@
                        + spec_selected_units(units@.skip(i as int), sel)).map_values(
                        |u: BuildUnit| u@,
                    ),
                decreases n - i,
            {
                proof {
                    assert(units@.skip(i as int)[0] == units@[i as int]);
                    assert(units@.skip(i as int).skip(1) =~= units@.skip(i + 1));
                }
                if crate::bytes::bytes_eq(units[i].package_name.as_slice(), name.as_slice()) {
                    let u = units[i].duplicate();
                    proof {
                        assert((out@.push(u)).map_values(|u2: BuildUnit| u2@) =~~= (out@
                            + seq![units@[i as int]]).map_values(|u2: BuildUnit| u2@));
                    }
                    out.push(u);
                    proof {
                        assert(spec_selected_units(units@, sel).map_values(|u2: BuildUnit| u2@)
                            =~~= (out@ + spec_selected_units(units@.skip(i + 1), sel)).map_values(
                            |u2: BuildUnit| u2@,
                        ));
                    }
                } else {
                    proof {
                        assert(spec_selected_units(units@, sel).map_values(|u2: BuildUnit| u2@)
                            =~~= (out@ + spec_selected_units(units@.skip(i + 1), sel)).map_values(
                            |u2: BuildUnit| u2@,
                        ));
                    }
                }
                i = i + 1;
            }
            proof {
                assert(spec_selected_units(units@.skip(n as int), sel) =~= Seq::<
                    BuildUnit,
                >::empty());
                assert(spec_selected_units(units@, sel).map_values(|u2: BuildUnit| u2@) =~~= out@
                    .map_values(|u2: BuildUnit| u2@));
            }
            out
        },
    }
}

} // verus!
