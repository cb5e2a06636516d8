//! Atomic artifact materialization, as a plan over a modelled file
//! system.
//!
//! The library computes where an artifact lands and the exact step
//! sequence that writes it: the bytes go to a temporary file beside the
//! final path, which is then renamed into place; where replace-in-place
//! is unavailable, an existing file is first renamed aside and removed
//! only after the new file is in place. The file system is modelled as
//! a map from paths to contents, and the plan is proved to change that
//! map by exactly one binding: an artifact is never observed
//! half-written, and a previous artifact is never lost.

use vstd::prelude::*;

verus! {

/// The path separator byte.
pub const SEP: u8 = 47;

/// The text `target`.
pub open spec fn txt_target_dir() -> Seq<u8> {
    seq![116u8, 97, 114, 103, 101, 116]
}

/// The text `release`.
pub open spec fn txt_release() -> Seq<u8> {
    seq![114u8, 101, 108, 101, 97, 115, 101]
}

/// The text `debug`.
pub open spec fn txt_debug() -> Seq<u8> {
    seq![100u8, 101, 98, 117, 103]
}

/// Where an artifact lands: `<root>/target/[<triple>/]<profile>/<rel>`,
/// with profile `release` or `debug`.
pub open spec fn spec_artifact_path(
    root: Seq<u8>,
    target: Option<Seq<u8>>,
    release: bool,
    rel: Seq<u8>,
) -> Seq<u8> {
    let base = root + seq![SEP] + txt_target_dir();
    let based = match target {
        Option::Some(t) => base + seq![SEP] + t,
        Option::None => base,
    };
    let profile = if release {
        txt_release()
    } else {
        txt_debug()
    };
    based + seq![SEP] + profile + seq![SEP] + rel
}

/// Compute the local path an artifact is materialized at.
pub fn artifact_target_path(
    root: &[u8],
    target: &Option<Vec<u8>>,
    release: bool,
    rel: &[u8],
) -> (r: Vec<u8>)
    ensures
        r@ == spec_artifact_path(
            root@,
            match target {
                Option::Some(t) => Option::Some(t@),
                Option::None => Option::None,
            },
            release,
            rel@,
        ),
{
    let mut out: Vec<u8> = Vec::new();
    crate::bytes::extend_bytes(&mut out, root);
    out.push(SEP);
    let tdir: Vec<u8> = vec![116u8, 97, 114, 103, 101, 116];
    proof {
        assert(tdir@ =~= txt_target_dir());
    }
    crate::bytes::extend_bytes(&mut out, tdir.as_slice());
    match target {
        Option::Some(t) => {
            out.push(SEP);
            crate::bytes::extend_bytes(&mut out, t.as_slice());
        },
        Option::None => {},
    }
    out.push(SEP);
    if release {
        let p: Vec<u8> = vec![114u8, 101, 108, 101, 97, 115, 101];
        proof {
            assert(p@ =~= txt_release());
        }
        crate::bytes::extend_bytes(&mut out, p.as_slice());
    } else {
        let p: Vec<u8> = vec![100u8, 101, 98, 117, 103];
        proof {
            assert(p@ =~= txt_debug());
        }
        crate::bytes::extend_bytes(&mut out, p.as_slice());
    }
    out.push(SEP);
    crate::bytes::extend_bytes(&mut out, rel);
    proof {
        assert(out@ =~= spec_artifact_path(
            root@,
            match target {
                Option::Some(t) => Option::Some(t@),
                Option::None => Option::None,
            },
            release,
            rel@,
        ));
    }
    out
}

/// The decimal digits of `n`.
pub open spec fn spec_decimal(n: int) -> Seq<u8>
    decreases n,
{
    if n < 10 {
        seq![(48 + if n >= 0 { n % 10 } else { 0 }) as u8]
    } else {
        spec_decimal(n / 10) + seq![(48 + n % 10) as u8]
    }
}

/// The decimal digits of `n`, as bytes.
pub fn decimal_digits(n: u64) -> (r: Vec<u8>)
    ensures
        r@ == spec_decimal(n as int),
    decreases n,
{
    if n < 10 {
        let d: u8 = (48 + (n % 10)) as u8;
        let v: Vec<u8> = vec![d];
        proof {
            assert(v@ =~= spec_decimal(n as int));
        }
        v
    } else {
        let mut r = decimal_digits(n / 10);
        let d: u8 = (48 + (n % 10)) as u8;
        r.push(d);
        proof {
            assert(r@ =~= spec_decimal(n as int));
        }
        r
    }
}

/// The text `.tmp`.
pub open spec fn txt_dot_tmp() -> Seq<u8> {
    seq![46u8, 116, 109, 112]
}

/// The text `.old`.
pub open spec fn txt_dot_old() -> Seq<u8> {
    seq![46u8, 111, 108, 100]
}

/// The temporary path beside `path`: `<path>.<pid>.tmp`.
pub open spec fn spec_temp_path(path: Seq<u8>, pid: int) -> Seq<u8> {
    path + seq![46u8] + spec_decimal(pid) + txt_dot_tmp()
}

/// The aside path beside `path`: `<path>.<pid>.old`.
pub open spec fn spec_aside_path(path: Seq<u8>, pid: int) -> Seq<u8> {
    path + seq![46u8] + spec_decimal(pid) + txt_dot_old()
}

/// Compute the temporary path an artifact is staged at.
pub fn temp_path_for(path: &[u8], pid: u64) -> (r: Vec<u8>)
    ensures
        r@ == spec_temp_path(path@, pid as int),
{
    let mut out = crate::bytes::to_vec(path);
    out.push(46u8);
    let digits = decimal_digits(pid);
    crate::bytes::extend_bytes(&mut out, digits.as_slice());
    let suffix: Vec<u8> = vec![46u8, 116, 109, 112];
    proof {
        assert(suffix@ =~= txt_dot_tmp());
    }
    crate::bytes::extend_bytes(&mut out, suffix.as_slice());
    proof {
        assert(out@ =~= spec_temp_path(path@, pid as int));
    }
    out
}

/// Compute the aside path an existing artifact is moved to.
pub fn aside_path_for(path: &[u8], pid: u64) -> (r: Vec<u8>)
    ensures
        r@ == spec_aside_path(path@, pid as int),
{
    let mut out = crate::bytes::to_vec(path);
    out.push(46u8);
    let digits = decimal_digits(pid);
    crate::bytes::extend_bytes(&mut out, digits.as_slice());
    let suffix: Vec<u8> = vec![46u8, 111, 108, 100];
    proof {
        assert(suffix@ =~= txt_dot_old());
    }
    crate::bytes::extend_bytes(&mut out, suffix.as_slice());
    proof {
        assert(out@ =~= spec_aside_path(path@, pid as int));
    }
    out
}

/// The three paths of one materialization never collide: the staging
/// names are strictly longer than the final path and differ from each
/// other in their last byte.
pub proof fn lemma_staging_paths_distinct(path: Seq<u8>, pid: int)
    ensures
        spec_temp_path(path, pid) != path,
        spec_aside_path(path, pid) != path,
        spec_temp_path(path, pid) != spec_aside_path(path, pid),
{
    let t = spec_temp_path(path, pid);
    let a = spec_aside_path(path, pid);
    assert(t.len() > path.len());
    assert(a.len() > path.len());
    assert(t[t.len() - 1] == 112);
    assert(a[a.len() - 1] == 100);
}

/// One step of a materialization plan.
pub enum FsStep {
    /// Create or overwrite the file at `path` with `data`.
    Write { path: Vec<u8>, data: Vec<u8> },
    /// Move the file at `from` to `to`, replacing `to`; nothing happens
    /// if `from` does not exist.
    Rename { from: Vec<u8>, to: Vec<u8> },
    /// Delete the file at `path` if it exists.
    Remove { path: Vec<u8> },
}

/// The mathematical value of an [`FsStep`].
pub enum FsStepModel {
    Write { path: Seq<u8>, data: Seq<u8> },
    Rename { from: Seq<u8>, to: Seq<u8> },
    Remove { path: Seq<u8> },
}

impl View for FsStep {
    type V = FsStepModel;

    open spec fn view(&self) -> FsStepModel {
        match self {
            FsStep::Write { path, data } => FsStepModel::Write { path: path@, data: data@ },
            FsStep::Rename { from, to } => FsStepModel::Rename { from: from@, to: to@ },
            FsStep::Remove { path } => FsStepModel::Remove { path: path@ },
        }
    }
}

/// The views of a list of steps.
pub open spec fn step_views(v: Seq<FsStep>) -> Seq<FsStepModel> {
    v.map_values(|s: FsStep| s@)
}

/// A file system, modelled as the map from each existing file's path to
/// its contents.
pub type FsModel = Map<Seq<u8>, Seq<u8>>;

/// What one step does to the file system.
pub open spec fn apply_step(fs: FsModel, s: FsStepModel) -> FsModel {
    match s {
        FsStepModel::Write { path, data } => fs.insert(path, data),
        FsStepModel::Rename { from, to } => if fs.dom().contains(from) {
            fs.remove(from).insert(to, fs[from])
        } else {
            fs
        },
        FsStepModel::Remove { path } => fs.remove(path),
    }
}

/// What a step sequence does to the file system, first step first.
pub open spec fn apply_steps(fs: FsModel, steps: Seq<FsStepModel>) -> FsModel
    decreases steps.len(),
{
    if steps.len() == 0 {
        fs
    } else {
        apply_steps(apply_step(fs, steps[0]), steps.skip(1))
    }
}

/// The step sequence that materializes `data` at `final_path`.
///
/// With atomic replace-in-place: write the temporary file, rename it
/// into place. Without it and with a file already at the final path:
/// rename the existing file aside first, and delete the aside copy only
/// after the new file is in place.
pub open spec fn spec_materialize_plan(
    final_path: Seq<u8>,
    tmp_path: Seq<u8>,
    aside_path: Seq<u8>,
    data: Seq<u8>,
    atomic_replace: bool,
    already_exists: bool,
) -> Seq<FsStepModel> {
    if atomic_replace || !already_exists {
        seq![
            FsStepModel::Write { path: tmp_path, data: data },
            FsStepModel::Rename { from: tmp_path, to: final_path },
        ]
    } else {
        seq![
            FsStepModel::Write { path: tmp_path, data: data },
            FsStepModel::Rename { from: final_path, to: aside_path },
            FsStepModel::Rename { from: tmp_path, to: final_path },
            FsStepModel::Remove { path: aside_path },
        ]
    }
}

/// Build the materialization plan for one artifact.
pub fn materialize_plan(
    final_path: &[u8],
    tmp_path: &[u8],
    aside_path: &[u8],
    data: &[u8],
    atomic_replace: bool,
    already_exists: bool,
) -> (r: Vec<FsStep>)
    ensures
        step_views(r@) == spec_materialize_plan(
            final_path@,
            tmp_path@,
            aside_path@,
            data@,
            atomic_replace,
            already_exists,
        ),
{
    let mut out: Vec<FsStep> = Vec::new();
    out.push(
        FsStep::Write { path: crate::bytes::to_vec(tmp_path), data: crate::bytes::to_vec(data) },
    );
    if atomic_replace || !already_exists {
        out.push(
            FsStep::Rename {
                from: crate::bytes::to_vec(tmp_path),
                to: crate::bytes::to_vec(final_path),
            },
        );
    } else {
        out.push(
            FsStep::Rename {
                from: crate::bytes::to_vec(final_path),
                to: crate::bytes::to_vec(aside_path),
            },
        );
        out.push(
            FsStep::Rename {
                from: crate::bytes::to_vec(tmp_path),
                to: crate::bytes::to_vec(final_path),
            },
        );
        out.push(FsStep::Remove { path: crate::bytes::to_vec(aside_path) });
    }
    proof {
        assert(step_views(out@) =~~= spec_materialize_plan(
            final_path@,
            tmp_path@,
            aside_path@,
            data@,
            atomic_replace,
            already_exists,
        ));
    }
    out
}

/// Applying a one-step plan.
proof fn lemma_apply_one(fs: FsModel, s0: FsStepModel)
    ensures
        apply_steps(fs, seq![s0]) == apply_step(fs, s0),
{
    let p = seq![s0];
    assert(p.skip(1) =~= Seq::<FsStepModel>::empty());
    assert(apply_steps(apply_step(fs, s0), Seq::<FsStepModel>::empty()) == apply_step(fs, s0));
}

/// Applying a two-step plan.
proof fn lemma_apply_two(fs: FsModel, s0: FsStepModel, s1: FsStepModel)
    ensures
        apply_steps(fs, seq![s0, s1]) == apply_step(apply_step(fs, s0), s1),
{
    let p = seq![s0, s1];
    assert(p.skip(1) =~= seq![s1]);
    lemma_apply_one(apply_step(fs, s0), s1);
}

/// Applying a three-step plan.
proof fn lemma_apply_three(fs: FsModel, s0: FsStepModel, s1: FsStepModel, s2: FsStepModel)
    ensures
        apply_steps(fs, seq![s0, s1, s2]) == apply_step(
            apply_step(apply_step(fs, s0), s1),
            s2,
        ),
{
    let p = seq![s0, s1, s2];
    assert(p.skip(1) =~= seq![s1, s2]);
    lemma_apply_two(apply_step(fs, s0), s1, s2);
}

/// Applying a four-step plan.
proof fn lemma_apply_four(
    fs: FsModel,
    s0: FsStepModel,
    s1: FsStepModel,
    s2: FsStepModel,
    s3: FsStepModel,
)
    ensures
        apply_steps(fs, seq![s0, s1, s2, s3]) == apply_step(
            apply_step(apply_step(apply_step(fs, s0), s1), s2),
            s3,
        ),
{
    let p = seq![s0, s1, s2, s3];
    assert(p.skip(1) =~= seq![s1, s2, s3]);
    lemma_apply_three(apply_step(fs, s0), s1, s2, s3);
}

/// Materialization changes the file system by exactly one binding: the
/// artifact's bytes appear at the final path, no temporary or aside
/// file stays behind, and every other file is untouched.
pub proof fn lemma_plan_materializes(
    fs: FsModel,
    final_path: Seq<u8>,
    tmp_path: Seq<u8>,
    aside_path: Seq<u8>,
    data: Seq<u8>,
    atomic_replace: bool,
)
    requires
        final_path != tmp_path,
        final_path != aside_path,
        tmp_path != aside_path,
        !fs.dom().contains(tmp_path),
        !fs.dom().contains(aside_path),
    ensures
        apply_steps(
            fs,
            spec_materialize_plan(
                final_path,
                tmp_path,
                aside_path,
                data,
                atomic_replace,
                fs.dom().contains(final_path),
            ),
        ) == fs.insert(final_path, data),
{
    let exists = fs.dom().contains(final_path);
    let plan = spec_materialize_plan(
        final_path,
        tmp_path,
        aside_path,
        data,
        atomic_replace,
        exists,
    );
    if atomic_replace || !exists {
        assert(plan =~= seq![plan[0], plan[1]]);
        lemma_apply_two(fs, plan[0], plan[1]);
        let fs1 = apply_step(fs, plan[0]);
        assert(fs1 == fs.insert(tmp_path, data));
        let fs2 = apply_step(fs1, plan[1]);
        assert(fs1.dom().contains(tmp_path));
        assert(fs2 == fs1.remove(tmp_path).insert(final_path, fs1[tmp_path]));
        assert(apply_steps(fs, plan) == fs2);
        assert(fs2 =~= fs.insert(final_path, data));
    } else {
        assert(plan =~= seq![plan[0], plan[1], plan[2], plan[3]]);
        lemma_apply_four(fs, plan[0], plan[1], plan[2], plan[3]);
        let fs1 = apply_step(fs, plan[0]);
        assert(fs1 == fs.insert(tmp_path, data));
        let fs2 = apply_step(fs1, plan[1]);
        assert(fs1.dom().contains(final_path));
        assert(fs2 == fs1.remove(final_path).insert(aside_path, fs1[final_path]));
        let fs3 = apply_step(fs2, plan[2]);
        assert(fs2.dom().contains(tmp_path));
        assert(fs3 == fs2.remove(tmp_path).insert(final_path, fs2[tmp_path]));
        let fs4 = apply_step(fs3, plan[3]);
        assert(fs4 == fs3.remove(aside_path));
        assert(apply_steps(fs, plan) == fs4);
        assert(fs4 =~= fs.insert(final_path, data));
    }
}

/// Idempotent materialization: running the plan for the same bytes a
/// second time leaves the file system exactly as the first run left it,
/// with the artifact's bytes at the final path and no stray staging
/// file.
pub proof fn lemma_materialize_idempotent(
    fs: FsModel,
    final_path: Seq<u8>,
    tmp_path: Seq<u8>,
    aside_path: Seq<u8>,
    data: Seq<u8>,
    atomic_replace: bool,
)
    requires
        final_path != tmp_path,
        final_path != aside_path,
        tmp_path != aside_path,
        !fs.dom().contains(tmp_path),
        !fs.dom().contains(aside_path),
    ensures
        ({
            let once = apply_steps(
                fs,
                spec_materialize_plan(
                    final_path,
                    tmp_path,
                    aside_path,
                    data,
                    atomic_replace,
                    fs.dom().contains(final_path),
                ),
            );
            let twice = apply_steps(
                once,
                spec_materialize_plan(final_path, tmp_path, aside_path, data, atomic_replace, true),
            );
            twice == once && once[final_path] == data && !once.dom().contains(tmp_path)
                && !once.dom().contains(aside_path)
        }),
{
    lemma_plan_materializes(fs, final_path, tmp_path, aside_path, data, atomic_replace);
    let once = apply_steps(
        fs,
        spec_materialize_plan(
            final_path,
            tmp_path,
            aside_path,
            data,
            atomic_replace,
            fs.dom().contains(final_path),
        ),
    );
    assert(once == fs.insert(final_path, data));
    assert(!once.dom().contains(tmp_path));
    assert(!once.dom().contains(aside_path));
    assert(once.dom().contains(final_path));
    lemma_plan_materializes(once, final_path, tmp_path, aside_path, data, atomic_replace);
    let twice = apply_steps(
        once,
        spec_materialize_plan(final_path, tmp_path, aside_path, data, atomic_replace, true),
    );
    assert(twice == once.insert(final_path, data));
    assert(twice =~= once);
}

/// Atomicity: interrupting the plan after the temporary file is written
/// but before any rename leaves a pre-existing artifact at the final
/// path untouched; and at every cut of the plan, the final path holds
/// the old bytes, the aside path holds the old bytes, or the final path
/// already holds the new bytes.
pub proof fn lemma_interrupt_leaves_artifact(
    fs: FsModel,
    final_path: Seq<u8>,
    tmp_path: Seq<u8>,
    aside_path: Seq<u8>,
    data: Seq<u8>,
    atomic_replace: bool,
    k: int,
)
    requires
        final_path != tmp_path,
        final_path != aside_path,
        tmp_path != aside_path,
        !fs.dom().contains(tmp_path),
        !fs.dom().contains(aside_path),
        fs.dom().contains(final_path),
        0 <= k <= spec_materialize_plan(
            final_path,
            tmp_path,
            aside_path,
            data,
            atomic_replace,
            true,
        ).len(),
    ensures
        ({
            let cut = apply_steps(
                fs,
                spec_materialize_plan(
                    final_path,
                    tmp_path,
                    aside_path,
                    data,
                    atomic_replace,
                    true,
                ).take(k),
            );
            (k <= 1 ==> cut.dom().contains(final_path) && cut[final_path] == fs[final_path])
                && (cut.dom().contains(final_path) && cut[final_path] == fs[final_path]
                || cut.dom().contains(aside_path) && cut[aside_path] == fs[final_path]
                || cut.dom().contains(final_path) && cut[final_path] == data)
        }),
{
    let plan = spec_materialize_plan(final_path, tmp_path, aside_path, data, atomic_replace, true);
    let cut = apply_steps(fs, plan.take(k));
    let fs1 = apply_step(fs, plan[0]);
    assert(fs1 == fs.insert(tmp_path, data));
    if k == 0 {
        assert(plan.take(0).len() == 0);
        assert(cut == fs);
    } else if k == 1 {
        assert(plan.take(1) =~= seq![plan[0]]);
        lemma_apply_one(fs, plan[0]);
        assert(cut == fs1);
    } else if atomic_replace {
        assert(k == 2);
        assert(plan.take(2) =~= seq![plan[0], plan[1]]);
        lemma_apply_two(fs, plan[0], plan[1]);
        let fs2 = apply_step(fs1, plan[1]);
        assert(fs1.dom().contains(tmp_path));
        assert(fs2 == fs1.remove(tmp_path).insert(final_path, fs1[tmp_path]));
        assert(cut == fs2);
        assert(cut.dom().contains(final_path) && cut[final_path] == data);
    } else {
        let fs2 = apply_step(fs1, plan[1]);
        assert(fs1.dom().contains(final_path));
        assert(fs2 == fs1.remove(final_path).insert(aside_path, fs1[final_path]));
        if k == 2 {
            assert(plan.take(2) =~= seq![plan[0], plan[1]]);
            lemma_apply_two(fs, plan[0], plan[1]);
            assert(cut == fs2);
            assert(cut.dom().contains(aside_path) && cut[aside_path] == fs[final_path]);
        } else {
            let fs3 = apply_step(fs2, plan[2]);
            assert(fs2.dom().contains(tmp_path));
            assert(fs3 == fs2.remove(tmp_path).insert(final_path, fs2[tmp_path]));
            if k == 3 {
                assert(plan.take(3) =~= seq![plan[0], plan[1], plan[2]]);
                lemma_apply_three(fs, plan[0], plan[1], plan[2]);
                assert(cut == fs3);
                assert(cut.dom().contains(final_path) && cut[final_path] == data);
            } else {
                assert(k == 4);
                assert(plan.take(4) =~= seq![plan[0], plan[1], plan[2], plan[3]]);
                lemma_apply_four(fs, plan[0], plan[1], plan[2], plan[3]);
                let fs4 = apply_step(fs3, plan[3]);
                assert(fs4 == fs3.remove(aside_path));
                assert(cut == fs4);
                assert(cut.dom().contains(final_path) && cut[final_path] == data);
            }
        }
    }
}


/// The recovery steps after a rename into the final path failed: the
/// aside copy, if one was made, moves back into place, and the
/// temporary file goes.
pub open spec fn spec_recovery_plan(
    final_path: Seq<u8>,
    tmp_path: Seq<u8>,
    aside_path: Seq<u8>,
    aside_moved: bool,
) -> Seq<FsStepModel> {
    if aside_moved {
        seq![
            FsStepModel::Rename { from: aside_path, to: final_path },
            FsStepModel::Remove { path: tmp_path },
        ]
    } else {
        seq![FsStepModel::Remove { path: tmp_path }]
    }
}

/// Build the recovery plan for one failed materialization.
pub fn recovery_plan(
    final_path: &[u8],
    tmp_path: &[u8],
    aside_path: &[u8],
    aside_moved: bool,
) -> (r: Vec<FsStep>)
    ensures
        step_views(r@) == spec_recovery_plan(final_path@, tmp_path@, aside_path@, aside_moved),
{
    let mut out: Vec<FsStep> = Vec::new();
    if aside_moved {
        out.push(
            FsStep::Rename {
                from: crate::bytes::to_vec(aside_path),
                to: crate::bytes::to_vec(final_path),
            },
        );
    }
    out.push(FsStep::Remove { path: crate::bytes::to_vec(tmp_path) });
    proof {
        assert(step_views(out@) =~~= spec_recovery_plan(
            final_path@,
            tmp_path@,
            aside_path@,
            aside_moved,
        ));
    }
    out
}

/// A successful previous artifact is never lost: when the rename into
/// the final path fails — which in the model means the plan stopped
/// just before it, after `k` steps — running the recovery plan puts
/// the file system back exactly as it was, the old bytes again at the
/// final path and no staging file behind.
pub proof fn lemma_recovery_restores(
    fs: FsModel,
    final_path: Seq<u8>,
    tmp_path: Seq<u8>,
    aside_path: Seq<u8>,
    data: Seq<u8>,
    atomic_replace: bool,
    k: int,
)
    requires
        final_path != tmp_path,
        final_path != aside_path,
        tmp_path != aside_path,
        !fs.dom().contains(tmp_path),
        !fs.dom().contains(aside_path),
        fs.dom().contains(final_path),
        0 <= k <= (if atomic_replace {
            1int
        } else {
            2int
        }),
    ensures
        apply_steps(
            apply_steps(
                fs,
                spec_materialize_plan(
                    final_path,
                    tmp_path,
                    aside_path,
                    data,
                    atomic_replace,
                    true,
                ).take(k),
            ),
            spec_recovery_plan(final_path, tmp_path, aside_path, !atomic_replace && k >= 2),
        ) == fs,
{
    let plan = spec_materialize_plan(final_path, tmp_path, aside_path, data, atomic_replace, true);
    let cut = apply_steps(fs, plan.take(k));
    let fs1 = apply_step(fs, plan[0]);
    assert(fs1 == fs.insert(tmp_path, data));
    if k == 0 {
        assert(plan.take(0).len() == 0);
        assert(cut == fs);
        let rec = spec_recovery_plan(final_path, tmp_path, aside_path, false);
        lemma_apply_one(cut, rec[0]);
        assert(rec =~= seq![rec[0]]);
        assert(apply_steps(cut, rec) == cut.remove(tmp_path));
        assert(cut.remove(tmp_path) =~= fs);
    } else if k == 1 {
        assert(plan.take(1) =~= seq![plan[0]]);
        lemma_apply_one(fs, plan[0]);
        assert(cut == fs1);
        let rec = spec_recovery_plan(final_path, tmp_path, aside_path, false);
        lemma_apply_one(cut, rec[0]);
        assert(rec =~= seq![rec[0]]);
        assert(apply_steps(cut, rec) == cut.remove(tmp_path));
        assert(cut.remove(tmp_path) =~= fs);
    } else {
        assert(k == 2 && !atomic_replace);
        assert(plan.take(2) =~= seq![plan[0], plan[1]]);
        lemma_apply_two(fs, plan[0], plan[1]);
        let fs2 = apply_step(fs1, plan[1]);
        assert(fs1.dom().contains(final_path));
        assert(fs2 == fs1.remove(final_path).insert(aside_path, fs1[final_path]));
        assert(cut == fs2);
        let rec = spec_recovery_plan(final_path, tmp_path, aside_path, true);
        lemma_apply_two(cut, rec[0], rec[1]);
        assert(rec =~= seq![rec[0], rec[1]]);
        assert(cut.dom().contains(aside_path));
        let back = cut.remove(aside_path).insert(final_path, cut[aside_path]);
        assert(apply_steps(cut, rec) == back.remove(tmp_path));
        assert(back.remove(tmp_path) =~= fs);
    }
}

} // verus!
