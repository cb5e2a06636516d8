//! The cluster coordinator: a safe order over the dependency graph,
//! one worker per package by current load, and the cache traffic
//! around each remote build.
//!
//! Assignment is a single greedy pass in build order: each package
//! goes to the worker holding the fewest in-flight jobs, ties broken
//! by worker declaration order, and that worker's counter only ever
//! rises — there is no re-balancing and no release mid-run. Before a
//! package builds, its dependencies' cache entries are synchronized to
//! the assigned worker; after it builds, its artifacts are published
//! back, so every dependent scheduled later finds them.

use vstd::prelude::*;

use crate::graph::idx_views;
use crate::graph::spec_acyclic;
use crate::graph::spec_deps_before;
use crate::graph::spec_in_order;
use crate::graph::spec_is_topo_order;
use crate::graph::spec_wf_adj;
use crate::graph::topo_order;

verus! {

/// A remote build worker: its address, a capacity hint, and the count
/// of jobs assigned so far. The count only rises during a run.
pub struct WorkerNode {
    pub host: Vec<u8>,
    pub capacity: u64,
    pub load: u64,
}

/// How often `v` occurs in `s`.
pub open spec fn spec_count_occ(s: Seq<usize>, v: int) -> int
    decreases s.len(),
{
    if s.len() == 0 {
        0
    } else {
        spec_count_occ(s.drop_last(), v) + if s.last() == v {
            1int
        } else {
            0int
        }
    }
}

/// The total of the occurrence counts of every value below `w`.
pub open spec fn spec_total_occ(s: Seq<usize>, w: int) -> int
    decreases w,
{
    if w <= 0 {
        0
    } else {
        spec_total_occ(s, w - 1) + spec_count_occ(s, w - 1)
    }
}

/// Appending one value below `w` raises the total by one.
proof fn lemma_total_push(s: Seq<usize>, x: usize, w: int)
    requires
        0 <= x < w,
    ensures
        spec_total_occ(s.push(x), w) == spec_total_occ(s, w) + 1,
    decreases w,
{
    assert(s.push(x).drop_last() =~= s);
    if w > 0 {
        if x < w - 1 {
            lemma_total_push(s, x, w - 1);
        } else {
            assert(spec_total_occ(s.push(x), w - 1) == spec_total_occ(s, w - 1)) by {
                lemma_total_stable(s, x, w - 1);
            }
        }
    }
}

/// Appending a value at or above `w` leaves the total below `w` alone.
proof fn lemma_total_stable(s: Seq<usize>, x: usize, w: int)
    requires
        x >= w,
    ensures
        spec_total_occ(s.push(x), w) == spec_total_occ(s, w),
    decreases w,
{
    assert(s.push(x).drop_last() =~= s);
    if w > 0 {
        lemma_total_stable(s, x, w - 1);
    }
}

/// A list whose values all lie below `w` is counted in full.
proof fn lemma_total_is_len(s: Seq<usize>, w: int)
    requires
        forall|k: int| 0 <= k < s.len() ==> (#[trigger] s[k]) < w,
        0 <= w,
    ensures
        spec_total_occ(s, w) == s.len(),
    decreases s.len(),
{
    if s.len() == 0 {
        assert(s =~= Seq::<usize>::empty());
        lemma_total_empty(w);
    } else {
        let head = s.drop_last();
        assert forall|k: int| 0 <= k < head.len() implies (#[trigger] head[k]) < w by {
            assert(s[k] < w);
        }
        lemma_total_is_len(head, w);
        assert(s[s.len() - 1] < w);
        lemma_total_push(head, s.last(), w);
        assert(spec_total_occ(head.push(s.last()), w) == head.len() + 1);
        assert(head.push(s.last()) =~= s);
        assert(spec_total_occ(s, w) == spec_total_occ(head.push(s.last()), w));
        assert(spec_total_occ(s, w) == s.len());
    }
}

/// An empty list has total zero.
proof fn lemma_total_empty(w: int)
    ensures
        spec_total_occ(Seq::<usize>::empty(), w) == 0,
    decreases w,
{
    if w > 0 {
        lemma_total_empty(w - 1);
    }
}

/// When every count is at least `m`, the total is at least `m * w`.
proof fn lemma_total_lower_bound(s: Seq<usize>, w: int, m: int)
    requires
        0 <= w,
        forall|v: int| 0 <= v < w ==> spec_count_occ(s, v) >= m,
    ensures
        spec_total_occ(s, w) >= m * w,
    decreases w,
{
    if w <= 0 {
        assert(m * w == 0) by (nonlinear_arith)
            requires
                w == 0,
        ;
    } else {
        lemma_total_lower_bound(s, w - 1, m);
        assert(m * w == m * (w - 1) + m) by (nonlinear_arith);
    }
}

/// Is `c` the worker the greedy pass picks after the assignments
/// `prior`: the first index with the fewest assignments so far?
pub open spec fn spec_greedy_pick(prior: Seq<usize>, w: int, c: int) -> bool {
    &&& 0 <= c < w
    &&& forall|v: int| 0 <= v < w ==> spec_count_occ(prior, c) <= spec_count_occ(prior, v)
    &&& forall|v: int| 0 <= v < c ==> spec_count_occ(prior, v) > spec_count_occ(prior, c)
}

/// The index of the least-loaded worker, lowest index on ties.
pub fn pick_least_loaded(loads: &Vec<u64>) -> (r: usize)
    requires
        loads.len() >= 1,
    ensures
        r < loads.len(),
        forall|j: int| 0 <= j < loads.len() ==> loads[r as int] <= (#[trigger] loads[j]),
        forall|j: int| 0 <= j < r ==> (#[trigger] loads[j]) > loads[r as int],
{
    let mut best: usize = 0;
    let mut i: usize = 1;
    while i < loads.len()
        invariant
            loads.len() >= 1,
            0 <= best < i <= loads.len(),
            forall|j: int| 0 <= j < i ==> loads[best as int] <= (#[trigger] loads[j]),
            forall|j: int| 0 <= j < best ==> (#[trigger] loads[j]) > loads[best as int],
        decreases loads.len() - i,
    {
        if loads[i] < loads[best] {
            best = i;
        }
        i = i + 1;
    }
    best
}

/// Assign `count` equal-cost jobs to `w` workers that start equally
/// loaded: each to the first least-loaded worker in turn.
///
/// Fairness: no worker ends with more than the ceiling of `count / w`
/// jobs.
pub fn assign_jobs(count: usize, w: usize) -> (r: Vec<usize>)
    requires
        1 <= w,
        count < usize::MAX,
    ensures
        r.len() == count,
        forall|k: int| 0 <= k < count ==> (#[trigger] r[k]) < w,
        forall|k: int|
            0 <= k < count ==> spec_greedy_pick(r@.take(k), w as int, (#[trigger] r@[k]) as int),
        forall|v: int|
            0 <= v < w ==> spec_count_occ(r@, v) <= (count + w - 1) as int / (w as int),
{
    let mut loads: Vec<u64> = Vec::new();
    let mut z: usize = 0;
    while z < w
        invariant
            0 <= z <= w,
            loads.len() == z,
            forall|v: int| 0 <= v < z ==> (#[trigger] loads@[v]) == 0,
        decreases w - z,
    {
        loads.push(0u64);
        z = z + 1;
    }
    let mut out: Vec<usize> = Vec::new();
    proof {
        assert forall|v: int| 0 <= v < w implies spec_count_occ(out@, v) == 0 by {
            assert(out@.len() == 0);
        }
    }
    let mut k: usize = 0;
    while k < count
        invariant
            1 <= w,
            count < usize::MAX,
            0 <= k <= count,
            loads.len() == w,
            out.len() == k,
            forall|v: int|
                0 <= v < w ==> (#[trigger] loads@[v]) as int == spec_count_occ(out@, v),
            forall|j: int| 0 <= j < k ==> (#[trigger] out@[j]) < w,
            forall|j: int|
                0 <= j < k ==> spec_greedy_pick(
                    out@.take(j),
                    w as int,
                    (#[trigger] out@[j]) as int,
                ),
            forall|v: int|
                0 <= v < w ==> spec_count_occ(out@, v) <= (k + w - 1) as int / (w as int),
        decreases count - k,
    {
        let c = pick_least_loaded(&loads);
        let ghost prior = out@;
        proof {
            assert forall|v: int|
                0 <= v < w implies spec_count_occ(prior, c as int) <= spec_count_occ(prior, v) by {
                assert(loads@[c as int] <= loads@[v]);
            }
            assert forall|v: int|
                0 <= v < c implies spec_count_occ(prior, v) > spec_count_occ(prior, c as int) by {
                assert(loads@[v] > loads@[c as int]);
            }
            assert(spec_greedy_pick(prior, w as int, c as int));
            assert(loads@[c as int] as int <= (k as int) / (w as int)) by {
                let m = loads@[c as int] as int;
                if m > (k as int) / (w as int) {
                    assert forall|v: int| 0 <= v < w implies spec_count_occ(prior, v) >= m by {
                        assert(loads@[c as int] <= loads@[v]);
                    }
                    lemma_total_lower_bound(prior, w as int, m);
                    lemma_total_is_len(prior, w as int);
                    assert(m * w >= ((k as int) / (w as int) + 1) * w) by (nonlinear_arith)
                        requires
                            m >= (k as int) / (w as int) + 1,
                            w >= 1,
                    ;
                    assert(((k as int) / (w as int) + 1) * (w as int) > k as int)
                        by (nonlinear_arith)
                        requires
                            w >= 1,
                            k >= 0,
                    ;
                }
            }
        }
        loads[c] = loads[c] + 1;
        out.push(c);
        k = k + 1;
        proof {
            assert(out@.drop_last() =~= prior);
            assert(out@.last() == c);
            assert(out@.take(k - 1) =~= prior);
            assert forall|v: int|
                0 <= v < w implies (#[trigger] loads@[v]) as int == spec_count_occ(out@, v) by {}
            assert forall|j: int|
                0 <= j < k implies spec_greedy_pick(
                out@.take(j),
                w as int,
                (#[trigger] out@[j]) as int,
            ) by {
                if j < k - 1 {
                    assert(out@.take(j) =~= prior.take(j));
                    assert(out@[j] == prior[j]);
                }
            }
            assert forall|v: int|
                0 <= v < w implies spec_count_occ(out@, v) <= (k + w - 1) as int / (w as int) by {
                let kk = k as int;
                let ww = w as int;
                if v == c as int {
                    assert(spec_count_occ(out@, v) <= (kk - 1) / ww + 1);
                    assert((kk - 1) / ww + 1 == (kk - 1 + ww) / ww) by (nonlinear_arith)
                        requires
                            ww >= 1,
                    ;
                } else {
                    assert(spec_count_occ(out@, v) == spec_count_occ(prior, v));
                    assert((kk - 1 + ww - 1) / ww <= (kk + ww - 1) / ww) by (nonlinear_arith)
                        requires
                            ww >= 1,
                            kk >= 1,
                    ;
                }
            }
        }
    }
    proof {
        assert(out@.len() == count);
    }
    out
}

/// One step of the coordinator's run.
#[derive(PartialEq, Eq, Structural, Clone, Copy, Debug)]
pub enum CoordStep {
    /// Bring the cache entries of `package`'s already-built
    /// dependencies into `worker`'s build area.
    SyncDeps { package: usize, worker: usize },
    /// Run the remote build of `package` on `worker`; a non-zero
    /// outcome is fatal to the whole run.
    RemoteBuild { package: usize, worker: usize },
    /// Publish `package`'s new artifacts into the shared cache.
    Publish { package: usize },
}

/// The coordinator's step sequence: for each package in build order, a
/// sync, the remote build, and the publish.
pub open spec fn spec_cluster_steps(order: Seq<usize>, ws: Seq<usize>) -> Seq<CoordStep>
    decreases order.len(),
{
    if order.len() == 0 {
        Seq::empty()
    } else {
        spec_cluster_steps(order.drop_last(), ws.drop_last()) + seq![
            CoordStep::SyncDeps { package: order.last(), worker: ws.last() },
            CoordStep::RemoteBuild { package: order.last(), worker: ws.last() },
            CoordStep::Publish { package: order.last() },
        ]
    }
}

/// Where each package's three steps stand in the sequence.
proof fn lemma_cluster_step_positions(order: Seq<usize>, ws: Seq<usize>)
    requires
        order.len() == ws.len(),
    ensures
        spec_cluster_steps(order, ws).len() == 3 * order.len(),
        forall|k: int|
            0 <= k < order.len() ==> spec_cluster_steps(order, ws)[3 * k]
                == (CoordStep::SyncDeps { package: order[k], worker: ws[k] })
                && spec_cluster_steps(order, ws)[3 * k + 1] == (CoordStep::RemoteBuild {
                package: order[k],
                worker: ws[k],
            }) && spec_cluster_steps(order, ws)[3 * k + 2] == (CoordStep::Publish {
                package: order[k],
            }),
    decreases order.len(),
{
    if order.len() > 0 {
        lemma_cluster_step_positions(order.drop_last(), ws.drop_last());
        assert forall|k: int|
            0 <= k < order.len() implies spec_cluster_steps(order, ws)[3 * k]
            == (CoordStep::SyncDeps { package: order[k], worker: ws[k] }) && spec_cluster_steps(
            order,
            ws,
        )[3 * k + 1] == (CoordStep::RemoteBuild { package: order[k], worker: ws[k] })
            && spec_cluster_steps(order, ws)[3 * k + 2] == (CoordStep::Publish {
            package: order[k],
        }) by {
            if k < order.len() - 1 {
                assert(order.drop_last()[k] == order[k]);
                assert(ws.drop_last()[k] == ws[k]);
            }
        }
    }
}

/// The run invariant: a package's remote build is always preceded by a
/// publish of every package it depends on.
pub proof fn lemma_publish_precedes_build(
    adj: Seq<Seq<usize>>,
    order: Seq<usize>,
    ws: Seq<usize>,
    k: int,
    j: int,
)
    requires
        spec_is_topo_order(adj, order),
        order.len() == ws.len(),
        0 <= k < order.len(),
        0 <= j < adj[order[k] as int].len(),
    ensures
        exists|s: int|
            0 <= s < 3 * k + 1 && spec_cluster_steps(order, ws)[s] == (CoordStep::Publish {
                package: adj[order[k] as int][j],
            }),
{
    lemma_cluster_step_positions(order, ws);
    assert(spec_deps_before(adj, order, k));
    let d = adj[order[k] as int][j];
    assert(spec_in_order(order.take(k), d as int));
    let m = choose|m: int| 0 <= m < order.take(k).len() && (#[trigger] order.take(k)[m]) == d;
    assert(order[m] == d);
    assert(spec_cluster_steps(order, ws)[3 * m + 2] == (CoordStep::Publish { package: d }));
    assert(3 * m + 2 < 3 * k + 1);
}

/// A coordinator run, fully planned: the build order, the worker of
/// each ordered package, and the step sequence.
pub struct ClusterPlan {
    /// The packages in the order they build.
    pub order: Vec<usize>,
    /// The worker assigned to each ordered package.
    pub workers_of: Vec<usize>,
    /// The steps of the run, three per package.
    pub steps: Vec<CoordStep>,
}

/// Plan a whole cluster run over `adj` with `num_workers` workers.
///
/// Fails with the index of an unorderable package when the graph has a
/// cycle; such a workspace is never built.
pub fn plan_cluster(adj: &Vec<Vec<usize>>, num_workers: usize) -> (r: Result<ClusterPlan, usize>)
    requires
        spec_wf_adj(idx_views(adj@)),
        1 <= num_workers,
        adj.len() < usize::MAX,
    ensures
        match r {
            Result::Ok(p) => {
                &&& spec_is_topo_order(idx_views(adj@), p.order@)
                &&& p.workers_of.len() == p.order.len()
                &&& forall|k: int|
                    0 <= k < p.order.len() ==> spec_greedy_pick(
                        p.workers_of@.take(k),
                        num_workers as int,
                        (#[trigger] p.workers_of@[k]) as int,
                    )
                &&& forall|v: int|
                    0 <= v < num_workers ==> spec_count_occ(p.workers_of@, v) <= (adj.len()
                        + num_workers - 1) as int / (num_workers as int)
                &&& p.steps@ == spec_cluster_steps(p.order@, p.workers_of@)
            },
            Result::Err(i) => i < adj.len() && !spec_acyclic(idx_views(adj@)),
        },
{
    let order = match topo_order(adj) {
        Result::Ok(o) => o,
        Result::Err(i) => {
            return Result::Err(i);
        },
    };
    let workers_of = assign_jobs(order.len(), num_workers);
    let mut steps: Vec<CoordStep> = Vec::new();
    let n = order.len();
    let mut k: usize = 0;
    proof {
        assert(order@.take(0) =~= Seq::<usize>::empty());
        assert(workers_of@.take(0) =~= Seq::<usize>::empty());
    }
    while k < n
        invariant
            n == order.len() == workers_of.len(),
            0 <= k <= n,
            steps@ == spec_cluster_steps(order@.take(k as int), workers_of@.take(k as int)),
        decreases n - k,
    {
        let ghost pre_order = order@.take(k as int);
        let ghost pre_ws = workers_of@.take(k as int);
        let p = order[k];
        let w = workers_of[k];
        steps.push(CoordStep::SyncDeps { package: p, worker: w });
        steps.push(CoordStep::RemoteBuild { package: p, worker: w });
        steps.push(CoordStep::Publish { package: p });
        k = k + 1;
        proof {
            let cur_order = order@.take(k as int);
            let cur_ws = workers_of@.take(k as int);
            assert(cur_order.drop_last() =~= pre_order);
            assert(cur_ws.drop_last() =~= pre_ws);
            assert(cur_order.last() == p);
            assert(cur_ws.last() == w);
            assert(steps@ =~= spec_cluster_steps(cur_order, cur_ws));
        }
    }
    proof {
        assert(order@.take(n as int) =~= order@);
        assert(workers_of@.take(n as int) =~= workers_of@);
    }
    Result::Ok(ClusterPlan { order, workers_of, steps })
}


/// How far one scheduled package has come.
#[derive(PartialEq, Eq, Structural, Clone, Copy, Debug)]
pub enum JobStatus {
    /// Scheduled, not yet building.
    Pending,
    /// Its remote build is running or ran successfully, not yet
    /// published.
    Building,
    /// Its artifacts are in the shared cache.
    Complete,
    /// Its remote build failed; the whole run is over.
    Failed,
}

/// One scheduled package: its node, its assigned worker, and how far
/// it has come. Created at schedule time, changed only by the
/// coordinator's performed steps, discarded at run end.
#[derive(PartialEq, Eq, Structural, Clone, Copy, Debug)]
pub struct BuildJob {
    pub package: usize,
    pub worker: usize,
    pub status: JobStatus,
}

/// The jobs of a plan: one per ordered package, pending on its
/// assigned worker.
pub fn jobs_of_plan(p: &ClusterPlan) -> (r: Vec<BuildJob>)
    requires
        p.workers_of.len() == p.order.len(),
    ensures
        r.len() == p.order.len(),
        forall|k: int|
            0 <= k < r.len() ==> (#[trigger] r@[k]) == (BuildJob {
                package: p.order@[k],
                worker: p.workers_of@[k],
                status: JobStatus::Pending,
            }),
{
    let mut out: Vec<BuildJob> = Vec::new();
    let n = p.order.len();
    let mut k: usize = 0;
    while k < n
        invariant
            n == p.order.len() == p.workers_of.len(),
            0 <= k <= n,
            out.len() == k,
            forall|m: int|
                0 <= m < k ==> (#[trigger] out@[m]) == (BuildJob {
                    package: p.order@[m],
                    worker: p.workers_of@[m],
                    status: JobStatus::Pending,
                }),
        decreases n - k,
    {
        out.push(
            BuildJob { package: p.order[k], worker: p.workers_of[k], status: JobStatus::Pending },
        );
        k = k + 1;
    }
    out
}

/// Where a performed step leaves its package's job: a sync changes
/// nothing, a remote build puts it in `Building` or, on a non-zero
/// outcome, `Failed`, and a publish completes a built package.
pub open spec fn spec_job_after(s: JobStatus, step: CoordStep, build_ok: bool) -> JobStatus {
    match step {
        CoordStep::SyncDeps { .. } => s,
        CoordStep::RemoteBuild { .. } => if build_ok {
            JobStatus::Building
        } else {
            JobStatus::Failed
        },
        CoordStep::Publish { .. } => if s == JobStatus::Building {
            JobStatus::Complete
        } else {
            s
        },
    }
}

/// Record one performed step on its package's job.
pub fn advance_job(job: &mut BuildJob, step: &CoordStep, build_ok: bool)
    ensures
        final(job).package == old(job).package,
        final(job).worker == old(job).worker,
        final(job).status == spec_job_after(old(job).status, *step, build_ok),
{
    match step {
        CoordStep::SyncDeps { .. } => {},
        CoordStep::RemoteBuild { .. } => {
            if build_ok {
                job.status = JobStatus::Building;
            } else {
                job.status = JobStatus::Failed;
            }
        },
        CoordStep::Publish { .. } => {
            if job.status == JobStatus::Building {
                job.status = JobStatus::Complete;
            }
        },
    }
}

} // verus!
