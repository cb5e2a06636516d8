use tesseract_client::coordinator::advance_job;
use tesseract_client::coordinator::jobs_of_plan;
use tesseract_client::coordinator::CoordStep;
use tesseract_client::coordinator::JobStatus;
use tesseract_client::coordinator::assign_jobs;
use tesseract_client::coordinator::pick_least_loaded;
use tesseract_client::coordinator::plan_cluster;
use tesseract_client::graph::topo_order;

#[test]
fn a_chain_orders_dependencies_first() {
    // 0 depends on 1, 1 depends on 2.
    let adj = vec![vec![1], vec![2], vec![]];
    let order = topo_order(&adj).unwrap();
    assert_eq!(order, vec![2, 1, 0]);
}

#[test]
fn independent_nodes_keep_declaration_order() {
    let adj = vec![vec![], vec![], vec![]];
    let order = topo_order(&adj).unwrap();
    assert_eq!(order, vec![0, 1, 2]);
}

#[test]
fn a_diamond_orders_every_edge() {
    // 0 depends on 1 and 2; both depend on 3.
    let adj = vec![vec![1, 2], vec![3], vec![3], vec![]];
    let order = topo_order(&adj).unwrap();
    assert_eq!(order, vec![3, 1, 2, 0]);
    let pos = |v: usize| order.iter().position(|&x| x == v).unwrap();
    assert!(pos(3) < pos(1) && pos(3) < pos(2));
    assert!(pos(1) < pos(0) && pos(2) < pos(0));
}

#[test]
fn a_two_cycle_is_detected() {
    let adj = vec![vec![1], vec![0]];
    assert!(topo_order(&adj).is_err());
}

#[test]
fn a_self_loop_is_detected() {
    let adj = vec![vec![0]];
    assert!(topo_order(&adj).is_err());
}

#[test]
fn an_empty_graph_orders_trivially() {
    let adj: Vec<Vec<usize>> = Vec::new();
    assert_eq!(topo_order(&adj).unwrap(), Vec::<usize>::new());
}

#[test]
fn least_loaded_picks_the_first_minimum() {
    assert_eq!(pick_least_loaded(&vec![2, 1, 1, 3]), 1);
    assert_eq!(pick_least_loaded(&vec![0]), 0);
    assert_eq!(pick_least_loaded(&vec![5, 5, 5]), 0);
}

#[test]
fn greedy_assignment_cycles_through_equally_loaded_workers() {
    let a = assign_jobs(7, 3);
    assert_eq!(a, vec![0, 1, 2, 0, 1, 2, 0]);
}

#[test]
fn no_worker_gets_more_than_the_ceiling() {
    for &(jobs, workers) in &[(9usize, 3usize), (10, 3), (1, 4), (0, 2), (5, 1)] {
        let a = assign_jobs(jobs, workers);
        assert_eq!(a.len(), jobs);
        let ceiling = (jobs + workers - 1) / workers;
        for w in 0..workers {
            let got = a.iter().filter(|&&x| x == w).count();
            assert!(got <= ceiling, "{jobs} jobs on {workers}: worker {w} got {got}");
        }
    }
}

#[test]
fn the_cluster_plan_syncs_builds_and_publishes_in_order() {
    // 0 depends on 1.
    let adj = vec![vec![1], vec![]];
    let plan = plan_cluster(&adj, 2).unwrap();
    assert_eq!(plan.order, vec![1, 0]);
    assert_eq!(plan.workers_of, vec![0, 1]);
    assert_eq!(
        plan.steps,
        vec![
            CoordStep::SyncDeps { package: 1, worker: 0 },
            CoordStep::RemoteBuild { package: 1, worker: 0 },
            CoordStep::Publish { package: 1 },
            CoordStep::SyncDeps { package: 0, worker: 1 },
            CoordStep::RemoteBuild { package: 0, worker: 1 },
            CoordStep::Publish { package: 0 },
        ]
    );
}

#[test]
fn a_cyclic_workspace_is_never_planned() {
    let adj = vec![vec![1], vec![0]];
    assert!(plan_cluster(&adj, 2).is_err());
}

#[test]
fn every_build_follows_the_publishes_of_its_dependencies() {
    let adj = vec![vec![1, 2], vec![3], vec![3], vec![]];
    let plan = plan_cluster(&adj, 2).unwrap();
    for (t, step) in plan.steps.iter().enumerate() {
        if let CoordStep::RemoteBuild { package, .. } = step {
            for &dep in &adj[*package] {
                let published_before = plan.steps[..t]
                    .iter()
                    .any(|s| matches!(s, CoordStep::Publish { package: p } if *p == dep));
                assert!(published_before, "package {package} built before dep {dep}");
            }
        }
    }
}

#[test]
fn jobs_start_pending_on_their_assigned_workers() {
    let adj = vec![vec![1], vec![]];
    let plan = plan_cluster(&adj, 2).unwrap();
    let mut jobs = jobs_of_plan(&plan);
    assert_eq!(jobs.len(), 2);
    assert!(jobs.iter().all(|j| j.status == JobStatus::Pending));
    assert_eq!(jobs[0].package, 1);
    assert_eq!(jobs[0].worker, 0);

    advance_job(&mut jobs[0], &CoordStep::SyncDeps { package: 1, worker: 0 }, true);
    assert_eq!(jobs[0].status, JobStatus::Pending);
    advance_job(&mut jobs[0], &CoordStep::RemoteBuild { package: 1, worker: 0 }, true);
    assert_eq!(jobs[0].status, JobStatus::Building);
    advance_job(&mut jobs[0], &CoordStep::Publish { package: 1 }, true);
    assert_eq!(jobs[0].status, JobStatus::Complete);

    advance_job(&mut jobs[1], &CoordStep::RemoteBuild { package: 0, worker: 1 }, false);
    assert_eq!(jobs[1].status, JobStatus::Failed);
}
