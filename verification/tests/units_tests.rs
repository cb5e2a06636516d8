use tesseract_client::codec::BuildUnit;
use tesseract_client::errors::ClientError;
use tesseract_client::units::PackageMeta;
use tesseract_client::units::TargetMeta;
use tesseract_client::units::assemble_unit;
use tesseract_client::units::build_graph;
use tesseract_client::units::order_units;

fn unit(name: &[u8], deps: &[&[u8]]) -> BuildUnit {
    BuildUnit {
        package_name: name.to_vec(),
        dependencies: deps.iter().map(|d| d.to_vec()).collect(),
        source_files: Vec::new(),
        artifacts: Vec::new(),
    }
}

#[test]
fn a_unit_collects_manifests_rust_sources_and_artifact_names() {
    let p = PackageMeta {
        name: b"alpha".to_vec(),
        manifest_path: b"/ws/alpha/Cargo.toml".to_vec(),
        dependency_names: vec![b"beta".to_vec()],
        targets: vec![
            TargetMeta {
                name: b"alpha".to_vec(),
                kinds: vec![b"lib".to_vec()],
                src_files: vec![
                    b"/ws/alpha/src/lib.rs".to_vec(),
                    b"/ws/alpha/src/notes.md".to_vec(),
                    b"/ws/alpha/src/util.rs".to_vec(),
                ],
            },
            TargetMeta {
                name: b"bench_only".to_vec(),
                kinds: vec![b"bench".to_vec()],
                src_files: vec![b"/ws/alpha/benches/b.rs".to_vec()],
            },
        ],
    };
    let wsm = Some(b"/ws/Cargo.toml".to_vec());
    let u = assemble_unit(&p, &wsm);
    assert_eq!(u.package_name, b"alpha".to_vec());
    assert_eq!(u.dependencies, vec![b"beta".to_vec()]);
    assert_eq!(
        u.source_files,
        vec![
            b"/ws/alpha/Cargo.toml".to_vec(),
            b"/ws/Cargo.toml".to_vec(),
            b"/ws/alpha/src/lib.rs".to_vec(),
            b"/ws/alpha/src/util.rs".to_vec(),
        ]
    );
    assert_eq!(u.artifacts, vec![b"alpha".to_vec()]);
}

#[test]
fn a_binary_target_is_buildable_too() {
    let p = PackageMeta {
        name: b"tool".to_vec(),
        manifest_path: b"tool/Cargo.toml".to_vec(),
        dependency_names: Vec::new(),
        targets: vec![TargetMeta {
            name: b"tool".to_vec(),
            kinds: vec![b"bin".to_vec()],
            src_files: vec![b"tool/src/main.rs".to_vec()],
        }],
    };
    let u = assemble_unit(&p, &None);
    assert_eq!(u.source_files, vec![b"tool/Cargo.toml".to_vec(), b"tool/src/main.rs".to_vec()]);
    assert_eq!(u.artifacts, vec![b"tool".to_vec()]);
}

#[test]
fn the_dependency_graph_maps_names_to_indices() {
    let units = vec![
        unit(b"a", &[b"b", b"serde"]),
        unit(b"b", &[]),
        unit(b"c", &[b"a", b"b"]),
    ];
    let adj = build_graph(&units);
    assert_eq!(adj, vec![vec![1], vec![], vec![0, 1]]);
}

#[test]
fn discovery_orders_a_before_its_dependent() {
    let units = vec![unit(b"b", &[b"a"]), unit(b"a", &[])];
    let ordered = order_units(&units).unwrap();
    let names: Vec<Vec<u8>> = ordered.iter().map(|u| u.package_name.clone()).collect();
    assert_eq!(names, vec![b"a".to_vec(), b"b".to_vec()]);
}

#[test]
fn discovery_keeps_an_already_safe_order() {
    let units = vec![unit(b"a", &[]), unit(b"b", &[b"a"])];
    let ordered = order_units(&units).unwrap();
    let names: Vec<Vec<u8>> = ordered.iter().map(|u| u.package_name.clone()).collect();
    assert_eq!(names, vec![b"a".to_vec(), b"b".to_vec()]);
}

#[test]
fn a_dependency_cycle_fails_discovery_naming_a_package() {
    let units = vec![unit(b"a", &[b"b"]), unit(b"b", &[b"a"])];
    match order_units(&units) {
        Err(ClientError::GraphCycle { package }) => {
            assert!(package == b"a".to_vec() || package == b"b".to_vec());
        }
        _ => panic!("expected a cycle failure"),
    }
}

#[test]
fn no_selector_keeps_every_unit() {
    let units = vec![unit(b"a", &[]), unit(b"b", &[])];
    let kept = tesseract_client::units::filter_units(&units, &None);
    let names: Vec<Vec<u8>> = kept.iter().map(|u| u.package_name.clone()).collect();
    assert_eq!(names, vec![b"a".to_vec(), b"b".to_vec()]);
}

#[test]
fn a_selector_keeps_exactly_the_named_package() {
    let units = vec![unit(b"a", &[]), unit(b"b", &[]), unit(b"c", &[])];
    let kept = tesseract_client::units::filter_units(&units, &Some(b"b".to_vec()));
    assert_eq!(kept.len(), 1);
    assert_eq!(kept[0].package_name, b"b".to_vec());
    let none = tesseract_client::units::filter_units(&units, &Some(b"zz".to_vec()));
    assert!(none.is_empty());
}
