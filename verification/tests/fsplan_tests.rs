use std::collections::HashMap;

use tesseract_client::fsplan::FsStep;
use tesseract_client::fsplan::artifact_target_path;
use tesseract_client::fsplan::aside_path_for;
use tesseract_client::fsplan::decimal_digits;
use tesseract_client::fsplan::materialize_plan;
use tesseract_client::fsplan::recovery_plan;
use tesseract_client::fsplan::temp_path_for;

/// The plan steps run against an in-memory file system, as the caller
/// runs them against the real one.
fn run_plan(fs: &mut HashMap<Vec<u8>, Vec<u8>>, plan: &[FsStep], upto: usize) {
    for step in &plan[..upto] {
        match step {
            FsStep::Write { path, data } => {
                fs.insert(path.clone(), data.clone());
            }
            FsStep::Rename { from, to } => {
                if let Some(v) = fs.remove(from) {
                    fs.insert(to.clone(), v);
                }
            }
            FsStep::Remove { path } => {
                fs.remove(path);
            }
        }
    }
}

#[test]
fn artifact_paths_follow_the_profile_layout() {
    let p = artifact_target_path(b"/ws", &None, false, b"alpha");
    assert_eq!(p, b"/ws/target/debug/alpha".to_vec());
    let p = artifact_target_path(b"/ws", &None, true, b"alpha");
    assert_eq!(p, b"/ws/target/release/alpha".to_vec());
    let p = artifact_target_path(
        b"/ws",
        &Some(b"x86_64-pc-windows-msvc".to_vec()),
        true,
        b"alpha.exe",
    );
    assert_eq!(p, b"/ws/target/x86_64-pc-windows-msvc/release/alpha.exe".to_vec());
}

#[test]
fn decimal_digits_render_exactly() {
    assert_eq!(decimal_digits(0), b"0".to_vec());
    assert_eq!(decimal_digits(7), b"7".to_vec());
    assert_eq!(decimal_digits(90210), b"90210".to_vec());
    assert_eq!(decimal_digits(u64::MAX), b"18446744073709551615".to_vec());
}

#[test]
fn staging_paths_sit_beside_the_final_path() {
    assert_eq!(temp_path_for(b"target/debug/a", 42), b"target/debug/a.42.tmp".to_vec());
    assert_eq!(aside_path_for(b"target/debug/a", 42), b"target/debug/a.42.old".to_vec());
}

#[test]
fn materialization_writes_the_bytes_and_cleans_up() {
    for &(atomic, preexisting) in
        &[(true, true), (true, false), (false, true), (false, false)]
    {
        let fin = b"t/debug/a".to_vec();
        let tmp = temp_path_for(&fin, 1);
        let aside = aside_path_for(&fin, 1);
        let mut fs: HashMap<Vec<u8>, Vec<u8>> = HashMap::new();
        fs.insert(b"t/debug/other".to_vec(), b"keep me".to_vec());
        if preexisting {
            fs.insert(fin.clone(), b"old bytes".to_vec());
        }
        let plan = materialize_plan(&fin, &tmp, &aside, b"new bytes", atomic, preexisting);
        let upto = plan.len();
        run_plan(&mut fs, &plan, upto);
        assert_eq!(fs.get(&fin), Some(&b"new bytes".to_vec()));
        assert!(!fs.contains_key(&tmp), "stray temporary file");
        assert!(!fs.contains_key(&aside), "stray aside file");
        assert_eq!(fs.get(&b"t/debug/other".to_vec()), Some(&b"keep me".to_vec()));
        assert_eq!(fs.len(), 2);
    }
}

#[test]
fn writing_identical_bytes_twice_changes_nothing() {
    let fin = b"t/debug/a".to_vec();
    let tmp = temp_path_for(&fin, 9);
    let aside = aside_path_for(&fin, 9);
    let mut fs: HashMap<Vec<u8>, Vec<u8>> = HashMap::new();
    let first = materialize_plan(&fin, &tmp, &aside, b"bytes", false, false);
    run_plan(&mut fs, &first, first.len());
    let after_once = fs.clone();
    let second = materialize_plan(&fin, &tmp, &aside, b"bytes", false, true);
    run_plan(&mut fs, &second, second.len());
    assert_eq!(fs, after_once);
}

#[test]
fn interrupting_before_the_rename_leaves_the_old_artifact() {
    let fin = b"t/debug/a".to_vec();
    let tmp = temp_path_for(&fin, 3);
    let aside = aside_path_for(&fin, 3);
    let mut fs: HashMap<Vec<u8>, Vec<u8>> = HashMap::new();
    fs.insert(fin.clone(), b"old".to_vec());
    let plan = materialize_plan(&fin, &tmp, &aside, b"new", true, true);
    run_plan(&mut fs, &plan, 1);
    assert_eq!(fs.get(&fin), Some(&b"old".to_vec()));
}

#[test]
fn the_fallback_plan_never_loses_the_old_artifact() {
    let fin = b"t/debug/a".to_vec();
    let tmp = temp_path_for(&fin, 3);
    let aside = aside_path_for(&fin, 3);
    let plan = materialize_plan(&fin, &tmp, &aside, b"new", false, true);
    assert_eq!(plan.len(), 4);
    for upto in 0..=plan.len() {
        let mut fs: HashMap<Vec<u8>, Vec<u8>> = HashMap::new();
        fs.insert(fin.clone(), b"old".to_vec());
        run_plan(&mut fs, &plan, upto);
        let old_at_final = fs.get(&fin) == Some(&b"old".to_vec());
        let old_at_aside = fs.get(&aside) == Some(&b"old".to_vec());
        let new_at_final = fs.get(&fin) == Some(&b"new".to_vec());
        assert!(
            old_at_final || old_at_aside || new_at_final,
            "artifact lost at cut {upto}"
        );
    }
}

#[test]
fn recovery_moves_the_aside_copy_back_and_drops_the_temp() {
    let fin = b"t/debug/a".to_vec();
    let tmp = temp_path_for(&fin, 5);
    let aside = aside_path_for(&fin, 5);
    let rec = recovery_plan(&fin, &tmp, &aside, true);
    assert_eq!(rec.len(), 2);
    assert!(matches!(&rec[0], FsStep::Rename { from, to } if *from == aside && *to == fin));
    assert!(matches!(&rec[1], FsStep::Remove { path } if *path == tmp));
    let rec = recovery_plan(&fin, &tmp, &aside, false);
    assert_eq!(rec.len(), 1);
    assert!(matches!(&rec[0], FsStep::Remove { path } if *path == tmp));
}

#[test]
fn a_failed_final_rename_is_recovered_without_losing_the_artifact() {
    let fin = b"t/debug/a".to_vec();
    let tmp = temp_path_for(&fin, 5);
    let aside = aside_path_for(&fin, 5);
    let mut fs: HashMap<Vec<u8>, Vec<u8>> = HashMap::new();
    fs.insert(fin.clone(), b"old".to_vec());
    let original = fs.clone();
    // The fallback plan stops just before the rename into place: the
    // old file sits aside, the new bytes sit in the temporary file.
    let plan = materialize_plan(&fin, &tmp, &aside, b"new", false, true);
    run_plan(&mut fs, &plan, 2);
    assert_eq!(fs.get(&aside), Some(&b"old".to_vec()));
    assert!(!fs.contains_key(&fin));
    // Recovery restores the file system exactly.
    let rec = recovery_plan(&fin, &tmp, &aside, true);
    run_plan(&mut fs, &rec, rec.len());
    assert_eq!(fs, original);
}

#[test]
fn a_failure_before_any_rename_is_recovered_by_cleanup_alone() {
    let fin = b"t/debug/a".to_vec();
    let tmp = temp_path_for(&fin, 5);
    let aside = aside_path_for(&fin, 5);
    for cut in 0..=1usize {
        let mut fs: HashMap<Vec<u8>, Vec<u8>> = HashMap::new();
        fs.insert(fin.clone(), b"old".to_vec());
        let original = fs.clone();
        let plan = materialize_plan(&fin, &tmp, &aside, b"new", true, true);
        run_plan(&mut fs, &plan, cut);
        let rec = recovery_plan(&fin, &tmp, &aside, false);
        run_plan(&mut fs, &rec, rec.len());
        assert_eq!(fs, original);
    }
}
