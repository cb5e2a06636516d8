use std::io::Read;

use tesseract_client::archive::FileEntry;
use tesseract_client::archive::build_archive;
use tesseract_client::archive::compress_archive;
use tesseract_client::archive::find_package_root;
use tesseract_client::archive::manifest_files;
use tesseract_client::archive::outermost_dir;
use tesseract_client::archive::parent_dir;
use tesseract_client::archive::select_files;
use tesseract_client::errors::ClientError;
use tesseract_client::ignore::IgnoreSet;

fn entry(path: &[u8], data: &[u8]) -> FileEntry {
    FileEntry { path: path.to_vec(), data: data.to_vec() }
}

/// Unpack a produced archive with the same crates the packer relies on.
fn unpack(bytes: &[u8]) -> Vec<(String, Vec<u8>)> {
    let gz = flate2::read::GzDecoder::new(bytes);
    let mut ar = tar::Archive::new(gz);
    let mut out = Vec::new();
    for e in ar.entries().unwrap() {
        let mut e = e.unwrap();
        let path = e.path().unwrap().to_string_lossy().into_owned();
        let mut data = Vec::new();
        e.read_to_end(&mut data).unwrap();
        out.push((path, data));
    }
    out
}

#[test]
fn manifest_files_are_those_named_cargo_toml() {
    let files = vec![
        b"/ws/Cargo.toml".to_vec(),
        b"/ws/a/src/main.rs".to_vec(),
        b"/ws/a/Cargo.toml".to_vec(),
        b"/ws/a/NotCargo.toml".to_vec(),
    ];
    let m = manifest_files(&files);
    assert_eq!(m, vec![b"/ws/Cargo.toml".to_vec(), b"/ws/a/Cargo.toml".to_vec()]);
}

#[test]
fn parent_dir_drops_the_last_segment() {
    assert_eq!(parent_dir(b"/ws/a/Cargo.toml"), b"/ws/a".to_vec());
    assert_eq!(parent_dir(b"Cargo.toml"), b"".to_vec());
    assert_eq!(parent_dir(b"a/b"), b"a".to_vec());
}

#[test]
fn the_outermost_manifest_directory_wins() {
    let dirs = vec![b"/ws/a/deep".to_vec(), b"/ws".to_vec(), b"/ws/a".to_vec()];
    assert_eq!(outermost_dir(&dirs), Some(1));
    assert_eq!(outermost_dir(&Vec::new()), None);
}

#[test]
fn the_package_root_is_the_manifest_declaring_the_name() {
    let manifests = vec![
        entry(b"/ws/Cargo.toml", b"[workspace]\nmembers = [\"alpha\"]\n"),
        entry(b"/ws/alpha/Cargo.toml", b"[package]\nname = \"alpha\"\n"),
    ];
    let root = find_package_root(&manifests, b"alpha").unwrap();
    assert_eq!(root, b"/ws/alpha".to_vec());
    assert!(find_package_root(&manifests, b"beta").is_none());
}

#[test]
fn selection_strips_the_root_applies_ignores_and_keeps_manifests() {
    let ig = IgnoreSet::new();
    let files = vec![
        entry(b"/ws/Cargo.toml", b"m"),
        entry(b"/ws/Cargo.lock", b"l"),
        entry(b"/ws/src/main.rs", b"fn main() {}"),
        entry(b"/ws/target/debug/junk", b"x"),
        entry(b"/ws/.git/HEAD", b"ref"),
        entry(b"/elsewhere/file", b"y"),
    ];
    let picked = select_files(&files, b"/ws", &ig);
    let rels: Vec<Vec<u8>> = picked.iter().map(|e| e.path.clone()).collect();
    assert_eq!(
        rels,
        vec![b"Cargo.toml".to_vec(), b"Cargo.lock".to_vec(), b"src/main.rs".to_vec()]
    );
}

#[test]
fn the_first_occurrence_of_a_relative_path_wins() {
    let ig = IgnoreSet::new();
    let files = vec![
        entry(b"/ws/src/lib.rs", b"first"),
        entry(b"/ws/src/lib.rs", b"second"),
    ];
    let picked = select_files(&files, b"/ws", &ig);
    assert_eq!(picked.len(), 1);
    assert_eq!(picked[0].data, b"first".to_vec());
}

#[test]
fn the_lock_file_is_kept_even_though_the_defaults_exclude_it() {
    let ig = IgnoreSet::new();
    assert!(ig.is_excluded(b"Cargo.lock"));
    let files = vec![entry(b"/ws/Cargo.lock", b"l")];
    let picked = select_files(&files, b"/ws", &ig);
    assert_eq!(picked.len(), 1);
    assert_eq!(picked[0].path, b"Cargo.lock".to_vec());
}

#[test]
fn a_compressed_archive_unpacks_to_the_staged_files() {
    let staged = vec![
        entry(b"Cargo.toml", b"[package]\nname = \"alpha\"\n"),
        entry(b"src/main.rs", b"fn main() {}\n"),
    ];
    let bytes = compress_archive(&staged).unwrap();
    assert!(bytes.len() > 2);
    assert_eq!(&bytes[..2], &[0x1f, 0x8b], "not a gzip stream");
    let unpacked = unpack(&bytes);
    assert_eq!(unpacked.len(), 2);
    assert_eq!(unpacked[0].0, "Cargo.toml");
    assert_eq!(unpacked[0].1, b"[package]\nname = \"alpha\"\n".to_vec());
    assert_eq!(unpacked[1].0, "src/main.rs");
    assert_eq!(unpacked[1].1, b"fn main() {}\n".to_vec());
}

#[test]
fn build_archive_packs_the_workspace_under_relative_paths() {
    let manifests = vec![entry(b"/ws/Cargo.toml", b"[package]\nname = \"alpha\"\n")];
    let files = vec![
        entry(b"/ws/Cargo.toml", b"[package]\nname = \"alpha\"\n"),
        entry(b"/ws/src/main.rs", b"fn main() {}\n"),
        entry(b"/ws/target/debug/old", b"x"),
        entry(b"/ws/notes.log", b"n"),
    ];
    let ignore_file = Some(b"*.log\n".to_vec());
    let bytes = build_archive(b"alpha", &manifests, &ignore_file, &files).unwrap();
    let unpacked = unpack(&bytes);
    let names: Vec<String> = unpacked.iter().map(|(p, _)| p.clone()).collect();
    assert_eq!(names, vec!["Cargo.toml".to_string(), "src/main.rs".to_string()]);
}

#[test]
fn an_absent_workspace_root_is_an_archive_error() {
    let manifests: Vec<FileEntry> = Vec::new();
    let r = build_archive(b"alpha", &manifests, &None, &Vec::new());
    assert!(matches!(r, Err(ClientError::Archive { .. })));
}

#[test]
fn an_absent_package_root_is_an_archive_error() {
    let manifests = vec![entry(b"/ws/Cargo.toml", b"[package]\nname = \"other\"\n")];
    let r = build_archive(b"alpha", &manifests, &None, &Vec::new());
    match r {
        Err(e @ ClientError::Archive { .. }) => {
            assert_eq!(e.describe(), b"archive error: no package root".to_vec());
        }
        _ => panic!("expected an archive error"),
    }
}
