use sftp_s3::backend::{BackendError, FileInfo};
use sftp_s3::memory::MemoryBackend;
use std::sync::{Arc, Mutex};

fn names(backend: &MemoryBackend, path: &str) -> Vec<String> {
    backend
        .list_dir(path)
        .unwrap()
        .into_iter()
        .map(|e| e.name)
        .collect()
}

#[test]
fn memory_test_write_and_read_file() {
    let mut backend = MemoryBackend::new();
    let content = b"hello world".to_vec();

    backend.write_file("test.txt", content.clone()).unwrap();
    let read = backend.read_file("test.txt").unwrap();

    assert_eq!(read, content);
}

#[test]
fn test_list_root() {
    let mut backend = MemoryBackend::new();
    backend.write_file("file1.txt", b"a".to_vec()).unwrap();
    backend.write_file("file2.txt", b"b".to_vec()).unwrap();

    let names = names(&backend, "/");

    assert!(names.contains(&".".to_string()));
    assert!(names.contains(&"..".to_string()));
    assert!(names.contains(&"file1.txt".to_string()));
    assert!(names.contains(&"file2.txt".to_string()));
}

#[test]
fn memory_test_make_and_list_dir() {
    let mut backend = MemoryBackend::new();
    backend.make_dir("subdir").unwrap();

    let names = names(&backend, "/");

    assert!(names.contains(&"subdir".to_string()));
}

#[test]
fn test_file_info() {
    let mut backend = MemoryBackend::new();
    backend.write_file("test.txt", b"12345".to_vec()).unwrap();

    let info = backend.file_info("test.txt").unwrap();
    assert!(!info.is_dir);
    assert_eq!(info.size, 5);

    let root_info = backend.file_info("/").unwrap();
    assert!(root_info.is_dir);
}

#[test]
fn test_concurrent_writes() {
    let backend = Arc::new(Mutex::new(MemoryBackend::new()));
    let runtime = tokio::runtime::Builder::new_multi_thread().build().unwrap();
    let results: Vec<Result<(), BackendError>> = runtime.block_on(async {
        let tasks: Vec<_> = (0..100)
            .map(|i| {
                let b = backend.clone();
                tokio::spawn(async move {
                    let content = vec![i as u8; 100];
                    b.lock().unwrap().write_file(&format!("file{}", i), content)
                })
            })
            .collect();
        let mut out = Vec::new();
        for t in tasks {
            out.push(t.await.unwrap());
        }
        out
    });
    assert!(results.iter().all(|r| r.is_ok()));

    let backend = backend.lock().unwrap();
    for i in 0..100u8 {
        let content = backend.read_file(&format!("file{}", i)).unwrap();
        assert_eq!(content, vec![i; 100]);
    }
}

#[test]
fn write_then_read_round_trips_large_blob() {
    let mut backend = MemoryBackend::new();
    let blob: Vec<u8> = (0..(1usize << 20)).map(|i| (i % 251) as u8).collect();
    backend.write_file("big.bin", blob.clone()).unwrap();
    assert_eq!(backend.read_file("/big.bin/").unwrap(), blob);
}

#[test]
fn write_replaces_content() {
    let mut backend = MemoryBackend::new();
    backend.write_file("k", b"one".to_vec()).unwrap();
    backend.write_file("k", b"two".to_vec()).unwrap();
    assert_eq!(backend.read_file("k").unwrap(), b"two".to_vec());
    assert_eq!(names(&backend, "/"), vec![".", "..", "k"]);
}

#[test]
fn delete_then_not_found() {
    let mut backend = MemoryBackend::new();
    backend.write_file("gone", b"data".to_vec()).unwrap();
    backend.delete("gone").unwrap();
    assert_eq!(backend.read_file("gone"), Err(BackendError::NotFound));
    assert_eq!(backend.delete("gone"), Ok(()));
}

#[test]
fn rename_moves_content() {
    let mut backend = MemoryBackend::new();
    backend.write_file("src", vec![1, 2, 3]).unwrap();
    backend.rename("src", "dst").unwrap();
    assert_eq!(backend.read_file("dst").unwrap(), vec![1, 2, 3]);
    assert_eq!(backend.read_file("src"), Err(BackendError::NotFound));
}

#[test]
fn rename_of_missing_source_changes_nothing() {
    let mut backend = MemoryBackend::new();
    backend.write_file("b", vec![7]).unwrap();
    backend.rename("a", "b").unwrap();
    assert_eq!(backend.read_file("b").unwrap(), vec![7]);
}

#[test]
fn mkdir_listed_then_rmdir_unlisted() {
    let mut backend = MemoryBackend::new();
    backend.make_dir("d").unwrap();
    let listing = backend.list_dir("/").unwrap();
    let d = listing.iter().find(|e| e.name == "d").unwrap();
    assert!(d.attrs.is_dir);
    assert_eq!(backend.file_info("d").unwrap().is_dir, true);
    backend.del_dir("d").unwrap();
    assert!(!names(&backend, "/").contains(&"d".to_string()));
    assert_eq!(backend.file_info("d"), Err(BackendError::NotFound));
}

#[test]
fn del_dir_keeps_objects_below() {
    let mut backend = MemoryBackend::new();
    backend.make_dir("d").unwrap();
    backend.write_file("d/f", vec![1]).unwrap();
    backend.del_dir("d").unwrap();
    assert!(names(&backend, "/").contains(&"d".to_string()));
    assert_eq!(names(&backend, "d"), vec![".", "..", "f"]);
}

#[test]
fn listing_of_subdirectory_shows_first_components_once() {
    let mut backend = MemoryBackend::new();
    backend.write_file("a/x.txt", vec![1, 2]).unwrap();
    backend.write_file("a/sub/y", vec![3]).unwrap();
    backend.write_file("a/sub/z", vec![4]).unwrap();
    backend.make_dir("a/empty").unwrap();
    backend.write_file("b", vec![5]).unwrap();
    let listing = backend.list_dir("/a/").unwrap();
    let got: Vec<(String, bool, u64)> = listing
        .iter()
        .map(|e| (e.name.clone(), e.attrs.is_dir, e.attrs.size))
        .collect();
    assert_eq!(got[0].0, ".");
    assert_eq!(got[1].0, "..");
    assert_eq!(
        got[2..].to_vec(),
        vec![
            ("x.txt".to_string(), false, 2),
            ("sub".to_string(), true, 4096),
            ("empty".to_string(), true, 4096),
        ]
    );
}

#[test]
fn dot_entries_are_directories() {
    let backend = MemoryBackend::new();
    let listing = backend.list_dir("").unwrap();
    assert_eq!(listing.len(), 2);
    for e in &listing {
        assert!(e.attrs.is_dir);
        assert_eq!(e.attrs.permissions, 0o755);
        assert_eq!(e.attrs.size, 4096);
    }
}

#[test]
fn file_info_of_missing_path_is_not_found() {
    let mut backend = MemoryBackend::new();
    backend.write_file("ab", vec![1]).unwrap();
    assert_eq!(backend.file_info("a"), Err(BackendError::NotFound));
    let info = backend.file_info("ab").unwrap();
    assert_eq!(info, FileInfo::file_with_mtime(1, info.mtime));
}

#[test]
fn with_files_seeds_contents() {
    let backend = MemoryBackend::with_files(vec![
        ("x".to_string(), vec![1]),
        ("y".to_string(), vec![2]),
        ("x".to_string(), vec![3]),
    ]);
    assert_eq!(backend.read_file("x").unwrap(), vec![3]);
    assert_eq!(backend.read_file("y").unwrap(), vec![2]);
}
