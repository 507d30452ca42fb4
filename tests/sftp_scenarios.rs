use sftp_s3::backend::{normalize_path, BackendError, DirEntry, FileInfo};
use sftp_s3::memory::MemoryBackend;
use sftp_s3::sftp_handler::{
    fstat_merge, opens_for_write, realpath, status_result, FstatStep, SftpHandler, StatusCode,
};

fn put(h: &mut SftpHandler, b: &mut MemoryBackend, path: &str, data: &[u8]) {
    let token = h.open_write(path).unwrap();
    h.write(&token, 0, &data.to_vec()).unwrap();
    close(h, b, &token).unwrap();
}

fn close(h: &mut SftpHandler, b: &mut MemoryBackend, token: &str) -> Result<(), StatusCode> {
    let flushed = match h.close_target(token) {
        Some((path, buffer)) => b.write_file(&path, buffer),
        None => Ok(()),
    };
    h.close_finish(token, flushed)
}

fn get(h: &mut SftpHandler, b: &MemoryBackend, path: &str) -> Result<Vec<u8>, StatusCode> {
    let token = h.open_read(path, b.read_file(&normalize_path(path)))?;
    let mut out = Vec::new();
    loop {
        match h.read(&token, out.len() as u64, 4) {
            Ok(chunk) => out.extend(chunk),
            Err(StatusCode::Eof) => break,
            Err(e) => return Err(e),
        }
    }
    assert_eq!(h.close_target(&token), None);
    h.close_finish(&token, Ok(()))?;
    Ok(out)
}

fn ls(h: &mut SftpHandler, b: &MemoryBackend, path: &str) -> Result<Vec<DirEntry>, StatusCode> {
    let token = h.opendir(path, b.file_info(&normalize_path(path)))?;
    let target = h.readdir_target(&token)?;
    let entries = h.readdir_finish(&token, b.list_dir(&target))?;
    assert_eq!(h.readdir_target(&token), Err(StatusCode::Eof));
    Ok(entries)
}

#[test]
fn upload_then_download() {
    let mut h = SftpHandler::new();
    let mut b = MemoryBackend::new();
    put(&mut h, &mut b, "f.txt", b"hello world");
    assert_eq!(get(&mut h, &b, "f.txt").unwrap(), b"hello world".to_vec());
    let entries = ls(&mut h, &b, "/").unwrap();
    let names: Vec<&str> = entries.iter().map(|e| e.name.as_str()).collect();
    assert_eq!(names, vec![".", "..", "f.txt"]);
    assert_eq!(entries[2].attrs.size, 11);
    assert!(!entries[2].attrs.is_dir);
}

#[test]
fn mkdir_then_rmdir() {
    let mut h = SftpHandler::new();
    let mut b = MemoryBackend::new();
    assert_eq!(status_result(b.make_dir(&normalize_path("d"))), Ok(()));
    let entries = ls(&mut h, &b, ".").unwrap();
    let d = entries.iter().find(|e| e.name == "d").unwrap();
    assert!(d.attrs.is_dir);
    assert_eq!(status_result(b.del_dir(&normalize_path("d"))), Ok(()));
    let entries = ls(&mut h, &b, ".").unwrap();
    assert!(entries.iter().all(|e| e.name != "d"));
}

#[test]
fn write_at_offset_with_gap() {
    let mut h = SftpHandler::new();
    let mut b = MemoryBackend::new();
    let token = h.open_write("sparse").unwrap();
    h.write(&token, 0, &b"AAAA".to_vec()).unwrap();
    h.write(&token, 8, &b"BBBB".to_vec()).unwrap();
    close(&mut h, &mut b, &token).unwrap();
    assert_eq!(
        get(&mut h, &b, "sparse").unwrap(),
        vec![0x41, 0x41, 0x41, 0x41, 0, 0, 0, 0, 0x42, 0x42, 0x42, 0x42]
    );
}

#[test]
fn overwrite_inside_and_across_buffer_end() {
    let mut h = SftpHandler::new();
    let mut b = MemoryBackend::new();
    let token = h.open_write("f").unwrap();
    h.write(&token, 0, &b"abcdef".to_vec()).unwrap();
    h.write(&token, 1, &b"XY".to_vec()).unwrap();
    h.write(&token, 5, &b"123".to_vec()).unwrap();
    h.write(&token, 8, &vec![]).unwrap();
    close(&mut h, &mut b, &token).unwrap();
    assert_eq!(b.read_file("f").unwrap(), b"aXYde123".to_vec());
}

#[test]
fn empty_write_past_end_zero_fills() {
    let mut h = SftpHandler::new();
    let token = h.open_write("f").unwrap();
    h.write(&token, 3, &vec![]).unwrap();
    assert_eq!(h.close_target(&token), Some(("f".to_string(), vec![0, 0, 0])));
}

#[test]
fn read_across_eof() {
    let mut h = SftpHandler::new();
    let mut b = MemoryBackend::new();
    put(&mut h, &mut b, "n", b"12345");
    let token = h.open_read("n", b.read_file("n")).unwrap();
    assert_eq!(h.read(&token, 3, 10), Ok(b"45".to_vec()));
    assert_eq!(h.read(&token, 5, 10), Err(StatusCode::Eof));
    assert_eq!(h.read(&token, u64::MAX, u32::MAX), Err(StatusCode::Eof));
    assert_eq!(h.read(&token, 0, 2), Ok(b"12".to_vec()));
}

#[test]
fn read_snapshot_ignores_later_changes() {
    let mut h = SftpHandler::new();
    let mut b = MemoryBackend::new();
    b.write_file("s", b"old".to_vec()).unwrap();
    let token = h.open_read("s", b.read_file("s")).unwrap();
    b.write_file("s", b"new!".to_vec()).unwrap();
    assert_eq!(h.read(&token, 0, 100), Ok(b"old".to_vec()));
}

#[test]
fn rename_across_names() {
    let mut h = SftpHandler::new();
    let mut b = MemoryBackend::new();
    put(&mut h, &mut b, "a.txt", b"x");
    assert_eq!(
        status_result(b.rename(&normalize_path("a.txt"), &normalize_path("b.txt"))),
        Ok(())
    );
    assert_eq!(get(&mut h, &b, "b.txt").unwrap(), b"x".to_vec());
    assert_eq!(get(&mut h, &b, "a.txt"), Err(StatusCode::NoSuchFile));
}

#[test]
fn realpath_resolves() {
    assert_eq!(realpath("."), "/");
    assert_eq!(realpath("foo//"), "/foo");
    assert_eq!(realpath(""), "/");
    assert_eq!(realpath("//a/b/"), "/a/b");
}

#[test]
fn unknown_handles_fail() {
    let mut h = SftpHandler::new();
    assert_eq!(h.read("7", 0, 1), Err(StatusCode::Failure));
    assert_eq!(h.write("7", 0, &vec![1]), Err(StatusCode::Failure));
    assert_eq!(h.readdir_target("nope"), Err(StatusCode::Failure));
    assert!(matches!(h.fstat_target("7"), Err(StatusCode::Failure)));
    assert_eq!(h.close_target("7"), None);
    assert_eq!(h.close_finish("7", Ok(())), Ok(()));
}

#[test]
fn handles_of_the_wrong_kind_fail() {
    let mut h = SftpHandler::new();
    let b = MemoryBackend::new();
    let dir = h.opendir("/", b.file_info("")).unwrap();
    let w = h.open_write("w").unwrap();
    assert_eq!(h.read(&dir, 0, 1), Err(StatusCode::Failure));
    assert_eq!(h.read(&w, 0, 1), Err(StatusCode::Failure));
    assert_eq!(h.write(&dir, 0, &vec![1]), Err(StatusCode::Failure));
    assert_eq!(h.readdir_target(&w), Err(StatusCode::Failure));
}

#[test]
fn opendir_on_file_or_missing_path() {
    let mut h = SftpHandler::new();
    let mut b = MemoryBackend::new();
    b.write_file("f", vec![1]).unwrap();
    assert_eq!(h.opendir("f", b.file_info("f")), Err(StatusCode::NoSuchFile));
    assert_eq!(h.opendir("g", b.file_info("g")), Err(StatusCode::NoSuchFile));
}

#[test]
fn failed_flush_keeps_the_handle() {
    let mut h = SftpHandler::new();
    let token = h.open_write("f").unwrap();
    h.write(&token, 0, &vec![5]).unwrap();
    assert_eq!(
        h.close_finish(&token, Err(BackendError::PermissionDenied)),
        Err(StatusCode::PermissionDenied)
    );
    assert_eq!(h.close_target(&token), Some(("f".to_string(), vec![5])));
    assert_eq!(h.close_finish(&token, Ok(())), Ok(()));
    assert_eq!(h.close_target(&token), None);
}

#[test]
fn readdir_listing_error_is_mapped() {
    let mut h = SftpHandler::new();
    let b = MemoryBackend::new();
    let dir = h.opendir("/", b.file_info("/")).unwrap();
    assert!(matches!(
        h.readdir_finish(&dir, Err(BackendError::Io("disk".to_string()))),
        Err(StatusCode::Failure)
    ));
    assert_eq!(h.readdir_target(&dir), Ok(String::new()));
}

#[test]
fn error_mapping() {
    let cases = vec![
        (BackendError::NotFound, StatusCode::NoSuchFile),
        (BackendError::PermissionDenied, StatusCode::PermissionDenied),
        (BackendError::AlreadyExists, StatusCode::Failure),
        (BackendError::NotADirectory, StatusCode::NoSuchFile),
        (BackendError::IsADirectory, StatusCode::Failure),
        (BackendError::DirectoryNotEmpty, StatusCode::Failure),
        (BackendError::Io("x".to_string()), StatusCode::Failure),
        (BackendError::Other("y".to_string()), StatusCode::Failure),
    ];
    for (e, s) in cases {
        assert_eq!(StatusCode::from(e.clone()), s);
        assert_eq!(status_result::<()>(Err(e)), Err(s));
    }
    assert_eq!(status_result(Ok(5)), Ok(5));
}

#[test]
fn fstat_reports_in_memory_size() {
    let mut h = SftpHandler::new();
    let b = MemoryBackend::new();
    let w = h.open_write("new").unwrap();
    h.write(&w, 0, &vec![1, 2, 3]).unwrap();
    match h.fstat_target(&w) {
        Ok(FstatStep::Lookup { path, size }) => {
            assert_eq!(path, "new");
            assert_eq!(size, 3);
            let info = fstat_merge(size, b.file_info(&path));
            assert_eq!(info.size, 3);
            assert!(!info.is_dir);
            assert_eq!(info.permissions, 0o644);
        }
        _ => panic!("expected a lookup"),
    }
    let merged = fstat_merge(9, Ok(FileInfo::file_with_mtime(1, 77)));
    assert_eq!(merged, FileInfo { size: 9, ..FileInfo::file_with_mtime(1, 77) });
    let dir = h.opendir("/", b.file_info("/")).unwrap();
    match h.fstat_target(&dir) {
        Ok(FstatStep::Done(info)) => assert!(info.is_dir),
        _ => panic!("expected directory metadata"),
    }
}

#[test]
fn open_flags() {
    assert!(opens_for_write(0x2));
    assert!(opens_for_write(0x1 | 0x2 | 0x8));
    assert!(!opens_for_write(0x1));
    assert!(!opens_for_write(0));
}

#[test]
fn handle_tokens_differ_across_kinds() {
    let mut h = SftpHandler::new();
    let b = MemoryBackend::new();
    let a = h.open_write("x").unwrap();
    let c = h.opendir("/", b.file_info("/")).unwrap();
    let d = h.open_read("y", Ok(vec![])).unwrap();
    assert_eq!((a.as_str(), c.as_str(), d.as_str()), ("1", "2", "3"));
}
