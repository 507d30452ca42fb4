use sftp_s3::auth::{
    advertised_methods, load_keys_from_text, authorized_key_field, authorized_key_fields, credentials_match,
    parse_pubkey, parse_users, split_credential, AuthMethods,
};
use sftp_s3::backend::{current_timestamp, normalize_path, timestamp_from, FileInfo};
use sftp_s3::listing::{listing_from_objects, ObjectSummary};
use sftp_s3::local::{IoErrorKind, LocalBackend};
use sftp_s3::backend::BackendError;
use sftp_s3::s3::{dir_probe_result, map_s3_error, root_info, S3Config};

#[test]
fn normalize_examples() {
    assert_eq!(normalize_path(""), "");
    assert_eq!(normalize_path("/"), "");
    assert_eq!(normalize_path("."), "");
    assert_eq!(normalize_path("/./"), "");
    assert_eq!(normalize_path("///"), "");
    assert_eq!(normalize_path("/a//b/"), "a//b");
    assert_eq!(normalize_path("./x"), "./x");
    assert_eq!(normalize_path("..") , "..");
    assert_eq!(normalize_path("/ü/é/"), "ü/é");
}

#[test]
fn normalize_is_idempotent_and_edge_free() {
    for p in ["", "/", "//a//", "a/b", "/./", ".", "x/", "/y", "é//"] {
        let once = normalize_path(p);
        assert_eq!(normalize_path(&once), once);
        assert!(!once.starts_with('/'));
        assert!(!once.ends_with('/'));
    }
    for n in 1..6 {
        assert_eq!(normalize_path(&"/".repeat(n)), "");
    }
}

#[test]
fn file_info_constructors() {
    let d = FileInfo::directory_with_mtime(42);
    assert_eq!(
        d,
        FileInfo { size: 4096, is_dir: true, permissions: 0o755, mtime: 42, atime: 42, uid: 1000, gid: 1000 }
    );
    let f = FileInfo::file_with_mtime(7, 9);
    assert_eq!(
        f,
        FileInfo { size: 7, is_dir: false, permissions: 0o644, mtime: 9, atime: 9, uid: 1000, gid: 1000 }
    );
    let now = FileInfo::directory();
    assert!(now.is_dir && now.size == 4096 && now.uid == 1000 && now.gid == 1000);
    let file = FileInfo::file(3);
    assert!(!file.is_dir && file.size == 3 && file.permissions == 0o644);
    assert!(current_timestamp() > 1_600_000_000);
    assert_eq!(timestamp_from(None), 0);
    assert_eq!(timestamp_from(Some(1_700_000_000)), 1_700_000_000);
    assert_eq!(timestamp_from(Some((1u64 << 32) + 5)), 5);
}

#[test]
fn s3_keys_under_prefix() {
    let plain = S3Config::new("bucket".to_string());
    assert_eq!(plain.bucket, "bucket");
    assert_eq!(plain.prefix, "");
    assert_eq!(plain.build_key("/a/b/"), "a/b");
    assert_eq!(plain.list_prefix("/"), "");
    assert_eq!(plain.list_prefix("dir"), "dir/");
    let cfg = S3Config::new("bucket".to_string()).with_prefix("sftp/".to_string());
    assert_eq!(cfg.prefix, "sftp/");
    assert_eq!(cfg.build_key("f.txt"), "sftp/f.txt");
    assert_eq!(cfg.build_key("/"), "sftp");
    assert_eq!(cfg.list_prefix(""), "sftp/");
    assert_eq!(cfg.list_prefix("d/"), "sftp/d/");
    assert_eq!(cfg.keep_key("d"), "sftp/d/.keep");
    assert_eq!(cfg.copy_source("sftp/a"), "bucket/sftp/a");
}

#[test]
fn s3_error_classification() {
    assert_eq!(map_s3_error("service error: NoSuchKey".to_string()), BackendError::NotFound);
    assert_eq!(map_s3_error("status 404".to_string()), BackendError::NotFound);
    assert_eq!(map_s3_error("AccessDenied".to_string()), BackendError::PermissionDenied);
    assert_eq!(map_s3_error("HTTP 403".to_string()), BackendError::PermissionDenied);
    assert_eq!(
        map_s3_error("timeout".to_string()),
        BackendError::Io("timeout".to_string())
    );
    assert!(matches!(dir_probe_result(Ok(true)), Ok(info) if info.is_dir));
    assert!(matches!(root_info("/./"), Some(info) if info.is_dir));
    assert!(root_info("a").is_none());
    assert_eq!(dir_probe_result(Ok(false)), Err(BackendError::NotFound));
    assert_eq!(
        dir_probe_result(Err("403 Forbidden".to_string())),
        Err(BackendError::PermissionDenied)
    );
}

#[test]
fn object_listing() {
    let objects = vec![
        ObjectSummary { key: "p/a.txt".to_string(), size: 3, mtime: 10 },
        ObjectSummary { key: "p/d/.keep".to_string(), size: 0, mtime: 11 },
        ObjectSummary { key: "p/d/x".to_string(), size: 5, mtime: 12 },
        ObjectSummary { key: "p/.keep".to_string(), size: 0, mtime: 13 },
        ObjectSummary { key: "q/other".to_string(), size: 1, mtime: 14 },
    ];
    let entries = listing_from_objects(&objects, "p/");
    let got: Vec<(String, FileInfo)> = entries.iter().map(|e| (e.name.clone(), e.attrs)).collect();
    assert_eq!(got[0].0, ".");
    assert_eq!(got[1].0, "..");
    assert_eq!(
        got[2..].to_vec(),
        vec![
            ("a.txt".to_string(), FileInfo::file_with_mtime(3, 10)),
            ("d".to_string(), FileInfo::directory_with_mtime(11)),
        ]
    );
}

#[test]
fn local_paths_and_errors() {
    let b = LocalBackend::new("/srv/data".to_string());
    assert_eq!(b.full_path(""), "/srv/data");
    assert_eq!(b.full_path("a/b"), "/srv/data/a/b");
    assert_eq!(b.full_path("/etc"), "/etc");
    let slash = LocalBackend::new("/srv/".to_string());
    assert_eq!(slash.full_path("x"), "/srv/x");
    assert_eq!(
        LocalBackend::error_for_kind(IoErrorKind::NotFound, "m".to_string()),
        BackendError::NotFound
    );
    assert_eq!(
        LocalBackend::error_for_kind(IoErrorKind::Other, "boom".to_string()),
        BackendError::Io("boom".to_string())
    );
    let e = std::io::Error::new(std::io::ErrorKind::PermissionDenied, "no");
    assert_eq!(LocalBackend::map_io_error(e), BackendError::PermissionDenied);
    let e = std::io::Error::new(std::io::ErrorKind::NotFound, "gone");
    assert_eq!(LocalBackend::map_io_error(e), BackendError::NotFound);
    let e = std::io::Error::new(std::io::ErrorKind::DirectoryNotEmpty, "full");
    assert_eq!(LocalBackend::map_io_error(e), BackendError::DirectoryNotEmpty);
    let e = std::io::Error::new(std::io::ErrorKind::TimedOut, "slow");
    assert_eq!(LocalBackend::map_io_error(e), BackendError::Io("slow".to_string()));
    let info = LocalBackend::metadata_to_info(10, false, 0o100600, 1, 2, Some(5_000_000_000), None);
    assert_eq!(info.mtime, (5_000_000_000u64 as u32));
    assert_eq!(info.atime, info.mtime);
    let info = LocalBackend::metadata_to_info(0, true, 0o40755, 0, 0, None, Some(8));
    assert_eq!((info.mtime, info.atime, info.is_dir), (0, 8, true));
}

#[test]
fn auth_method_choice() {
    assert_eq!(advertised_methods(false, false), AuthMethods { password: true, publickey: false });
    assert_eq!(advertised_methods(true, false), AuthMethods { password: true, publickey: false });
    assert_eq!(advertised_methods(false, true), AuthMethods { password: false, publickey: true });
    assert_eq!(advertised_methods(true, true), AuthMethods { password: true, publickey: true });
}

#[test]
fn auth_negative_and_positive() {
    let users = vec![("user".to_string(), "pass".to_string())];
    assert!(credentials_match(&users, "user", "pass"));
    assert!(!credentials_match(&users, "user", "wrong"));
    assert!(!credentials_match(&users, "other", "pass"));
    assert!(!credentials_match(&vec![], "user", "pass"));
}

#[test]
fn user_credentials_parse() {
    let raw = vec![
        "alice:secret".to_string(),
        "nocolon".to_string(),
        "bob:pa:ss".to_string(),
        ":empty".to_string(),
    ];
    assert_eq!(
        parse_users(&raw),
        vec![
            ("alice".to_string(), "secret".to_string()),
            ("bob".to_string(), "pa:ss".to_string()),
            ("".to_string(), "empty".to_string()),
        ]
    );
    assert_eq!(split_credential("u:"), Some(("u".to_string(), "".to_string())));
    assert_eq!(split_credential("u"), None);
}

#[test]
fn authorized_key_lines() {
    assert_eq!(
        authorized_key_field("  ssh-ed25519 AAAAkey comment here \r"),
        Some("AAAAkey".to_string())
    );
    assert_eq!(authorized_key_field("# ssh-ed25519 AAAA"), None);
    assert_eq!(authorized_key_field("   "), None);
    assert_eq!(authorized_key_field("onlyoneword"), None);
    assert_eq!(authorized_key_field("a\tb"), Some("b".to_string()));
    let text = "ssh-ed25519 K1 me\n\n# note\nssh-rsa K2\r\nbad\n";
    assert_eq!(authorized_key_fields(text), vec!["K1".to_string(), "K2".to_string()]);
    let line = "ssh-ed25519 AAAAC3NzaC1lZDI1NTE5AAAAIJdD7y3aLq454yWBdwLWbieU1ebz9/cu7/QEXn9OIeZJ user@host";
    assert!(parse_pubkey(line).is_some());
    assert!(parse_pubkey("ssh-ed25519 not-base64!").is_none());
    assert!(parse_pubkey("# comment").is_none());
    let keys_text = format!("{}\n# skipped\nssh-ed25519 bad!\n{}\n", line, line);
    assert_eq!(load_keys_from_text(&keys_text).len(), 2);
}
