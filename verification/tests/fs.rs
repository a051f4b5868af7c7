use localai::fs::service::{
    chrono_now, edit, sort_entries, MetaFailure, PathProbe, ReadProbe, WriteProbe,
};
use localai::fs::{
    fs_entry, fs_info, fs_kind, temp_name, version_from_meta, FileFacts, FsChild, FsEntry, FsError,
    FsInfo, FsKind, FsPath, FsService, SandboxMode, WriteGuard,
};

const ROOT: &str = "/tmp/ws";

fn path(s: &str) -> FsPath {
    let parts: Vec<String> = s.split('/').filter(|p| !p.is_empty()).map(String::from).collect();
    FsPath {
        name: parts.last().cloned().unwrap_or_default(),
        parts,
        display: s.to_string(),
    }
}

fn below(name: &str) -> FsPath {
    path(&format!("{ROOT}/{name}"))
}

/// A disk in memory.
struct Disk {
    files: Vec<(String, Vec<u8>, u128)>,
    clock: u128,
}

impl Disk {
    fn find(&self, p: &FsPath) -> Option<&(String, Vec<u8>, u128)> {
        self.files.iter().find(|f| f.0 == p.display)
    }

    fn put(&mut self, p: &FsPath, bytes: &[u8]) {
        self.clock += 1_000_003;
        let now = self.clock;
        self.files.retain(|f| f.0 != p.display);
        self.files.push((p.display.clone(), bytes.to_vec(), now));
    }

    fn meta(&self, p: &FsPath) -> Result<FileFacts, MetaFailure> {
        match self.find(p) {
            Some(f) => Ok(FileFacts {
                is_file: true,
                is_dir: false,
                is_symlink: false,
                len: f.1.len() as u64,
                modified: Some(f.2),
            }),
            None => Err(MetaFailure { not_found: true, text: "not found".to_string() }),
        }
    }

    fn read(&self, p: &FsPath) -> ReadProbe {
        ReadProbe {
            meta: self.meta(p),
            bytes: match self.find(p) {
                Some(f) => Ok(f.1.clone()),
                None => Err("not found".to_string()),
            },
        }
    }

    fn version(&self, p: &FsPath) -> Result<u64, String> {
        match self.meta(p) {
            Ok(f) => Ok(version_from_meta(&f)),
            Err(e) => Err(e.text),
        }
    }

    fn probe(&self, p: &FsPath) -> WriteProbe {
        WriteProbe { exists: self.find(p).is_some(), version: self.version(p) }
    }
}

fn test_fs() -> (Disk, FsService) {
    (Disk { files: Vec::new(), clock: 0 }, FsService::new(path(ROOT)))
}

fn write(
    disk: &mut Disk,
    fs: &mut FsService,
    p: &FsPath,
    content: &str,
    guard: WriteGuard,
) -> Result<(), FsError> {
    fs.write_text(p, guard, disk.probe(p), "00:00:00")?;
    disk.put(p, content.as_bytes());
    fs.done("write", p, Ok(()), "00:00:00")
}

fn read(disk: &Disk, fs: &mut FsService, p: &FsPath) -> Result<String, FsError> {
    fs.read_text(p, disk.read(p), "00:00:00")
}

fn stat(disk: &Disk, fs: &mut FsService, p: &FsPath) -> Result<Option<FsInfo>, FsError> {
    fs.stat(p, disk.meta(p), "00:00:00")
}

fn change(
    disk: &mut Disk,
    fs: &mut FsService,
    p: &FsPath,
    from: &str,
    to: &str,
    guard: WriteGuard,
) -> Result<(), FsError> {
    let content = fs.edit_text(p, from, to, guard, disk.read(p), disk.version(p), "00:00:00")?;
    disk.put(p, content.as_bytes());
    fs.done("edit", p, Ok(()), "00:00:00")
}

#[test]
fn write_read_roundtrip() {
    let (mut disk, mut fs) = test_fs();
    let p = below("a.txt");
    write(&mut disk, &mut fs, &p, "hello", WriteGuard::Unconditional).unwrap();
    assert_eq!(read(&disk, &mut fs, &p).unwrap(), "hello");
    let info = stat(&disk, &mut fs, &p).unwrap().unwrap();
    assert_eq!(info.kind, FsKind::File);
    assert_eq!(info.size, Some(5));
}

#[test]
fn create_if_absent_guard() {
    let (mut disk, mut fs) = test_fs();
    let p = below("g.txt");
    write(&mut disk, &mut fs, &p, "v1", WriteGuard::CreateIfAbsent).unwrap();
    assert!(write(&mut disk, &mut fs, &p, "v2", WriteGuard::CreateIfAbsent).is_err());
    assert_eq!(read(&disk, &mut fs, &p).unwrap(), "v1");
}

#[test]
fn version_guard_rejects_stale() {
    let (mut disk, mut fs) = test_fs();
    let p = below("v.txt");
    write(&mut disk, &mut fs, &p, "v1", WriteGuard::Unconditional).unwrap();
    let v1 = stat(&disk, &mut fs, &p).unwrap().unwrap().version;
    write(&mut disk, &mut fs, &p, "v2", WriteGuard::ReplaceIfVersion(v1)).unwrap();
    assert!(matches!(
        write(&mut disk, &mut fs, &p, "v3", WriteGuard::ReplaceIfVersion(v1)),
        Err(FsError::StaleVersion(_, _))
    ));
    let absent = below("none.txt");
    assert!(matches!(
        write(&mut disk, &mut fs, &absent, "x", WriteGuard::ReplaceIfVersion(7)),
        Err(FsError::StaleVersion(0, 7))
    ));
}

#[test]
fn edit_requires_read_before_edit() {
    let (mut disk, mut fs) = test_fs();
    let p = below("e.txt");
    write(&mut disk, &mut fs, &p, "hello world", WriteGuard::Unconditional).unwrap();
    let err = change(&mut disk, &mut fs, &p, "world", "rust", WriteGuard::Unconditional)
        .err()
        .unwrap();
    assert!(
        matches!(&err, FsError::PermissionDenied(m) if m.contains("先读取")),
        "{}",
        err.message()
    );
    read(&disk, &mut fs, &p).unwrap();
    change(&mut disk, &mut fs, &p, "world", "rust", WriteGuard::Unconditional).unwrap();
    assert_eq!(read(&disk, &mut fs, &p).unwrap(), "hello rust");
}

#[test]
fn edit_rejects_ambiguous_pattern() {
    let (mut disk, mut fs) = test_fs();
    let p = below("e2.txt");
    write(&mut disk, &mut fs, &p, "foo bar foo", WriteGuard::Unconditional).unwrap();
    read(&disk, &mut fs, &p).unwrap();
    assert!(change(&mut disk, &mut fs, &p, "foo", "X", WriteGuard::Unconditional).is_err());
}

#[test]
fn sensitive_file_denied() {
    let (mut disk, mut fs) = test_fs();
    let p = below(".env");
    assert!(matches!(
        write(&mut disk, &mut fs, &p, "KEY=secret", WriteGuard::Unconditional),
        Err(FsError::PermissionDenied(_))
    ));
    disk.put(&p, b"KEY=secret");
    assert!(matches!(read(&disk, &mut fs, &p), Err(FsError::PermissionDenied(_))));
}

#[test]
fn outside_workspace_denied_in_default_mode() {
    let (mut disk, mut fs) = test_fs();
    let outside = path("/tmp/escape.txt");
    assert!(matches!(
        write(&mut disk, &mut fs, &outside, "x", WriteGuard::Unconditional),
        Err(FsError::PermissionDenied(_))
    ));
    assert!(matches!(read(&disk, &mut fs, &outside), Err(FsError::PermissionDenied(_))));
}

#[test]
fn mode_read_only_then_back() {
    let (mut disk, mut fs) = test_fs();
    let p = below("r.txt");
    fs.set_mode(SandboxMode::ReadOnly);
    assert!(matches!(
        write(&mut disk, &mut fs, &p, "x", WriteGuard::Unconditional),
        Err(FsError::PermissionDenied(m)) if m.contains("只读")
    ));
    assert!(stat(&disk, &mut fs, &p).is_ok(), "只读模式仍可读");
    fs.set_mode(SandboxMode::WorkspaceWrite);
    write(&mut disk, &mut fs, &p, "x", WriteGuard::Unconditional).unwrap();
}

#[test]
fn mode_full_allows_outside_but_keeps_sensitive() {
    let (mut disk, mut fs) = test_fs();
    fs.set_mode(SandboxMode::Full);
    let outside = path("/tmp/other/o.txt");
    write(&mut disk, &mut fs, &outside, "x", WriteGuard::Unconditional).unwrap();
    assert_eq!(read(&disk, &mut fs, &outside).unwrap(), "x");
    let p = below(".env");
    assert!(matches!(
        write(&mut disk, &mut fs, &p, "K=1", WriteGuard::Unconditional),
        Err(FsError::PermissionDenied(_))
    ));
    let e = below("e.txt");
    write(&mut disk, &mut fs, &e, "ab", WriteGuard::Unconditional).unwrap();
    assert!(change(&mut disk, &mut fs, &e, "a", "x", WriteGuard::Unconditional).is_err());
}

fn entry(name: &str, kind: FsKind) -> FsEntry {
    FsEntry { name: name.to_string(), kind, size: None }
}

fn child(name: &str, facts: FileFacts) -> FsChild {
    FsChild { name: name.to_string(), facts }
}

fn file_facts(len: u64) -> FileFacts {
    FileFacts { is_file: true, is_dir: false, is_symlink: false, len, modified: None }
}

fn dir_facts() -> FileFacts {
    FileFacts { is_file: false, is_dir: true, is_symlink: false, len: 64, modified: None }
}

#[test]
fn list_dir_sorted() {
    let (_disk, mut fs) = test_fs();
    let found = vec![
        child("b.txt", file_facts(7)),
        child("sub", dir_facts()),
        child("a.txt", file_facts(0)),
    ];
    let entries = fs.list_dir(&path(ROOT), Ok(dir_facts()), Ok(found), "t").unwrap();
    let names: Vec<&str> = entries.iter().map(|e| e.name.as_str()).collect();
    assert_eq!(names, vec!["a.txt", "b.txt", "sub"]);
    assert_eq!(entries[2].kind, FsKind::Dir);
    let sizes: Vec<Option<u64>> = entries.iter().map(|e| e.size).collect();
    assert_eq!(sizes, vec![Some(0), Some(7), None]);
}

#[test]
fn only_files_have_a_size() {
    let link = FileFacts { is_symlink: true, is_dir: false, ..dir_facts() };
    let other = FileFacts { is_symlink: false, ..link };
    for (facts, kind, size) in [
        (file_facts(5), FsKind::File, Some(5)),
        (dir_facts(), FsKind::Dir, None),
        (link, FsKind::Symlink, None),
        (other, FsKind::Other, None),
    ] {
        let e = fs_entry("n".to_string(), &facts);
        assert_eq!((e.name.as_str(), e.kind, e.size), ("n", kind, size));
    }
}

#[test]
fn listing_a_directory_reads_no_file() {
    let (mut disk, mut fs) = test_fs();
    let p = below("e.txt");
    write(&mut disk, &mut fs, &p, "ab", WriteGuard::Unconditional).unwrap();
    let found = vec![child("e.txt", file_facts(2))];
    assert_eq!(fs.list_dir(&path(ROOT), Ok(dir_facts()), Ok(found), "t").unwrap().len(), 1);
    assert!(change(&mut disk, &mut fs, &p, "a", "x", WriteGuard::Unconditional).is_err());
    assert!(matches!(
        fs.list_dir(&path(ROOT), Ok(dir_facts()), Err("x".to_string()), "t"),
        Err(FsError::Io(m)) if m == "x"
    ));
}

#[test]
fn ledger_records_access_including_denials() {
    let (mut disk, mut fs) = test_fs();
    let p = below("l.txt");
    write(&mut disk, &mut fs, &p, "x", WriteGuard::Unconditional).unwrap();
    read(&disk, &mut fs, &p).unwrap();
    let _ = read(&disk, &mut fs, &below(".env"));
    let log = fs.access_log(10);
    assert!(log.iter().any(|l| l.op == "read" && l.ok), "应有成功读记录");
    assert!(log.iter().any(|l| !l.ok), "应有拒绝记录");
    assert_eq!(log.len(), 3);
    assert_eq!((log[0].op.as_str(), log[0].ok), ("read", false));
    assert_eq!((log[2].op.as_str(), log[2].ok), ("write", true));
}

#[test]
fn every_operation_is_noted() {
    let (mut disk, mut fs) = test_fs();
    let p = below("missing.txt");
    assert!(matches!(read(&disk, &mut fs, &p), Err(FsError::NotFound(_))));
    assert!(fs.list_dir(&p, disk.meta(&p), Ok(Vec::new()), "t").is_err());
    disk.put(&p, b"x");
    assert!(matches!(
        fs.list_dir(&p, disk.meta(&p), Ok(Vec::new()), "t"),
        Err(FsError::NotDirectory(_))
    ));
    assert!(write(&mut disk, &mut fs, &p, "y", WriteGuard::CreateIfAbsent).is_err());
    assert!(matches!(
        fs.read_bytes(&p, 0, disk.read(&p), "t"),
        Err(FsError::TooLarge(0))
    ));
    read(&disk, &mut fs, &p).unwrap();
    assert!(change(&mut disk, &mut fs, &p, "z", "w", WriteGuard::Unconditional).is_err());
    let ops: Vec<(String, bool)> =
        fs.access_log(20).into_iter().rev().map(|l| (l.op, l.ok)).collect();
    let expected: Vec<(String, bool)> = [
        ("read", false),
        ("ls", false),
        ("ls", false),
        ("write", false),
        ("read", false),
        ("read", true),
        ("read", true),
        ("edit", false),
    ]
    .iter()
    .map(|(o, k)| (o.to_string(), *k))
    .collect();
    assert_eq!(ops, expected);
}

#[test]
fn the_ledger_keeps_two_hundred_lines() {
    let (_disk, mut fs) = test_fs();
    for i in 0..250 {
        fs.log("stat", &format!("p{i}"), true, "t");
    }
    let log = fs.access_log(1000);
    assert_eq!(log.len(), 200);
    assert_eq!(log[0].path, "p249");
    assert_eq!(log[199].path, "p50");
    assert_eq!(fs.access_log(1).len(), 1);
}

#[test]
fn what_is_no_text_is_refused() {
    let (mut disk, mut fs) = test_fs();
    let p = below("bin");
    disk.put(&p, &[b'a', 0, b'b']);
    assert!(matches!(read(&disk, &mut fs, &p), Err(FsError::NotText(_))));
    disk.put(&p, &[0xff, 0xfe]);
    assert!(matches!(read(&disk, &mut fs, &p), Err(FsError::NotText(_))));
    disk.put(&p, "你好".as_bytes());
    assert_eq!(read(&disk, &mut fs, &p).unwrap(), "你好");
    assert_eq!(fs.read_bytes(&p, 6, disk.read(&p), "t").unwrap(), "你好".as_bytes());
    assert!(matches!(
        fs.read_text(
            &p,
            ReadProbe { meta: Ok(dir_facts()), bytes: Err("x".to_string()) },
            "t"
        ),
        Err(FsError::NotDirectory(_))
    ));
    assert!(matches!(
        fs.read_text(
            &p,
            ReadProbe {
                meta: Err(MetaFailure { not_found: false, text: "denied".to_string() }),
                bytes: Err(String::new()),
            },
            "t"
        ),
        Err(FsError::Io(m)) if m == "denied"
    ));
}

#[test]
fn sensitive_names_are_matched_in_any_case() {
    let (_disk, fs) = test_fs();
    for name in
        ["ID_RSA", "id_rsa_work", "a.PEM", "b.key", "id_ed25519.pub", ".ENV", "server.Key", "id_rsa.pub"]
    {
        assert!(fs.fence_read(&below(name)).is_err(), "{name}");
        assert!(fs.fence_write(&below(name)).is_err(), "{name}");
    }
    for name in [".envrc", "key", "my_id_rsa", "a.pem.txt", "id_ed25519_x"] {
        assert!(fs.fence_read(&below(name)).is_ok(), "{name}");
    }
}

#[test]
fn other_writable_places() {
    let (_disk, mut fs) = test_fs();
    let p = path("/var/cache/x");
    assert!(fs.fence_write(&p).is_err());
    fs.policy.extra_writable.push(path("/var/cache"));
    assert!(fs.fence_write(&p).is_ok());
    assert!(fs.fence_write(&path("/var/cachex")).is_err());
    assert!(fs.policy.within_writable_roots(&path(ROOT)));
}

#[test]
fn edits_replace_one_place() {
    let ok = |c: &str, f: &str, t: &str| {
        edit(c, f, t, WriteGuard::Unconditional, Ok(0)).map_err(|e| e.message())
    };
    assert_eq!(ok("a-b", "-", "+").unwrap(), "a+b");
    assert_eq!(ok("aaa", "aa", "b").unwrap(), "ba");
    assert_eq!(
        ok("abc", "", "x").err().unwrap(),
        "FS_IO_ERROR: editText: 模式出现 2 次(需要恰好 1 次): \"\""
    );
    assert_eq!(
        ok("abc", "q\n", "x").err().unwrap(),
        "FS_IO_ERROR: editText: 模式出现 0 次(需要恰好 1 次): \"q\\n\""
    );
    assert!(matches!(
        edit("abc", "b", "x", WriteGuard::CreateIfAbsent, Ok(0)),
        Err(FsError::Io(m)) if m == "editText 不支持 CreateIfAbsent"
    ));
    assert!(matches!(
        edit("abc", "b", "x", WriteGuard::ReplaceIfVersion(2), Ok(3)),
        Err(FsError::StaleVersion(3, 2))
    ));
    assert_eq!(edit("abc", "b", "", WriteGuard::ReplaceIfVersion(2), Ok(2)).unwrap(), "ac");
    assert!(matches!(
        edit("abc", "b", "x", WriteGuard::ReplaceIfVersion(2), Err("io".to_string())),
        Err(FsError::Io(_))
    ));
}

#[test]
fn facts_of_files() {
    let f = FileFacts { is_file: true, is_dir: false, is_symlink: false, len: 5, modified: Some(6) };
    assert_eq!(version_from_meta(&f), 6 ^ 5);
    assert_eq!(fs_info(&f), FsInfo { kind: FsKind::File, size: Some(5), version: 3 });
    let big = FileFacts { modified: Some((1u128 << 64) + 6), ..f };
    assert_eq!(version_from_meta(&big), 3);
    assert_eq!(version_from_meta(&FileFacts { modified: None, ..f }), 5);
    assert_eq!(fs_kind(&dir_facts()), FsKind::Dir);
    assert_eq!(fs_info(&dir_facts()).size, None);
    let link = FileFacts { is_file: false, is_symlink: true, ..f };
    assert_eq!(fs_kind(&link), FsKind::Symlink);
    assert_eq!(fs_kind(&FileFacts { is_symlink: false, ..link }), FsKind::Other);
    assert_eq!(temp_name(Some("a.txt"), 42), ".a.txt.localai-tmp-42");
    assert_eq!(temp_name(None, 1), ".tmp.localai-tmp-1");
    assert_eq!(chrono_now(3_661), "01:01:01");
}

#[test]
fn modes_have_names() {
    assert_eq!(SandboxMode::from_str(" RO ").unwrap(), SandboxMode::ReadOnly);
    assert_eq!(SandboxMode::from_str("workspace").unwrap(), SandboxMode::WorkspaceWrite);
    assert_eq!(SandboxMode::from_str("ALL").unwrap(), SandboxMode::Full);
    for m in [SandboxMode::ReadOnly, SandboxMode::WorkspaceWrite, SandboxMode::Full] {
        assert_eq!(SandboxMode::from_str(m.label()).unwrap(), m);
    }
    assert_eq!(
        SandboxMode::from_str("x").err().unwrap(),
        "未知模式 `x`(可选:read-only / workspace-write / full)"
    );
}

#[test]
fn errors_have_codes() {
    assert_eq!(FsError::NotFound("p".to_string()).message(), "FS_NOT_FOUND: p");
    assert_eq!(FsError::NotDirectory("p".to_string()).message(), "FS_NOT_DIRECTORY: p");
    assert_eq!(FsError::PermissionDenied("p".to_string()).message(), "FS_PERMISSION_DENIED: p");
    assert_eq!(FsError::NotText("p".to_string()).message(), "FS_NOT_TEXT: p");
    assert_eq!(FsError::TooLarge(9).message(), "FS_TOO_LARGE: 超过 9 字节上限");
    assert_eq!(FsError::StaleVersion(1, 2).message(), "FS_STALE_VERSION: 期望 v2,当前 v1");
    assert_eq!(FsError::Io("e".to_string()).message(), "FS_IO_ERROR: e");
}

#[test]
fn paths_are_made_absolute() {
    let (_disk, fs) = test_fs();
    assert_eq!(fs.normalize(PathProbe::Exists(Ok(path("/a")))).unwrap().display, "/a");
    assert!(matches!(
        fs.normalize(PathProbe::Exists(Err("x".to_string()))),
        Err(FsError::Io(_))
    ));
    assert!(matches!(
        fs.normalize(PathProbe::Absent(false, Ok(path("/a")))),
        Err(FsError::Io(m)) if m == "非法路径"
    ));
    assert_eq!(fs.normalize(PathProbe::Absent(true, Ok(path("/a/b")))).unwrap().name, "b");
    assert!(fs.normalize(PathProbe::Absent(true, Err("x".to_string()))).is_err());
}

#[test]
fn directories_may_be_made_where_files_may() {
    let (_disk, mut fs) = test_fs();
    assert!(fs.mkdir(&below("d"), "t").is_ok());
    assert!(fs.done("mkdir", &below("d"), Err("full".to_string()), "t").is_err());
    assert!(fs.mkdir(&path("/etc/d"), "t").is_err());
    let log = fs.access_log(5);
    assert_eq!(log.len(), 2);
    assert!(log.iter().all(|l| l.op == "mkdir" && !l.ok));
}

#[test]
fn equal_names_keep_their_order() {
    let sorted = sort_entries(vec![
        entry("b", FsKind::File),
        entry("a", FsKind::Dir),
        entry("b", FsKind::Dir),
        entry("a", FsKind::File),
    ]);
    let got: Vec<(&str, FsKind)> = sorted.iter().map(|e| (e.name.as_str(), e.kind)).collect();
    assert_eq!(
        got,
        vec![
            ("a", FsKind::Dir),
            ("a", FsKind::File),
            ("b", FsKind::File),
            ("b", FsKind::Dir),
        ]
    );
}

#[test]
fn steps_do_not_lead_out_of_the_workspace() {
    let (_disk, mut fs) = test_fs();
    fs.policy.extra_writable.push(path("/var/cache"));
    for p in [below("../x"), below("a/../../x"), below("."), path("/var/cache/../x")] {
        assert!(fs.fence_read(&p).is_err(), "{}", p.display);
        assert!(fs.fence_write(&p).is_err(), "{}", p.display);
        assert!(!fs.policy.within_writable_roots(&p));
    }
    assert!(fs.fence_write(&below("..x/.y")).is_ok());
    fs.set_mode(SandboxMode::Full);
    assert!(fs.fence_read(&below("../x")).is_ok());
}

#[test]
fn missing_directories_have_a_path() {
    let (_disk, mut fs) = test_fs();
    let names = |v: &[&str]| -> Vec<String> { v.iter().map(|s| s.to_string()).collect() };
    let p = fs.normalize_missing(&path(ROOT), &names(&["a", "b", "c"]), '/').unwrap();
    assert_eq!(p.display, "/tmp/ws/a/b/c");
    assert_eq!(p.parts, names(&["tmp", "ws", "a", "b", "c"]));
    assert_eq!(p.name, "c");
    assert!(fs.mkdir(&p, "t").is_ok());
    let top = fs.normalize_missing(&path("/"), &names(&["x"]), '/').unwrap();
    assert_eq!((top.display.as_str(), top.parts.len()), ("/x", 1));
    assert!(fs.mkdir(&top, "t").is_err());
    let same = fs.normalize_missing(&path(ROOT), &names(&[]), '/').unwrap();
    assert_eq!((same.display.as_str(), same.name.as_str()), (ROOT, "ws"));
    for bad in [["a", ".."], ["a", "."], ["", "a"]] {
        assert!(matches!(
            fs.normalize_missing(&path(ROOT), &names(&bad), '/'),
            Err(FsError::Io(m)) if m == "非法路径"
        ));
    }
}
