use localai::cordis::{Loader, Plugin};
use localai::fs::service::{MetaFailure, ReadProbe, WriteProbe};
use localai::fs::{
    version_from_meta, FileFacts, FsChild, FsPath, FsService, SandboxMode, WriteGuard,
};
use localai::plugins::tools::{
    factory, fs_cat, fs_cmd, fs_edited, fs_log, fs_ls, fs_stat, fs_written, mode_cmd, pwd_cmd,
    run_cmd, run_report, FsCommand, ToolsOptions, ToolsPlugin,
};
use localai::subprocess::{finished, RunOptions, SubprocessService};

const ROOT: &str = "/tmp/ws";
const TIME: &str = "12:00:00";

fn path(s: &str) -> FsPath {
    let parts: Vec<String> = s.split('/').filter(|p| !p.is_empty()).map(String::from).collect();
    FsPath {
        name: parts.last().cloned().unwrap_or_default(),
        parts,
        display: s.to_string(),
    }
}

/// A loader with the tools, and a disk in memory.
struct Shell {
    loader: Loader<ToolsPlugin>,
    fs: FsService,
    files: Vec<(String, Vec<u8>)>,
}

fn test_loader() -> Shell {
    let mut loader = Loader::new(vec![factory()]);
    let root = loader.root().id();
    for key in [1, 2] {
        let instance = loader.root_mut().next_id();
        if key == 1 {
            loader.root_mut().provide::<FsService>(root, instance);
        } else {
            loader.root_mut().provide::<SubprocessService>(root, instance);
        }
    }
    assert!(loader.load("tools", None, Ok(ToolsOptions::default())).is_ok());
    Shell { loader, fs: FsService::new(path(ROOT)), files: Vec::new() }
}

impl Shell {
    fn resolve(&self, p: &str) -> FsPath {
        if p.starts_with('/') {
            path(p)
        } else if p == "." {
            path(ROOT)
        } else {
            path(&format!("{ROOT}/{p}"))
        }
    }

    fn bytes(&self, p: &FsPath) -> Option<Vec<u8>> {
        self.files.iter().find(|f| f.0 == p.display).map(|f| f.1.clone())
    }

    fn put(&mut self, p: &FsPath, bytes: &[u8]) {
        self.files.retain(|f| f.0 != p.display);
        self.files.push((p.display.clone(), bytes.to_vec()));
    }

    fn meta(&self, p: &FsPath) -> Result<FileFacts, MetaFailure> {
        if p.display == ROOT {
            return Ok(FileFacts {
                is_file: false,
                is_dir: true,
                is_symlink: false,
                len: 0,
                modified: None,
            });
        }
        match self.bytes(p) {
            Some(b) => Ok(FileFacts {
                is_file: true,
                is_dir: false,
                is_symlink: false,
                len: b.len() as u64,
                modified: Some(1),
            }),
            None => Err(MetaFailure { not_found: true, text: "x".to_string() }),
        }
    }

    fn read(&self, p: &FsPath) -> ReadProbe {
        ReadProbe { meta: self.meta(p), bytes: self.bytes(p).ok_or("x".to_string()) }
    }

    fn children(&self) -> Vec<FsChild> {
        self.files
            .iter()
            .map(|f| FsChild {
                name: path(&f.0).name,
                facts: FileFacts {
                    is_file: true,
                    is_dir: false,
                    is_symlink: false,
                    len: f.1.len() as u64,
                    modified: Some(1),
                },
            })
            .collect()
    }

    fn run_command(&mut self, line: &str) -> Option<String> {
        let call = self.loader.root().run_command(line)?;
        let args = call.args;
        Some(match call.name.as_str() {
            "mode" => mode_cmd(&mut self.fs, &args),
            "pwd" => pwd_cmd(&self.fs),
            "run" => {
                let cmd = run_cmd(&args).unwrap();
                let svc = SubprocessService::new(path(ROOT));
                let plan = svc.run(&cmd, &RunOptions::default(), false).unwrap();
                let out = plan.args.join(" ") + "\n";
                run_report(Ok(finished(Some(0), &out.into_bytes(), &Vec::new(), 2)))
            }
            _ => self.fs_command(&args),
        })
    }

    fn fs_command(&mut self, args: &str) -> String {
        match fs_cmd(args) {
            FsCommand::List(p) => {
                let p = self.resolve(&p);
                let (meta, children) = (self.meta(&p), self.children());
                fs_ls(&mut self.fs, &p, meta, Ok(children), TIME)
            }
            FsCommand::Read(p) => {
                let p = self.resolve(&p);
                let probe = self.read(&p);
                fs_cat(&mut self.fs, &p, probe, TIME)
            }
            FsCommand::Write(p, content) => {
                let p = self.resolve(&p);
                let probe = WriteProbe {
                    exists: self.bytes(&p).is_some(),
                    version: Err("x".to_string()),
                };
                match self.fs.write_text(&p, WriteGuard::Unconditional, probe, TIME) {
                    Ok(()) => {
                        self.put(&p, content.as_bytes());
                        fs_written(&mut self.fs, &p, Ok(()), TIME)
                    }
                    Err(e) => e.message(),
                }
            }
            FsCommand::Stat(p) => {
                let p = self.resolve(&p);
                let meta = self.meta(&p);
                fs_stat(&mut self.fs, &p, meta, TIME)
            }
            FsCommand::Edit(p, from, to) => {
                let p = self.resolve(&p);
                let probe = self.read(&p);
                let version = match self.meta(&p) {
                    Ok(f) => Ok(version_from_meta(&f)),
                    Err(e) => Err(e.text),
                };
                let done = self.fs.edit_text(
                    &p,
                    &from,
                    &to,
                    WriteGuard::Unconditional,
                    probe,
                    version,
                    TIME,
                );
                match done {
                    Ok(content) => {
                        self.put(&p, content.as_bytes());
                        fs_edited(&mut self.fs, &p, Ok(()), TIME)
                    }
                    Err(e) => e.message(),
                }
            }
            FsCommand::Log(n) => fs_log(&self.fs, n),
            FsCommand::Usage(u) => u.to_string(),
        }
    }
}

#[test]
fn fs_commands_work() {
    let mut root = test_loader();
    let w = root.run_command("fs write hello.txt 你好,localai").unwrap();
    assert!(w.contains("已写入"), "{w}");
    let c = root.run_command("fs cat hello.txt").unwrap();
    assert_eq!(c, "你好,localai");
    let s = root.run_command("fs stat hello.txt").unwrap();
    assert!(s.contains("version=v"), "{s}");
    let ls = root.run_command("fs ls .").unwrap();
    assert!(ls.contains("hello.txt"), "{ls}");
    root.put(&path("/tmp/ws/.env"), b"KEY=x");
    let deny = root.run_command("fs cat .env").unwrap();
    assert!(deny.contains("敏感文件"), "{deny}");
    root.put(&path("/tmp/x.txt"), b"x");
    let deny2 = root.run_command("fs cat /tmp/x.txt").unwrap();
    assert!(deny2.contains("越界"), "{deny2}");
    let pwd = root.run_command("pwd").unwrap();
    assert_eq!(pwd, ROOT);
}

#[test]
fn run_command_works() {
    let mut root = test_loader();
    let out = root.run_command("run echo hello").unwrap();
    assert!(out.contains("exit=0"), "{out}");
    assert!(out.contains("hello"), "{out}");
    assert_eq!(out, "exit=0 (2)\n--- stdout ---\nhello\n\n--- stderr ---\n");
}

#[test]
fn mode_command_switches_and_fences() {
    let mut root = test_loader();
    let m = root.run_command("mode").unwrap();
    assert!(m.contains("workspace-write"), "{m}");
    let r = root.run_command("mode read-only").unwrap();
    assert!(r.contains("read-only"), "{r}");
    assert_eq!(root.fs.mode(), SandboxMode::ReadOnly);
    let w = root.run_command("fs write x.txt hi").unwrap();
    assert!(w.contains("只读"), "{w}");
    root.run_command("mode workspace-write").unwrap();
    assert_eq!(root.fs.mode(), SandboxMode::WorkspaceWrite);
    let ok = root.run_command("fs write x.txt hi").unwrap();
    assert!(ok.contains("已写入"), "{ok}");
    let log = root.run_command("fs log 10").unwrap();
    assert!(log.contains("DENY"), "{log}");
    assert_eq!(
        log,
        "12:00:00 write  OK   /tmp/ws/x.txt\n12:00:00 write  DENY /tmp/ws/x.txt"
    );
    assert_eq!(
        root.run_command("mode x").unwrap(),
        "错误: 未知模式 `x`(可选:read-only / workspace-write / full)"
    );
}

#[test]
fn unload_removes_commands() {
    let mut root = test_loader();
    root.loader.unload("tools").unwrap();
    assert!(root.run_command("fs").is_none());
    assert!(root.run_command("run").is_none());
    assert!(root.run_command("pwd").is_none());
}

#[test]
fn edits_by_command() {
    let mut root = test_loader();
    root.run_command("fs write a.txt one two");
    assert!(root.run_command("fs edit a.txt two 2").unwrap().contains("先读取"));
    root.run_command("fs cat a.txt");
    assert_eq!(root.run_command("fs edit a.txt two 2").unwrap(), "已编辑 /tmp/ws/a.txt");
    assert_eq!(root.run_command("fs cat a.txt").unwrap(), "one 2");
    assert_eq!(root.run_command("fs stat none").unwrap(), "FS_NOT_FOUND: /tmp/ws/none");
}

#[test]
fn lines_of_the_command_for_files() {
    assert!(matches!(fs_cmd("ls"), FsCommand::List(p) if p == "."));
    assert!(matches!(fs_cmd("cat"), FsCommand::Usage(_)));
    assert!(matches!(fs_cmd("write a"), FsCommand::Write(p, c) if p == "a" && c.is_empty()));
    assert!(matches!(
        fs_cmd("write a  b c "),
        FsCommand::Write(p, c) if p == "a" && c == "b c"
    ));
    assert!(matches!(
        fs_cmd("edit a b"),
        FsCommand::Edit(p, f, t) if p == "a" && f == "b" && t.is_empty()
    ));
    assert!(matches!(fs_cmd("edit a"), FsCommand::Usage(_)));
    assert!(matches!(fs_cmd("log"), FsCommand::Log(20)));
    assert!(matches!(fs_cmd("log 5"), FsCommand::Log(5)));
    assert!(matches!(fs_cmd("log x"), FsCommand::Log(20)));
    assert!(matches!(fs_cmd(""), FsCommand::Usage(_)));
    assert!(run_cmd("  ").is_none());
}

#[test]
fn listings_are_aligned() {
    let mut root = test_loader();
    assert_eq!(root.run_command("fs ls").unwrap(), "(空目录) /tmp/ws");
    root.put(&path("/tmp/ws/b"), b"12345");
    root.put(&path("/tmp/ws/a"), b"");
    assert_eq!(
        root.run_command("fs ls").unwrap(),
        "/tmp/ws:\n-          0 a\n-          5 b"
    );
    assert_eq!(FsService::new(path(ROOT)).access_log(3).len(), 0);
    assert_eq!(fs_log(&FsService::new(path(ROOT)), 5), "(暂无访问记录)");
}

#[test]
fn the_tools_need_their_services() {
    let mut l = Loader::new(vec![factory()]);
    assert!(l.load("tools", None, Ok(ToolsOptions::default())).is_err());
    assert!(!l.is_loaded("tools"));
    assert_eq!(ToolsOptions::default().run_timeout(), 30_000_000_000);
    assert_eq!(ToolsOptions { run_timeout_secs: Some(2) }.run_timeout(), 2_000_000_000);
    assert_eq!(factory().inject(), vec!["fs", "subprocess"]);
    assert_eq!(run_report(Err("空命令".to_string())), "错误: 空命令");
}
