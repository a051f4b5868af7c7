use localai::fs::FsPath;
use localai::subprocess::{
    finished, output_failure, poll, spawn_failure, PollStep, RunOptions, SubprocessService,
};

fn path(s: &str) -> FsPath {
    let parts: Vec<String> = s.split('/').filter(|p| !p.is_empty()).map(String::from).collect();
    FsPath {
        name: parts.last().cloned().unwrap_or_default(),
        parts,
        display: s.to_string(),
    }
}

fn test_svc() -> SubprocessService {
    SubprocessService::new(path("/tmp/ws"))
}

#[test]
fn run_echo() {
    let plan = test_svc().run("echo hello rust", &RunOptions::default(), false).unwrap();
    assert_eq!(plan.program, "echo");
    assert_eq!(plan.args, vec!["hello", "rust"]);
    assert_eq!(plan.cwd.display, "/tmp/ws");
    assert_eq!(plan.timeout, 30_000_000_000);
    let out = finished(Some(0), &b"hello rust\n".to_vec(), &Vec::new(), 3);
    assert_eq!(out.status, 0);
    assert!(out.stdout.contains("hello rust"));
    assert_eq!((out.stderr.as_str(), out.duration_ms), ("", 3));
}

#[test]
fn unknown_command_fails() {
    let svc = test_svc();
    let line = "definitely-not-a-real-cmd-xyz";
    assert_eq!(svc.run(line, &RunOptions::default(), false).unwrap().program, line);
    assert_eq!(
        spawn_failure(line, "No such file"),
        "启动命令失败 `definitely-not-a-real-cmd-xyz`: No such file"
    );
    let windows = finished(Some(1), &Vec::new(), &b"not recognized".to_vec(), 0);
    assert_ne!(windows.status, 0, "未知命令应非零退出");
    assert!(windows.stderr.contains("not recognized"));
}

#[test]
fn timeout_kills() {
    let opts = RunOptions { timeout: 300_000_000, ..RunOptions::default() };
    let plan = test_svc().run("sleep 30", &opts, false).unwrap();
    assert_eq!(plan.timeout, 300_000_000);
    assert!(matches!(poll(Ok(None), 300_000_000, plan.timeout, "300ms", "sleep 30"), PollStep::Wait));
    match poll(Ok(None), 300_000_001, plan.timeout, "300ms", "sleep 30") {
        PollStep::Kill(m) => assert_eq!(m, "命令超时(300ms)已 kill: `sleep 30`"),
        _ => panic!("应超时 kill"),
    }
}

#[test]
fn windows_runs_cmd_builtins() {
    let plan = test_svc().run("echo ok", &RunOptions::default(), true).unwrap();
    assert_eq!(plan.program, "cmd");
    assert_eq!(plan.args, vec!["/C", "echo ok"]);
    let out = finished(Some(0), &b"ok\r\n".to_vec(), &Vec::new(), 1);
    assert_eq!(out.status, 0);
    assert!(out.stdout.contains("ok"), "stdout: {}", out.stdout);
}

#[test]
fn cwd_outside_workspace_denied() {
    let svc = test_svc();
    let opts = RunOptions { cwd: Some(path("/tmp")), ..RunOptions::default() };
    let out = svc.run("echo hi", &opts, false);
    assert!(out.is_err(), "越界 cwd 应拒绝");
    assert_eq!(out.err().unwrap(), "拒绝执行:工作目录越界 /tmp");
    let below = RunOptions { cwd: Some(path("/tmp/ws/a")), ..RunOptions::default() };
    assert_eq!(svc.run("echo hi", &below, false).unwrap().cwd.display, "/tmp/ws/a");
    let beside = RunOptions { cwd: Some(path("/tmp/wsx")), ..RunOptions::default() };
    assert!(svc.run("echo hi", &beside, false).is_err());
}

#[test]
fn empty_commands_are_refused() {
    let svc = test_svc();
    assert_eq!(svc.run("  \t ", &RunOptions::default(), false).err().unwrap(), "空命令");
    assert_eq!(svc.run(" ", &RunOptions::default(), true).err().unwrap(), "空命令");
    let named = RunOptions {
        env: vec![("A".to_string(), "1".to_string())],
        ..RunOptions::default()
    };
    assert_eq!(svc.run("ls", &named, true).unwrap().env, named.env);
    let zero = RunOptions { timeout: 0, ..RunOptions::default() };
    assert_eq!(svc.run("ls", &zero, false).unwrap().timeout, 30_000_000_000);
}

#[test]
fn the_end_of_a_process() {
    assert!(matches!(poll(Ok(Some(Some(3))), 0, 1, "", ""), PollStep::Exited(Some(3))));
    match poll(Err("gone".to_string()), 0, 1, "", "") {
        PollStep::Failed(m) => assert_eq!(m, "wait 失败: gone"),
        _ => panic!("应失败"),
    }
    assert_eq!(finished(None, &Vec::new(), &Vec::new(), 0).status, -1);
    assert_eq!(output_failure("x"), "读取输出失败: x");
    let broken = finished(Some(0), &vec![b'a', 0xff, b'b'], &Vec::new(), 0);
    assert_eq!(broken.stdout, "a\u{fffd}b");
}

#[test]
fn no_step_leads_out_of_the_workspace() {
    let svc = SubprocessService::new(path("/tmp"));
    for dir in ["/tmp/..", "/tmp/a/../..", "/tmp/.", "/tmp/a/.."] {
        let opts = RunOptions { cwd: Some(path(dir)), ..RunOptions::default() };
        let refused = svc.run("echo hi", &opts, false).err().unwrap();
        assert_eq!(refused, format!("拒绝执行:工作目录越界 {dir}"));
    }
    let named = RunOptions { cwd: Some(path("/tmp/..a/.b")), ..RunOptions::default() };
    assert!(svc.run("echo hi", &named, false).is_ok());
    let above = SubprocessService::new(path("../ws"));
    assert!(above.run("echo hi", &RunOptions::default(), false).is_ok());
}
