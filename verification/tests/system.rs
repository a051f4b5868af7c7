use localai::system::{Environment, SystemInfo, SHELL_POLICY};

fn environment(windows: bool) -> Environment {
    Environment {
        os: "linux".to_string(),
        os_family: "unix".to_string(),
        arch: "x86_64".to_string(),
        hostname: None,
        computer_name: Some("box".to_string()),
        user: Some("u".to_string()),
        user_name: Some("other".to_string()),
        current_dir: Some("/work".to_string()),
        shell: None,
        comspec: None,
        cpus: Some(8),
        lang: None,
        lc_all: Some("zh_CN.UTF-8".to_string()),
        language: None,
        term_program: None,
        term: None,
        windows,
    }
}

#[test]
fn collect_fills_basic_fields() {
    let s = SystemInfo::collect(environment(false));
    assert!(!s.os.is_empty());
    assert!(!s.arch.is_empty());
    assert!(!s.cwd.is_empty());
    assert!(s.cpus >= 1);
    let p = s.to_prompt();
    assert!(p.contains("操作系统"));
    assert!(p.contains(&s.cwd), "prompt 应包含工作目录");
    assert!(p.contains("默认 shell"));
}

#[test]
fn windows_prompt_carries_shell_policy() {
    let s = SystemInfo::collect(environment(true));
    if s.windows {
        assert!(s.to_prompt().contains("cmd"), "Windows 提示应声明 cmd 优先策略");
    }
    assert!(s.windows);
    assert!(s.to_prompt().contains(SHELL_POLICY));
}

#[test]
fn the_prompt_in_full() {
    let s = SystemInfo::collect(environment(false));
    assert_eq!((s.host.as_str(), s.user.as_str(), s.shell.as_str()), ("box", "u", "unknown"));
    assert_eq!(
        s.to_prompt(),
        "- 操作系统: linux (family unix, x86_64)\n- 主机名: box\n- 用户: u\n\
         - 当前工作目录: /work\n- 默认 shell: unknown\n- CPU 逻辑核数: 8\n\
         - 语言环境: zh_CN.UTF-8\n"
    );
    let bare = SystemInfo::collect(Environment { cpus: None, ..environment(false) });
    assert_eq!(bare.cpus, 1);
}
