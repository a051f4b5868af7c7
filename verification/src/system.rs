//! What the model is told of the machine that it runs on.

use crate::text::number::{decimal, decimal_spec};
use crate::text::{first, first_of};
use vstd::prelude::*;
use vstd::string::*;

verus! {

#[derive(Debug)]
pub struct SystemInfo {
    pub os: String,
    pub os_family: String,
    pub arch: String,
    pub host: String,
    pub user: String,
    pub cwd: String,
    pub shell: String,
    pub cpus: usize,
    pub lang: String,
    pub term: String,
    pub windows: bool,
}

/// What the environment says: each variable where it is set.
pub struct Environment {
    pub os: String,
    pub os_family: String,
    pub arch: String,
    pub hostname: Option<String>,
    pub computer_name: Option<String>,
    pub user: Option<String>,
    pub user_name: Option<String>,
    pub current_dir: Option<String>,
    pub shell: Option<String>,
    pub comspec: Option<String>,
    pub cpus: Option<usize>,
    pub lang: Option<String>,
    pub lc_all: Option<String>,
    pub language: Option<String>,
    pub term_program: Option<String>,
    pub term: Option<String>,
    pub windows: bool,
}

/// The lines that every system has.
pub open spec fn common_lines(s: SystemInfo) -> Seq<char> {
    "- 操作系统: "@ + s.os@ + " (family "@ + s.os_family@ + ", "@ + s.arch@ + ")\n- 主机名: "@
        + s.host@ + "\n- 用户: "@ + s.user@ + "\n- 当前工作目录: "@ + s.cwd@ + "\n- 默认 shell: "@ + s.shell@
        + "\n- CPU 逻辑核数: "@ + decimal_spec(s.cpus as nat) + "\n"@
}

/// A line about something, unless there is nothing to say.
pub open spec fn optional_line(head: Seq<char>, value: Seq<char>) -> Seq<char> {
    if value.len() > 0 {
        head + value + "\n"@
    } else {
        Seq::empty()
    }
}

pub const SHELL_POLICY: &'static str = "- Shell 策略: 优先使用 cmd(cmd /C 执行,支持内置命令/管道/重定向);\n  仅当 cmd 无法胜任(需要 PowerShell 专属语法)时才用 powershell -Command ...";

/// What the model is told.
pub open spec fn prompt_spec(s: SystemInfo) -> Seq<char> {
    common_lines(s) + optional_line("- 语言环境: "@, s.lang@) + optional_line("- 终端: "@, s.term@) + (
    if s.windows {
        SHELL_POLICY@
    } else {
        Seq::empty()
    })
}

impl SystemInfo {
    /// What is known of the system, from the environment.
    pub fn collect(env: Environment) -> (r: SystemInfo)
        ensures
            r.os@ == env.os@,
            r.os_family@ == env.os_family@,
            r.arch@ == env.arch@,
            r.host@ == first_of(env.hostname, env.computer_name, "unknown"@),
            r.user@ == first_of(env.user, env.user_name, "unknown"@),
            r.cwd@ == first_of(env.current_dir, None, "unknown"@),
            r.shell@ == first_of(env.shell, env.comspec, "unknown"@),
            r.cpus == (match env.cpus {
                Some(n) => n,
                None => 1,
            }),
            r.lang@ == (match env.lang {
                Some(x) => x@,
                None => first_of(env.lc_all, env.language, ""@),
            }),
            r.term@ == first_of(env.term_program, env.term, ""@),
            r.windows == env.windows,
    {
        SystemInfo {
            os: env.os,
            os_family: env.os_family,
            arch: env.arch,
            host: first(&env.hostname, &env.computer_name, "unknown"),
            user: first(&env.user, &env.user_name, "unknown"),
            cwd: first(&env.current_dir, &None, "unknown"),
            shell: first(&env.shell, &env.comspec, "unknown"),
            cpus: match env.cpus {
                Some(n) => n,
                None => 1,
            },
            lang: match env.lang {
                Some(x) => x,
                None => first(&env.lc_all, &env.language, ""),
            },
            term: first(&env.term_program, &env.term, ""),
            windows: env.windows,
        }
    }

    /// What the model is told of the system.
    pub fn to_prompt(&self) -> (r: String)
        ensures
            r@ == prompt_spec(*self),
    {
        let mut s = "- 操作系统: ".to_string();
        s.append(self.os.as_str());
        s.append(" (family ");
        s.append(self.os_family.as_str());
        s.append(", ");
        s.append(self.arch.as_str());
        s.append(")\n- 主机名: ");
        s.append(self.host.as_str());
        s.append("\n- 用户: ");
        s.append(self.user.as_str());
        s.append("\n- 当前工作目录: ");
        s.append(self.cwd.as_str());
        s.append("\n- 默认 shell: ");
        s.append(self.shell.as_str());
        s.append("\n- CPU 逻辑核数: ");
        s.append(decimal(self.cpus as u128).as_str());
        s.append("\n");
        let ghost common = s@;
        assert(common == common_lines(*self));
        if self.lang.as_str().unicode_len() > 0 {
            s.append("- 语言环境: ");
            s.append(self.lang.as_str());
            s.append("\n");
        }
        let ghost lang = s@;
        assert(lang =~= common + optional_line("- 语言环境: "@, self.lang@));
        if self.term.as_str().unicode_len() > 0 {
            s.append("- 终端: ");
            s.append(self.term.as_str());
            s.append("\n");
        }
        assert(s@ =~= lang + optional_line("- 终端: "@, self.term@));
        if self.windows {
            s.append(SHELL_POLICY);
        }
        assert(s@ =~= prompt_spec(*self));
        s
    }
}

}  // verus!
