//! What the shell is started with.

use crate::cordis::loader::PluginStatus;
use crate::text::{pad_right, pad_right_spec, same, texts};
use vstd::prelude::*;
use vstd::string::*;

verus! {

/// The server, as it is configured.
#[derive(Debug)]
pub struct ServerCfg {
    pub base_url: String,
    pub api_key: Option<String>,
    /// The environment variable that holds the key.
    pub api_key_env: Option<String>,
    pub default_model: String,
    pub max_concurrent: usize,
    pub timeout_secs: u64,
}

/// A plugin, as it is configured.
#[derive(Debug)]
pub struct PluginCfg {
    pub name: String,
    pub enabled: bool,
    /// Its options, as they were written; none where they are null.
    pub options: Option<String>,
}

pub fn default_model() -> (r: String)
    ensures
        r@ == "Qwen3.6-35b"@,
{
    "Qwen3.6-35b".to_string()
}

pub fn default_concurrent() -> (r: usize)
    ensures
        r == 6,
{
    6
}

pub fn default_timeout() -> (r: u64)
    ensures
        r == 120,
{
    120
}

pub fn default_true() -> (r: bool)
    ensures
        r,
{
    true
}

/// A text that is there and not empty.
pub open spec fn present(s: Option<String>) -> Option<Seq<char>> {
    match s {
        Some(v) => if v@.len() > 0 {
            Some(v@)
        } else {
            None
        },
        None => None,
    }
}

/// The key: that of the environment variable where one is named and set,
/// otherwise the configured one. `variable` is the value of the variable that
/// `api_key_env` names.
pub fn resolve_key(server: &ServerCfg, variable: Option<String>) -> (r: Result<String, String>)
    ensures
        match (if server.api_key_env is Some {
            present(variable)
        } else {
            None
        }) {
            Some(v) => r is Ok && r->Ok_0@ == v,
            None => match present(server.api_key) {
                Some(k) => r is Ok && r->Ok_0@ == k,
                None => r is Err && r->Err_0@ == "未配置 API key:请设置环境变量 "@ + (
                match server.api_key_env {
                    Some(e) => e@,
                    None => "LLM_API_KEY"@,
                }) + " 或在 localai.yml server.api_key 中配置"@,
            },
        },
{
    if server.api_key_env.is_some() {
        if let Some(v) = variable {
            if v.as_str().unicode_len() > 0 {
                return Ok(v);
            }
        }
    }
    if let Some(k) = &server.api_key {
        if k.as_str().unicode_len() > 0 {
            return Ok(k.clone());
        }
    }
    let mut m = "未配置 API key:请设置环境变量 ".to_string();
    match &server.api_key_env {
        Some(e) => {
            m.append(e.as_str());
        },
        None => {
            m.append("LLM_API_KEY");
        },
    }
    m.append(" 或在 localai.yml server.api_key 中配置");
    Err(m)
}

/// What the shell is started for.
pub enum RunMode {
    ListPlugins,
    /// One question, and its answer.
    Once(String),
    /// The chain of small questions.
    Micro(String),
    SelfTest,
    Terminal,
}

/// Whether `mode` is what the arguments ask for; the first is the program.
pub open spec fn mode_matches(args: Seq<Seq<char>>, mode: RunMode) -> bool {
    if args.len() < 2 {
        mode is Terminal
    } else if args[1] == "--list-plugins"@ {
        mode is ListPlugins
    } else if args[1] == "--once"@ {
        mode matches RunMode::Once(t) && t@ == (if args.len() > 2 {
            args[2]
        } else {
            "你好"@
        })
    } else if args[1] == "--micro"@ {
        mode matches RunMode::Micro(t) && t@ == (if args.len() > 2 {
            args[2]
        } else {
            ""@
        })
    } else if args[1] == "--self-test"@ {
        mode is SelfTest
    } else {
        mode is Terminal
    }
}

/// What the arguments ask for.
pub fn run_mode(args: &Vec<String>) -> (r: RunMode)
    ensures
        mode_matches(texts(args@), r),
{
    let ghost t = texts(args@);
    if args.len() < 2 {
        return RunMode::Terminal;
    }
    assert(t[1] == args@[1]@);
    let first = args[1].as_str();
    if same(first, "--list-plugins") {
        RunMode::ListPlugins
    } else if same(first, "--once") {
        if args.len() > 2 {
            assert(t[2] == args@[2]@);
            RunMode::Once(args[2].clone())
        } else {
            RunMode::Once("你好".to_string())
        }
    } else if same(first, "--micro") {
        if args.len() > 2 {
            assert(t[2] == args@[2]@);
            RunMode::Micro(args[2].clone())
        } else {
            RunMode::Micro("".to_string())
        }
    } else if same(first, "--self-test") {
        RunMode::SelfTest
    } else {
        RunMode::Terminal
    }
}

/// A plugin in the list of plugins.
pub fn plugin_line(p: &PluginStatus) -> (r: String)
    ensures
        r@ == pad_right_spec(p.name@, 12) + " "@ + (if p.loaded {
            "已加载"@
        } else {
            "未加载"@
        }),
{
    let mut m = pad_right(p.name.as_str(), 12);
    m.append(" ");
    m.append(
        if p.loaded {
            "已加载"
        } else {
            "未加载"
        },
    );
    m
}

/// A plugin in the report of the self test.
pub fn self_test_line(p: &PluginStatus) -> (r: String)
    ensures
        r@ == "插件 "@ + pad_right_spec(p.name@, 12) + " "@ + (if p.loaded {
            "已加载 ✓"@
        } else {
            "未加载"@
        }),
{
    let mut m = "插件 ".to_string();
    m.append(pad_right(p.name.as_str(), 12).as_str());
    m.append(" ");
    m.append(
        if p.loaded {
            "已加载 ✓"
        } else {
            "未加载"
        },
    );
    m
}

}  // verus!
