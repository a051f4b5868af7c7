//! Access to files, in four layers: the mode of the session, the borders of the
//! workspace, the files that are never touched, and the guards of an operation.
//! Every operation is noted in a ledger.

pub mod access_laws;
pub mod laws;
pub mod policy;
pub mod service;

use crate::text::number::{decimal, decimal_spec};
use crate::text::search::{ascii_lower, ascii_lower_spec};
use crate::text::same;
use crate::text::trim::{trim, trim_spec};
use vstd::prelude::*;
use vstd::string::*;

pub use policy::{FsPath, FsPolicy};
pub use service::{AccessLog, FsService};

verus! {

/// Why an operation was refused or failed.
#[derive(Debug)]
pub enum FsError {
    NotFound(String),
    NotDirectory(String),
    PermissionDenied(String),
    NotText(String),
    TooLarge(u64),
    /// The version that was found, and the one that was wanted.
    StaleVersion(u64, u64),
    Io(String),
}

#[verifier::ext_equal]
pub enum FsErrorView {
    NotFound(Seq<char>),
    NotDirectory(Seq<char>),
    PermissionDenied(Seq<char>),
    NotText(Seq<char>),
    TooLarge(u64),
    StaleVersion(u64, u64),
    Io(Seq<char>),
}

impl View for FsError {
    type V = FsErrorView;

    open spec fn view(&self) -> FsErrorView {
        match self {
            FsError::NotFound(p) => FsErrorView::NotFound(p@),
            FsError::NotDirectory(p) => FsErrorView::NotDirectory(p@),
            FsError::PermissionDenied(m) => FsErrorView::PermissionDenied(m@),
            FsError::NotText(p) => FsErrorView::NotText(p@),
            FsError::TooLarge(n) => FsErrorView::TooLarge(*n),
            FsError::StaleVersion(got, want) => FsErrorView::StaleVersion(*got, *want),
            FsError::Io(e) => FsErrorView::Io(e@),
        }
    }
}

pub open spec fn error_text(e: FsErrorView) -> Seq<char> {
    match e {
        FsErrorView::NotFound(p) => "FS_NOT_FOUND: "@ + p,
        FsErrorView::NotDirectory(p) => "FS_NOT_DIRECTORY: "@ + p,
        FsErrorView::PermissionDenied(p) => "FS_PERMISSION_DENIED: "@ + p,
        FsErrorView::NotText(p) => "FS_NOT_TEXT: "@ + p,
        FsErrorView::TooLarge(n) => "FS_TOO_LARGE: 超过 "@ + decimal_spec(n as nat) + " 字节上限"@,
        FsErrorView::StaleVersion(got, want) => "FS_STALE_VERSION: 期望 v"@ + decimal_spec(
            want as nat,
        ) + ",当前 v"@ + decimal_spec(got as nat),
        FsErrorView::Io(e) => "FS_IO_ERROR: "@ + e,
    }
}

impl FsError {
    /// The message of an error: a code, and what it is about.
    pub fn message(&self) -> (r: String)
        ensures
            r@ == error_text(self@),
    {
        match self {
            FsError::NotFound(p) => {
                let mut m = "FS_NOT_FOUND: ".to_string();
                m.append(p.as_str());
                m
            },
            FsError::NotDirectory(p) => {
                let mut m = "FS_NOT_DIRECTORY: ".to_string();
                m.append(p.as_str());
                m
            },
            FsError::PermissionDenied(p) => {
                let mut m = "FS_PERMISSION_DENIED: ".to_string();
                m.append(p.as_str());
                m
            },
            FsError::NotText(p) => {
                let mut m = "FS_NOT_TEXT: ".to_string();
                m.append(p.as_str());
                m
            },
            FsError::TooLarge(n) => {
                let mut m = "FS_TOO_LARGE: 超过 ".to_string();
                m.append(decimal(*n as u128).as_str());
                m.append(" 字节上限");
                m
            },
            FsError::StaleVersion(got, want) => {
                let mut m = "FS_STALE_VERSION: 期望 v".to_string();
                m.append(decimal(*want as u128).as_str());
                m.append(",当前 v");
                m.append(decimal(*got as u128).as_str());
                m
            },
            FsError::Io(e) => {
                let mut m = "FS_IO_ERROR: ".to_string();
                m.append(e.as_str());
                m
            },
        }
    }
}

#[derive(Debug, Clone, Copy, PartialEq, Eq, Structural)]
pub enum FsKind {
    File,
    Dir,
    Symlink,
    Other,
}

/// What the disk says of a file.
#[derive(Debug, Clone, Copy, PartialEq, Eq, Structural)]
pub struct FileFacts {
    pub is_file: bool,
    pub is_dir: bool,
    pub is_symlink: bool,
    pub len: u64,
    /// When it was changed, in nanoseconds since the epoch; none where that is
    /// not known.
    pub modified: Option<u128>,
}

#[derive(Debug, Clone, Copy, PartialEq, Eq, Structural)]
pub struct FsInfo {
    pub kind: FsKind,
    pub size: Option<u64>,
    /// A fingerprint of the state of the file, for the guards of writing.
    pub version: u64,
}

#[derive(Debug)]
pub struct FsEntry {
    pub name: String,
    pub kind: FsKind,
    pub size: Option<u64>,
}

/// What the disk says of a child of a directory.
#[derive(Debug)]
pub struct FsChild {
    pub name: String,
    pub facts: FileFacts,
}

/// What has to hold before a file is written.
#[derive(Debug, Clone, Copy, PartialEq, Eq, Structural)]
pub enum WriteGuard {
    Unconditional,
    /// The file does not exist yet.
    CreateIfAbsent,
    /// The file has this version.
    ReplaceIfVersion(u64),
}

/// What a session may do.
#[derive(Debug, Clone, Copy, PartialEq, Eq, Structural)]
pub enum SandboxMode {
    /// Nothing is written.
    ReadOnly,
    /// The workspace is read and written.
    WorkspaceWrite,
    /// Files outside the workspace too.
    Full,
}

pub open spec fn kind_spec(f: FileFacts) -> FsKind {
    if f.is_file {
        FsKind::File
    } else if f.is_dir {
        FsKind::Dir
    } else if f.is_symlink {
        FsKind::Symlink
    } else {
        FsKind::Other
    }
}

/// The version of a file: when it was changed, cut to 64 bits, and its length.
pub open spec fn version_spec(f: FileFacts) -> u64 {
    (match f.modified {
        Some(t) => t as u64,
        None => 0,
    }) ^ f.len
}

/// The size of a file; nothing else has one.
pub open spec fn size_spec(f: FileFacts) -> Option<u64> {
    if f.is_file {
        Some(f.len)
    } else {
        None
    }
}

pub fn fs_kind(f: &FileFacts) -> (r: FsKind)
    ensures
        r == kind_spec(*f),
{
    if f.is_file {
        FsKind::File
    } else if f.is_dir {
        FsKind::Dir
    } else if f.is_symlink {
        FsKind::Symlink
    } else {
        FsKind::Other
    }
}

pub fn version_from_meta(f: &FileFacts) -> (r: u64)
    ensures
        r == version_spec(*f),
{
    let modified: u64 = match f.modified {
        Some(t) =>
        #[verifier::truncate]
        (t as u64),
        None => 0,
    };
    modified ^ f.len
}

pub open spec fn info_spec(f: FileFacts) -> FsInfo {
    FsInfo { kind: kind_spec(f), size: size_spec(f), version: version_spec(f) }
}

pub fn fs_info(f: &FileFacts) -> (r: FsInfo)
    ensures
        r == info_spec(*f),
{
    FsInfo {
        kind: fs_kind(f),
        size: fs_size(f),
        version: version_from_meta(f),
    }
}

fn fs_size(f: &FileFacts) -> (r: Option<u64>)
    ensures
        r == size_spec(*f),
{
    if f.is_file {
        Some(f.len)
    } else {
        None
    }
}

/// The entry of a directory for a child of it: the size is given for files alone.
pub fn fs_entry(name: String, f: &FileFacts) -> (r: FsEntry)
    ensures
        r.name@ == name@,
        r.kind == kind_spec(*f),
        r.size == size_spec(*f),
        r.size is Some <==> r.kind == FsKind::File,
{
    FsEntry { name, kind: fs_kind(f), size: fs_size(f) }
}

impl SandboxMode {
    pub open spec fn label_spec(&self) -> Seq<char> {
        match self {
            SandboxMode::ReadOnly => "read-only"@,
            SandboxMode::WorkspaceWrite => "workspace-write"@,
            SandboxMode::Full => "full"@,
        }
    }

    /// The name of a mode.
    pub fn label(&self) -> (r: &'static str)
        ensures
            r@ == self.label_spec(),
    {
        match self {
            SandboxMode::ReadOnly => "read-only",
            SandboxMode::WorkspaceWrite => "workspace-write",
            SandboxMode::Full => "full",
        }
    }

    /// The mode of a name, in any case and with blanks around it.
    pub fn from_str(s: &str) -> (r: Result<SandboxMode, String>)
        ensures
            match mode_spec(s@) {
                Some(m) => r == Ok::<SandboxMode, String>(m),
                None => r is Err && r->Err_0@ == "未知模式 `"@ + s@
                    + "`(可选:read-only / workspace-write / full)"@,
            },
    {
        let t = trim(s);
        let l = ascii_lower(t.as_str());
        let l = l.as_str();
        if same(l, "read-only") || same(l, "readonly") || same(l, "ro") {
            Ok(SandboxMode::ReadOnly)
        } else if same(l, "workspace-write") || same(l, "workspace") || same(l, "ww") {
            Ok(SandboxMode::WorkspaceWrite)
        } else if same(l, "full") || same(l, "all") {
            Ok(SandboxMode::Full)
        } else {
            let mut m = "未知模式 `".to_string();
            m.append(s);
            m.append("`(可选:read-only / workspace-write / full)");
            Err(m)
        }
    }
}

/// The mode of a name.
pub open spec fn mode_spec(s: Seq<char>) -> Option<SandboxMode> {
    let l = ascii_lower_spec(trim_spec(s));
    if l == "read-only"@ || l == "readonly"@ || l == "ro"@ {
        Some(SandboxMode::ReadOnly)
    } else if l == "workspace-write"@ || l == "workspace"@ || l == "ww"@ {
        Some(SandboxMode::WorkspaceWrite)
    } else if l == "full"@ || l == "all"@ {
        Some(SandboxMode::Full)
    } else {
        None
    }
}

/// The name of the file that is written in place of another until it is
/// complete.
pub fn temp_name(name: Option<&str>, process: u32) -> (r: String)
    ensures
        r@ == "."@ + (match name {
            Some(n) => n@,
            None => "tmp"@,
        }) + ".localai-tmp-"@ + decimal_spec(process as nat),
{
    let mut m = ".".to_string();
    m.append(
        match name {
            Some(n) => n,
            None => "tmp",
        },
    );
    m.append(".localai-tmp-");
    m.append(decimal(process as u128).as_str());
    m
}

}  // verus!
