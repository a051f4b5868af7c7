//! The operations on files: what is asked of the disk is handed in, what is to
//! be done is handed out, and the rules are decided here.

use crate::cordis::service::Service;
use crate::fs::policy::{is_step, path_views, FsPath, FsPolicy, PathView, PolicyView};
use crate::fs::{
    fs_entry, fs_info, info_spec, kind_spec, size_spec, FileFacts, FsChild, FsEntry, FsError,
    FsErrorView, FsInfo, FsKind, SandboxMode, WriteGuard,
};
use crate::text::clock::{clock, clock_spec};
use crate::text::number::{decimal, decimal_spec};
use crate::text::order::{in_order, le, text_le, text_le_reflexive, text_le_total, text_le_transitive};
use crate::text::outside::{from_utf8, quote, quoted};
use crate::text::search::{find_from, find_from_is_first, find_from_spec};
use crate::text::{chars_of, same, string_of, texts};
use vstd::prelude::*;
use vstd::string::*;
use vstd::utf8::{decode_utf8, valid_utf8};

verus! {

/// One line of the ledger: when, what, on which path, and whether it was done.
#[derive(Debug)]
pub struct AccessLog {
    pub time: String,
    pub op: String,
    pub path: String,
    pub ok: bool,
}

#[verifier::ext_equal]
pub struct LogView {
    pub time: Seq<char>,
    pub op: Seq<char>,
    pub path: Seq<char>,
    pub ok: bool,
}

impl View for AccessLog {
    type V = LogView;

    open spec fn view(&self) -> LogView {
        LogView { time: self.time@, op: self.op@, path: self.path@, ok: self.ok }
    }
}

impl Clone for AccessLog {
    fn clone(&self) -> (r: AccessLog)
        ensures
            r == *self,
    {
        AccessLog {
            time: self.time.clone(),
            op: self.op.clone(),
            path: self.path.clone(),
            ok: self.ok,
        }
    }
}

pub open spec fn log_views(v: Seq<AccessLog>) -> Seq<LogView> {
    v.map_values(|l: AccessLog| l@)
}

/// Why the disk says nothing of a file.
#[derive(Debug)]
pub struct MetaFailure {
    pub not_found: bool,
    pub text: String,
}

/// What the disk says to a reader: what the file is, and its bytes.
pub struct ReadProbe {
    pub meta: Result<FileFacts, MetaFailure>,
    pub bytes: Result<Vec<u8>, String>,
}

/// What the disk says to a writer: whether the file exists, and its version.
pub struct WriteProbe {
    pub exists: bool,
    pub version: Result<u64, String>,
}

/// What the disk says when a path is made absolute.
pub enum PathProbe {
    /// The path exists; this is its canonical form.
    Exists(Result<FsPath, String>),
    /// It does not; whether it names a file at all, and the canonical form of the
    /// directory above it with that name below.
    Absent(bool, Result<FsPath, String>),
}

/// A path that someone names: a whole path, or one below another.
pub enum NamedPath {
    Whole(String),
    Below(String, String),
}

/// What happened in a session: the files that were read, and what was done.
pub struct Session {
    observed: Vec<FsPath>,
    ledger: Vec<AccessLog>,
}

#[verifier::ext_equal]
pub struct SessionView {
    /// The paths of the files that were read.
    pub observed: Seq<Seq<Seq<char>>>,
    /// What was done, the last 200 operations, in order.
    pub ledger: Seq<LogView>,
}

impl View for Session {
    type V = SessionView;

    closed spec fn view(&self) -> SessionView {
        SessionView {
            observed: path_views(self.observed@).map_values(|p: PathView| p.parts),
            ledger: log_views(self.ledger@),
        }
    }
}

pub struct FsService {
    pub policy: FsPolicy,
    pub mode: SandboxMode,
    pub session: Session,
}

impl Service for FsService {
    open spec fn key_spec() -> u64 {
        2
    }

    open spec fn title() -> Seq<char> {
        "fs"@
    }

    fn key() -> (r: u64) {
        2
    }

    fn service_name_static() -> (r: &'static str) {
        "fs"
    }
}

#[verifier::ext_equal]
pub struct FsView {
    pub policy: PolicyView,
    pub mode: SandboxMode,
    /// The paths of the files that were read in this session.
    pub observed: Seq<Seq<Seq<char>>>,
    /// What was done, the last 200 operations, in order.
    pub ledger: Seq<LogView>,
}

impl View for FsService {
    type V = FsView;

    open spec fn view(&self) -> FsView {
        FsView {
            policy: self.policy@,
            mode: self.mode,
            observed: self.session@.observed,
            ledger: self.session@.ledger,
        }
    }
}

/// How a name below a directory is shown.
pub open spec fn shown_below(display: Seq<char>, name: Seq<char>, separator: char) -> Seq<char> {
    if display.len() == 0 || display.last() == separator {
        display + name
    } else {
        display.push(separator) + name
    }
}

/// The path that some names lead to, each below the one before.
pub open spec fn nested_path(ancestor: PathView, names: Seq<Seq<char>>, separator: char) -> PathView
    decreases names.len(),
{
    if names.len() == 0 {
        ancestor
    } else {
        let above = nested_path(ancestor, names.drop_last(), separator);
        PathView {
            parts: above.parts.push(names.last()),
            name: names.last(),
            display: shown_below(above.display, names.last(), separator),
        }
    }
}

/// Whether something names a file or directory: it is not empty, and no step.
pub open spec fn is_name(s: Seq<char>) -> bool {
    s.len() > 0 && !is_step(s)
}

impl FsView {
    /// The state after one more line in the ledger, which forgets the oldest of
    /// 200.
    pub open spec fn logged(self, op: Seq<char>, path: Seq<char>, ok: bool, time: Seq<char>) -> FsView {
        let line = LogView { time, op, path, ok };
        FsView {
            ledger: if self.ledger.len() >= 200 {
                self.ledger.skip(1).push(line)
            } else {
                self.ledger.push(line)
            },
            ..self
        }
    }

    /// The state after a file has been read.
    pub open spec fn seen(self, p: PathView) -> FsView {
        if self.observed.contains(p.parts) {
            self
        } else {
            FsView { observed: self.observed.push(p.parts), ..self }
        }
    }

    /// Why a path may not be read; none where it may.
    pub open spec fn read_denied(self, p: PathView) -> Option<Seq<char>> {
        if self.mode != SandboxMode::Full && !self.policy.within(p) {
            Some("读取越界(工作区外,模式="@ + self.mode.label_spec() + "): "@ + p.display)
        } else if self.policy.is_sensitive(p) {
            Some("敏感文件拒绝读取(L2): "@ + p.display)
        } else {
            None
        }
    }

    /// Why a path may not be written; none where it may.
    pub open spec fn write_denied(self, p: PathView) -> Option<Seq<char>> {
        if self.mode == SandboxMode::ReadOnly {
            Some("只读模式(L0)拒绝一切写: "@ + p.display)
        } else if self.mode != SandboxMode::Full && !self.policy.within(p) {
            Some("写入越界(工作区外,模式="@ + self.mode.label_spec() + "): "@ + p.display)
        } else if self.policy.is_sensitive(p) {
            Some("敏感文件拒绝写入(L2): "@ + p.display)
        } else {
            None
        }
    }
}

/// A denial as a result.
pub open spec fn fence_result(denied: Option<Seq<char>>) -> Result<(), FsErrorView> {
    match denied {
        Some(m) => Err(FsErrorView::PermissionDenied(m)),
        None => Ok(()),
    }
}

pub open spec fn unit_result(r: Result<(), FsError>) -> Result<(), FsErrorView> {
    match r {
        Ok(_) => Ok(()),
        Err(e) => Err(e@),
    }
}

pub open spec fn text_result(r: Result<String, FsError>) -> Result<Seq<char>, FsErrorView> {
    match r {
        Ok(s) => Ok(s@),
        Err(e) => Err(e@),
    }
}

pub open spec fn bytes_result(r: Result<Vec<u8>, FsError>) -> Result<Seq<u8>, FsErrorView> {
    match r {
        Ok(b) => Ok(b@),
        Err(e) => Err(e@),
    }
}

/// Why a file whose facts are not known cannot be used.
pub open spec fn meta_error(f: MetaFailure, p: PathView) -> FsErrorView {
    if f.not_found {
        FsErrorView::NotFound(p.display)
    } else {
        FsErrorView::Io(f.text@)
    }
}

/// What comes of asking for a file.
pub open spec fn stat_outcome(
    fs: FsView,
    p: PathView,
    meta: Result<FileFacts, MetaFailure>,
) -> Result<Option<FsInfo>, FsErrorView> {
    match fs.read_denied(p) {
        Some(m) => Err(FsErrorView::PermissionDenied(m)),
        None => match meta {
            Ok(f) => Ok(Some(info_spec(f))),
            Err(e) => if e.not_found {
                Ok(None)
            } else {
                Err(FsErrorView::Io(e.text@))
            },
        },
    }
}

/// What comes of reading a file as text.
pub open spec fn read_outcome(fs: FsView, p: PathView, disk: ReadProbe) -> Result<
    Seq<char>,
    FsErrorView,
> {
    match fs.read_denied(p) {
        Some(m) => Err(FsErrorView::PermissionDenied(m)),
        None => match disk.meta {
            Err(e) => Err(meta_error(e, p)),
            Ok(f) => if !f.is_file {
                Err(FsErrorView::NotDirectory(p.display))
            } else {
                match disk.bytes {
                    Err(e) => Err(FsErrorView::Io(e@)),
                    Ok(b) => if b@.contains(0u8) || !valid_utf8(b@) {
                        Err(FsErrorView::NotText(p.display))
                    } else {
                        Ok(decode_utf8(b@))
                    },
                }
            },
        },
    }
}

/// What comes of reading the bytes of a file.
pub open spec fn bytes_outcome(fs: FsView, p: PathView, max_bytes: u64, disk: ReadProbe) -> Result<
    Seq<u8>,
    FsErrorView,
> {
    match fs.read_denied(p) {
        Some(m) => Err(FsErrorView::PermissionDenied(m)),
        None => match disk.meta {
            Err(e) => Err(meta_error(e, p)),
            Ok(f) => if !f.is_file {
                Err(FsErrorView::NotDirectory(p.display))
            } else if f.len > max_bytes {
                Err(FsErrorView::TooLarge(max_bytes))
            } else {
                match disk.bytes {
                    Err(e) => Err(FsErrorView::Io(e@)),
                    Ok(b) => Ok(b@),
                }
            },
        },
    }
}

/// Why the guard of a write does not hold; none where it does.
pub open spec fn guard_error(guard: WriteGuard, disk: WriteProbe) -> Option<FsErrorView> {
    match guard {
        WriteGuard::Unconditional => None,
        WriteGuard::CreateIfAbsent => if !disk.exists {
            None
        } else {
            match disk.version {
                Ok(v) => Some(FsErrorView::StaleVersion(v, u64::MAX)),
                Err(e) => Some(FsErrorView::Io(e@)),
            }
        },
        WriteGuard::ReplaceIfVersion(want) => if !disk.exists {
            Some(FsErrorView::StaleVersion(0, want))
        } else {
            match disk.version {
                Ok(v) => if v != want {
                    Some(FsErrorView::StaleVersion(v, want))
                } else {
                    None
                },
                Err(e) => Some(FsErrorView::Io(e@)),
            }
        },
    }
}

/// Whether a file may be written.
pub open spec fn write_outcome(
    fs: FsView,
    p: PathView,
    guard: WriteGuard,
    disk: WriteProbe,
) -> Result<(), FsErrorView> {
    match fs.write_denied(p) {
        Some(m) => Err(FsErrorView::PermissionDenied(m)),
        None => match guard_error(guard, disk) {
            Some(e) => Err(e),
            None => Ok(()),
        },
    }
}

/// How often a text occurs, counted from the front, each after the end of the
/// one before; more than two are counted as two.
pub open spec fn occurrences(content: Seq<char>, from: Seq<char>) -> nat {
    match find_from_spec(content, from, 0) {
        None => 0,
        Some(i) => match find_from_spec(content, from, i + from.len()) {
            None => 1,
            Some(_) => 2,
        },
    }
}

/// The content with the first occurrence of a text replaced.
pub open spec fn replaced(content: Seq<char>, from: Seq<char>, to: Seq<char>) -> Seq<char> {
    match find_from_spec(content, from, 0) {
        None => content,
        Some(i) => content.take(i) + to + content.skip(i + from.len()),
    }
}

/// Why the guard of an edit does not hold; none where it does.
pub open spec fn edit_guard_error(guard: WriteGuard, version: Result<u64, String>) -> Option<
    FsErrorView,
> {
    match guard {
        WriteGuard::Unconditional => None,
        WriteGuard::CreateIfAbsent => Some(FsErrorView::Io("editText 不支持 CreateIfAbsent"@)),
        WriteGuard::ReplaceIfVersion(want) => match version {
            Ok(v) => if v != want {
                Some(FsErrorView::StaleVersion(v, want))
            } else {
                None
            },
            Err(e) => Some(FsErrorView::Io(e@)),
        },
    }
}

/// Whether an edit gets as far as reading the file.
pub open spec fn edit_denied(fs: FsView, p: PathView) -> Option<Seq<char>> {
    match fs.write_denied(p) {
        Some(m) => Some(m),
        None => if fs.observed.contains(p.parts) {
            None
        } else {
            Some("编辑前需先读取(L3 read-before-edit): "@ + p.display)
        },
    }
}

/// What an edit makes of the content of a file.
pub open spec fn edit_content(
    content: Seq<char>,
    from: Seq<char>,
    to: Seq<char>,
    guard: WriteGuard,
    version: Result<u64, String>,
) -> Result<Seq<char>, FsErrorView> {
    let n = occurrences(content, from);
    if n != 1 {
        Err(
            FsErrorView::Io(
                "editText: 模式出现 "@ + decimal_spec(n) + " 次(需要恰好 1 次): "@ + quoted(from),
            ),
        )
    } else {
        match edit_guard_error(guard, version) {
            Some(e) => Err(e),
            None => Ok(replaced(content, from, to)),
        }
    }
}

/// What comes of an edit: what is to be written.
pub open spec fn edit_outcome(
    fs: FsView,
    p: PathView,
    from: Seq<char>,
    to: Seq<char>,
    guard: WriteGuard,
    disk: ReadProbe,
    version: Result<u64, String>,
) -> Result<Seq<char>, FsErrorView> {
    match edit_denied(fs, p) {
        Some(m) => Err(FsErrorView::PermissionDenied(m)),
        None => match read_outcome(fs, p, disk) {
            Err(e) => Err(e),
            Ok(content) => edit_content(content, from, to, guard, version),
        },
    }
}

/// The state after a file has been asked for as text.
pub open spec fn read_state(fs: FsView, p: PathView, disk: ReadProbe, time: Seq<char>) -> FsView {
    let ok = read_outcome(fs, p, disk) is Ok;
    (if ok {
        fs.seen(p)
    } else {
        fs
    }).logged("read"@, p.display, ok, time)
}

/// What a directory entry says.
#[verifier::ext_equal]
pub struct EntryFacts {
    pub name: Seq<char>,
    pub kind: FsKind,
    pub size: Option<u64>,
}

impl View for FsEntry {
    type V = EntryFacts;

    open spec fn view(&self) -> EntryFacts {
        EntryFacts { name: self.name@, kind: self.kind, size: self.size }
    }
}

pub open spec fn entry_facts(v: Seq<FsEntry>) -> Seq<EntryFacts> {
    v.map_values(|e: FsEntry| e@)
}

pub open spec fn entry_names(v: Seq<EntryFacts>) -> Seq<Seq<char>> {
    v.map_values(|e: EntryFacts| e.name)
}

/// The entry for a child of a directory.
pub open spec fn entry_spec(c: FsChild) -> EntryFacts {
    EntryFacts { name: c.name@, kind: kind_spec(c.facts), size: size_spec(c.facts) }
}

/// The entries for the children of a directory, one for each.
pub open spec fn child_entries(v: Seq<FsChild>) -> Seq<EntryFacts> {
    v.map_values(|c: FsChild| entry_spec(c))
}

/// Whether a directory can be listed, before its entries are looked at.
pub open spec fn list_refused(fs: FsView, p: PathView, meta: Result<FileFacts, MetaFailure>) -> Option<
    FsErrorView,
> {
    match fs.read_denied(p) {
        Some(m) => Some(FsErrorView::PermissionDenied(m)),
        None => match meta {
            Err(e) => Some(meta_error(e, p)),
            Ok(f) => if !f.is_dir {
                Some(FsErrorView::NotDirectory(p.display))
            } else {
                None
            },
        },
    }
}

fn insert_entry(list: &mut Vec<FsEntry>, e: FsEntry)
    requires
        in_order(entry_names(entry_facts(old(list)@))),
    ensures
        in_order(entry_names(entry_facts(final(list)@))),
        entry_facts(final(list)@).to_multiset() == entry_facts(old(list)@).to_multiset().insert(
            e@,
        ),
{
    let ghost before = entry_facts(list@);
    let ghost names = entry_names(before);
    let mut i: usize = list.len();
    while i > 0 && !le(list[i - 1].name.as_str(), e.name.as_str())
        invariant
            i <= list@.len(),
            before == entry_facts(list@),
            names == entry_names(before),
            in_order(names),
            forall|k: int| i <= k < names.len() ==> !text_le(#[trigger] names[k], e@.name),
        decreases i,
    {
        assert(names[i as int - 1] == list@[i as int - 1].name@);
        i -= 1;
    }
    proof {
        if i > 0 {
            assert(names[i as int - 1] == list@[i as int - 1].name@);
        }
    }
    let ghost at = i as int;
    list.insert(i, e);
    proof {
        let after = entry_facts(list@);
        assert(after =~= before.insert(at, e@));
        vstd::seq_lib::to_multiset_insert(before, at, e@);
        let t = entry_names(after);
        assert forall|a: int, b: int| 0 <= a <= b < t.len() implies text_le(
            #[trigger] t[a],
            #[trigger] t[b],
        ) by {
            let pa = if a < at {
                a
            } else {
                a - 1
            };
            let pb = if b < at {
                b
            } else {
                b - 1
            };
            text_le_reflexive(e@.name);
            if a != at && b != at {
                assert(t[a] == names[pa] && t[b] == names[pb]);
                assert(text_le(names[pa], names[pb]));
            } else if a == at && b != at {
                assert(t[b] == names[pb]);
                text_le_total(names[pb], e@.name);
            } else if a != at {
                assert(t[a] == names[pa]);
                assert(text_le(names[pa], names[at - 1]));
                text_le_transitive(names[pa], names[at - 1], e@.name);
            }
        }
    }
}

/// The entries for the children of a directory.
fn entries_of(children: Vec<FsChild>) -> (r: Vec<FsEntry>)
    ensures
        entry_facts(r@) == child_entries(children@),
{
    let mut out: Vec<FsEntry> = Vec::new();
    let ghost all = children@;
    assert(entry_facts(out@) =~= child_entries(all).take(0));
    for c in it: children
        invariant
            it.seq() == all,
            entry_facts(out@) == child_entries(all).take(it.index() as int),
    {
        let ghost before = entry_facts(out@);
        let ghost k = it.index() as int;
        let e = fs_entry(c.name, &c.facts);
        out.push(e);
        assert(child_entries(all)[k] == e@);
        assert(entry_facts(out@) =~= before.push(e@));
        assert(entry_facts(out@) =~= child_entries(all).take(k + 1));
    }
    assert(child_entries(all).take(all.len() as int) =~= child_entries(all));
    out
}

/// However the entries for some children are ordered, a size goes with files
/// alone.
proof fn sizes_follow_kinds(children: Seq<FsChild>, shown: Seq<EntryFacts>)
    requires
        shown.to_multiset() == child_entries(children).to_multiset(),
    ensures
        forall|i: int|
            0 <= i < shown.len() ==> ((#[trigger] shown[i]).size is Some <==> shown[i].kind
                == FsKind::File),
{
    let found = child_entries(children);
    shown.to_multiset_ensures();
    found.to_multiset_ensures();
    assert forall|i: int| 0 <= i < shown.len() implies ((#[trigger] shown[i]).size is Some
        <==> shown[i].kind == FsKind::File) by {
        assert(shown.contains(shown[i]));
        assert(found.to_multiset().count(shown[i]) > 0);
        assert(found.contains(shown[i]));
        let k = choose|k: int| 0 <= k < found.len() && found[k] == shown[i];
        assert(found[k] == entry_spec(children[k]));
    }
}

/// Directory entries in the order of their names.
pub fn sort_entries(entries: Vec<FsEntry>) -> (r: Vec<FsEntry>)
    ensures
        in_order(entry_names(entry_facts(r@))),
        entry_facts(r@).to_multiset() == entry_facts(entries@).to_multiset(),
{
    let mut out: Vec<FsEntry> = Vec::new();
    let ghost all = entries@;
    let ghost t = entry_facts(all);
    assert(t.take(0) =~= Seq::empty());
    assert(entry_facts(out@) =~= Seq::empty());
    for e in it: entries
        invariant
            it.seq() == all,
            t == entry_facts(all),
            in_order(entry_names(entry_facts(out@))),
            entry_facts(out@).to_multiset() == t.take(it.index() as int).to_multiset(),
    {
        let ghost k = it.index() as int;
        assert(t.take(k + 1) =~= t.take(k).push(e@));
        proof {
            t.take(k).to_multiset_ensures();
        }
        insert_entry(&mut out, e);
    }
    assert(t.take(t.len() as int) =~= t);
    out
}

fn has_nul(bytes: &Vec<u8>) -> (r: bool)
    ensures
        r == bytes@.contains(0u8),
{
    let mut i: usize = 0;
    while i < bytes.len()
        invariant
            i <= bytes@.len(),
            forall|k: int| 0 <= k < i ==> bytes@[k] != 0u8,
        decreases bytes@.len() - i,
    {
        if bytes[i] == 0 {
            assert(bytes@[i as int] == 0u8);
            return true;
        }
        i += 1;
    }
    false
}

/// How often a text occurs in a content, up to two, and where first.
fn count_in(content: &Vec<char>, from: &Vec<char>) -> (r: (u128, usize))
    ensures
        r.0 == occurrences(content@, from@),
        r.0 == 1 ==> find_from_spec(content@, from@, 0) == Some(r.1 as int) && r.1 + from@.len()
            <= content@.len(),
{
    proof {
        find_from_is_first(content@, from@, 0);
    }
    let total: usize = content.len();
    match find_from(content, from, 0) {
        None => (0, 0),
        Some(i) => {
            assert(i + from@.len() <= total);
            match find_from(content, from, i + from.len()) {
                None => (1, i),
                Some(_) => (2, i),
            }
        },
    }
}

fn denied(prefix: &str, p: &FsPath) -> (r: FsError)
    ensures
        r@ == FsErrorView::PermissionDenied(prefix@ + p.display@),
{
    let mut m = prefix.to_string();
    m.append(p.display.as_str());
    FsError::PermissionDenied(m)
}

fn denied_in(prefix: &str, mode: SandboxMode, p: &FsPath) -> (r: FsError)
    ensures
        r@ == FsErrorView::PermissionDenied(prefix@ + mode.label_spec() + "): "@ + p.display@),
{
    let mut m = prefix.to_string();
    m.append(mode.label());
    m.append("): ");
    m.append(p.display.as_str());
    FsError::PermissionDenied(m)
}

fn map_meta_err(f: MetaFailure, p: &FsPath) -> (r: FsError)
    ensures
        r@ == meta_error(f, p@),
{
    if f.not_found {
        FsError::NotFound(p.display.clone())
    } else {
        FsError::Io(f.text)
    }
}

/// The time of an operation, of a moment given in seconds since the epoch.
pub fn chrono_now(secs: u64) -> (r: String)
    ensures
        r@ == clock_spec(secs),
{
    clock(secs)
}

impl FsService {
    /// The service for a workspace: it may be written, nothing was read yet, and
    /// the ledger is empty.
    pub fn new(workspace_root: FsPath) -> (r: FsService)
        ensures
            r@ == (FsView {
                policy: PolicyView {
                    root: workspace_root@,
                    extra: Seq::empty(),
                    sensitive: crate::fs::policy::default_sensitive(),
                },
                mode: SandboxMode::WorkspaceWrite,
                observed: Seq::empty(),
                ledger: Seq::empty(),
            }),
    {
        let r = FsService {
            policy: FsPolicy::new(workspace_root),
            mode: SandboxMode::WorkspaceWrite,
            session: Session { observed: Vec::new(), ledger: Vec::new() },
        };
        assert(r@.observed =~= Seq::empty());
        assert(r@.ledger =~= Seq::empty());
        r
    }

    pub fn mode(&self) -> (r: SandboxMode)
        ensures
            r == self@.mode,
    {
        self.mode
    }

    pub fn set_mode(&mut self, mode: SandboxMode)
        ensures
            final(self)@ == (FsView { mode, ..old(self)@ }),
    {
        self.mode = mode;
    }

    /// The workspace.
    pub fn workspace(&self) -> (r: &FsPath)
        ensures
            r@ == self@.policy.root,
    {
        &self.policy.workspace_root
    }

    /// The last lines of the ledger, the latest first.
    pub fn access_log(&self, n: usize) -> (r: Vec<AccessLog>)
        ensures
            log_views(r@) == self@.ledger.reverse().take(
                if n < self@.ledger.len() {
                    n as int
                } else {
                    self@.ledger.len() as int
                },
            ),
    {
        let mut out: Vec<AccessLog> = Vec::new();
        let ghost want = if n < self.session.ledger@.len() {
            n as int
        } else {
            self.session.ledger@.len() as int
        };
        let total: usize = self.session.ledger.len();
        let mut i: usize = 0;
        while i < n && i < total
            invariant
                total == self.session.ledger@.len(),
                i <= want,
                want == (if n < total {
                    n as int
                } else {
                    total as int
                }),
                out@.len() == i,
                forall|k: int|
                    0 <= k < i ==> (#[trigger] out@[k]) == self.session.ledger@[total - 1 - k],
            decreases total - i,
        {
            out.push(self.session.ledger[total - 1 - i].clone());
            i += 1;
        }
        assert(log_views(out@) =~= self@.ledger.reverse().take(want));
        out
    }

    /// Notes an operation in the ledger.
    pub fn log(&mut self, op: &str, path: &str, ok: bool, time: &str)
        ensures
            final(self)@ == old(self)@.logged(op@, path@, ok, time@),
    {
        let ghost before = self@;
        if self.session.ledger.len() >= 200 {
            let _oldest = self.session.ledger.remove(0);
            assert(self@.ledger =~= before.ledger.skip(1));
        }
        self.session.ledger.push(
            AccessLog {
                time: time.to_string(),
                op: op.to_string(),
                path: path.to_string(),
                ok,
            },
        );
        assert(self@.ledger =~= before.logged(op@, path@, ok, time@).ledger);
    }

    pub fn fence_read(&self, normalized: &FsPath) -> (r: Result<(), FsError>)
        ensures
            unit_result(r) == fence_result(self@.read_denied(normalized@)),
    {
        let full = self.mode == SandboxMode::Full;
        if !full && !self.policy.within_writable_roots(normalized) {
            return Err(denied_in("读取越界(工作区外,模式=", self.mode, normalized));
        }
        if self.policy.is_sensitive(normalized) {
            return Err(denied("敏感文件拒绝读取(L2): ", normalized));
        }
        Ok(())
    }

    pub fn fence_write(&self, normalized: &FsPath) -> (r: Result<(), FsError>)
        ensures
            unit_result(r) == fence_result(self@.write_denied(normalized@)),
    {
        if self.mode == SandboxMode::ReadOnly {
            return Err(denied("只读模式(L0)拒绝一切写: ", normalized));
        }
        let full = self.mode == SandboxMode::Full;
        if !full && !self.policy.within_writable_roots(normalized) {
            return Err(denied_in("写入越界(工作区外,模式=", self.mode, normalized));
        }
        if self.policy.is_sensitive(normalized) {
            return Err(denied("敏感文件拒绝写入(L2): ", normalized));
        }
        Ok(())
    }

    fn has_seen(&self, normalized: &FsPath) -> (r: bool)
        ensures
            r == self@.observed.contains(normalized@.parts),
    {
        let mut i: usize = 0;
        while i < self.session.observed.len()
            invariant
                i <= self.session.observed@.len(),
                forall|k: int| 0 <= k < i ==> self@.observed[k] != normalized@.parts,
            decreases self.session.observed@.len() - i,
        {
            assert(self@.observed[i as int] == self.session.observed@[i as int]@.parts);
            if self.session.observed[i].same_as(normalized) {
                return true;
            }
            i += 1;
        }
        false
    }

    fn note_seen(&mut self, normalized: &FsPath)
        ensures
            final(self)@ == old(self)@.seen(normalized@),
    {
        let ghost before = self@;
        if !self.has_seen(normalized) {
            self.session.observed.push(normalized.copy());
            assert(self@.observed =~= before.observed.push(normalized@.parts));
        }
    }

    /// The path that a name means, before it is normalised: a path that is not
    /// absolute lies below the workspace.
    pub fn resolve(&self, path: &str, is_absolute: bool) -> (r: NamedPath)
        ensures
            if is_absolute {
                r matches NamedPath::Whole(p) && p@ == path@
            } else {
                r matches NamedPath::Below(a, b) && a@ == self@.policy.root.display && b@ == path@
            },
    {
        if is_absolute {
            NamedPath::Whole(path.to_string())
        } else {
            NamedPath::Below(self.policy.workspace_root.display.clone(), path.to_string())
        }
    }

    /// The normalised form of a path.
    pub fn normalize(&self, probe: PathProbe) -> (r: Result<FsPath, FsError>)
        ensures
            match probe {
                PathProbe::Exists(Ok(p)) => r is Ok && r->Ok_0@ == p@,
                PathProbe::Exists(Err(e)) => r is Err && r->Err_0@ == FsErrorView::Io(e@),
                PathProbe::Absent(named, parent) => if !named {
                    r is Err && r->Err_0@ == FsErrorView::Io("非法路径"@)
                } else {
                    match parent {
                        Ok(p) => r is Ok && r->Ok_0@ == p@,
                        Err(e) => r is Err && r->Err_0@ == FsErrorView::Io(e@),
                    }
                },
            },
    {
        match probe {
            PathProbe::Exists(Ok(p)) => Ok(p),
            PathProbe::Exists(Err(e)) => Err(FsError::Io(e)),
            PathProbe::Absent(named, parent) => {
                if !named {
                    return Err(FsError::Io("非法路径".to_string()));
                }
                match parent {
                    Ok(p) => Ok(p),
                    Err(e) => Err(FsError::Io(e)),
                }
            },
        }
    }

    /// The normalised form of a path of which only a part exists: the canonical
    /// form of the nearest directory that does, and below it the names that are
    /// missing, such as those of the directories that [`FsService::mkdir`] makes.
    /// Something among them that is no name is refused.
    pub fn normalize_missing(&self, ancestor: &FsPath, missing: &Vec<String>, separator: char) -> (r:
        Result<FsPath, FsError>)
        ensures
            match r {
                Ok(p) => (forall|i: int|
                    0 <= i < missing@.len() ==> is_name(#[trigger] texts(missing@)[i])) && p@
                    == nested_path(ancestor@, texts(missing@), separator),
                Err(e) => (exists|i: int|
                    0 <= i < missing@.len() && !is_name(#[trigger] texts(missing@)[i])) && e@
                    == FsErrorView::Io("非法路径"@),
            },
    {
        let ghost names = texts(missing@);
        let mut p = ancestor.copy();
        let mut i: usize = 0;
        assert(names.take(0).len() == 0);
        while i < missing.len()
            invariant
                i <= missing@.len(),
                names == texts(missing@),
                forall|k: int| 0 <= k < i ==> is_name(#[trigger] names[k]),
                p@ == nested_path(ancestor@, names.take(i as int), separator),
            decreases missing@.len() - i,
        {
            let name = missing[i].as_str();
            assert(names[i as int] == name@);
            if name.is_empty() || same(name, ".") || same(name, "..") {
                assert(!is_name(names[i as int]));
                return Err(FsError::Io("非法路径".to_string()));
            }
            let ghost above = p@;
            let shown = chars_of(p.display.as_str());
            if shown.len() > 0 && shown[shown.len() - 1] != separator {
                p.display.push(separator);
            }
            p.display.append(name);
            p.parts.push(name.to_string());
            p.name = name.to_string();
            proof {
                assert(names.take(i as int + 1).drop_last() =~= names.take(i as int));
                assert(p@.parts =~= above.parts.push(name@));
                assert(p@.display =~= shown_below(above.display, name@, separator));
            }
            i += 1;
        }
        assert(names.take(i as int) =~= names);
        Ok(p)
    }

    /// Asks for a file: none where it does not exist.
    pub fn stat(&mut self, path: &FsPath, meta: Result<FileFacts, MetaFailure>, time: &str) -> (r:
        Result<Option<FsInfo>, FsError>)
        ensures
            match stat_outcome(old(self)@, path@, meta) {
                Ok(i) => r is Ok && r->Ok_0 == i,
                Err(e) => r is Err && r->Err_0@ == e,
            },
            final(self)@ == old(self)@.logged(
                "stat"@,
                path.display@,
                stat_outcome(old(self)@, path@, meta) is Ok,
                time@,
            ),
    {
        let r = match self.fence_read(path) {
            Err(e) => Err(e),
            Ok(_) => match meta {
                Ok(f) => Ok(Some(fs_info(&f))),
                Err(e) => if e.not_found {
                    Ok(None)
                } else {
                    Err(FsError::Io(e.text))
                },
            },
        };
        let ok = r.is_ok();
        self.log("stat", path.display.as_str(), ok, time);
        r
    }

    fn take_text(&self, path: &FsPath, disk: ReadProbe) -> (r: Result<String, FsError>)
        ensures
            text_result(r) == read_outcome(self@, path@, disk),
    {
        if let Err(e) = self.fence_read(path) {
            return Err(e);
        }
        match disk.meta {
            Err(e) => Err(map_meta_err(e, path)),
            Ok(f) => {
                if !f.is_file {
                    return Err(FsError::NotDirectory(path.display.clone()));
                }
                match disk.bytes {
                    Err(e) => Err(FsError::Io(e)),
                    Ok(b) => {
                        if has_nul(&b) {
                            return Err(FsError::NotText(path.display.clone()));
                        }
                        match from_utf8(b) {
                            Some(t) => Ok(t),
                            None => Err(FsError::NotText(path.display.clone())),
                        }
                    },
                }
            },
        }
    }

    /// Reads a file as text; what is no text is refused. A file that was read
    /// may be edited.
    pub fn read_text(&mut self, path: &FsPath, disk: ReadProbe, time: &str) -> (r: Result<
        String,
        FsError,
    >)
        ensures
            text_result(r) == read_outcome(old(self)@, path@, disk),
            final(self)@ == read_state(old(self)@, path@, disk, time@),
    {
        let r = self.take_text(path, disk);
        let ok = r.is_ok();
        if ok {
            self.note_seen(path);
        }
        self.log("read", path.display.as_str(), ok, time);
        r
    }

    /// Reads the bytes of a file, unless there are too many.
    pub fn read_bytes(&mut self, path: &FsPath, max_bytes: u64, disk: ReadProbe, time: &str) -> (r:
        Result<Vec<u8>, FsError>)
        ensures
            bytes_result(r) == bytes_outcome(old(self)@, path@, max_bytes, disk),
            final(self)@ == (if bytes_outcome(old(self)@, path@, max_bytes, disk) is Ok {
                old(self)@.seen(path@)
            } else {
                old(self)@
            }).logged(
                "read"@,
                path.display@,
                bytes_outcome(old(self)@, path@, max_bytes, disk) is Ok,
                time@,
            ),
    {
        let r = match self.fence_read(path) {
            Err(e) => Err(e),
            Ok(_) => match disk.meta {
                Err(e) => Err(map_meta_err(e, path)),
                Ok(f) => if !f.is_file {
                    Err(FsError::NotDirectory(path.display.clone()))
                } else if f.len > max_bytes {
                    Err(FsError::TooLarge(max_bytes))
                } else {
                    match disk.bytes {
                        Err(e) => Err(FsError::Io(e)),
                        Ok(b) => Ok(b),
                    }
                },
            },
        };
        let ok = r.is_ok();
        if ok {
            self.note_seen(path);
        }
        self.log("read", path.display.as_str(), ok, time);
        r
    }

    /// Lists a directory: one entry for each child, in the order of the names, with
    /// a size for files alone. No file counts as read because of it.
    pub fn list_dir(
        &mut self,
        path: &FsPath,
        meta: Result<FileFacts, MetaFailure>,
        children: Result<Vec<FsChild>, String>,
        time: &str,
    ) -> (r: Result<Vec<FsEntry>, FsError>)
        ensures
            match list_refused(old(self)@, path@, meta) {
                Some(e) => r is Err && r->Err_0@ == e,
                None => match children {
                    Err(e) => r is Err && r->Err_0@ == FsErrorView::Io(e@),
                    Ok(all) => r is Ok && in_order(entry_names(entry_facts(r->Ok_0@)))
                        && entry_facts(r->Ok_0@).to_multiset() == child_entries(
                        all@,
                    ).to_multiset(),
                },
            },
            r is Ok ==> forall|i: int|
                0 <= i < r->Ok_0@.len() ==> ((#[trigger] r->Ok_0@[i]).size is Some
                    <==> r->Ok_0@[i].kind == FsKind::File),
            final(self)@.observed == old(self)@.observed,
            final(self)@ == old(self)@.logged("ls"@, path.display@, r is Ok, time@),
    {
        let r = match self.fence_read(path) {
            Err(e) => Err(e),
            Ok(_) => match meta {
                Err(e) => Err(map_meta_err(e, path)),
                Ok(f) => if !f.is_dir {
                    Err(FsError::NotDirectory(path.display.clone()))
                } else {
                    match children {
                        Err(e) => Err(FsError::Io(e)),
                        Ok(all) => {
                            let found = entries_of(all);
                            let sorted = sort_entries(found);
                            proof {
                                sizes_follow_kinds(all@, entry_facts(sorted@));
                                assert forall|i: int| 0 <= i < sorted@.len() implies ((
                                #[trigger] sorted@[i]).size is Some <==> sorted@[i].kind
                                    == FsKind::File) by {
                                    assert(entry_facts(sorted@)[i] == sorted@[i]@);
                                }
                            }
                            Ok(sorted)
                        },
                    }
                },
            },
        };
        let ok = r.is_ok();
        self.log("ls", path.display.as_str(), ok, time);
        r
    }

    fn check_guard(guard: WriteGuard, disk: WriteProbe) -> (r: Result<(), FsError>)
        ensures
            unit_result(r) == (match guard_error(guard, disk) {
                Some(e) => Err(e),
                None => Ok(()),
            }),
    {
        match guard {
            WriteGuard::Unconditional => Ok(()),
            WriteGuard::CreateIfAbsent => {
                if disk.exists {
                    match disk.version {
                        Ok(v) => Err(FsError::StaleVersion(v, u64::MAX)),
                        Err(e) => Err(FsError::Io(e)),
                    }
                } else {
                    Ok(())
                }
            },
            WriteGuard::ReplaceIfVersion(want) => {
                if !disk.exists {
                    return Err(FsError::StaleVersion(0, want));
                }
                match disk.version {
                    Ok(v) => if v != want {
                        Err(FsError::StaleVersion(v, want))
                    } else {
                        Ok(())
                    },
                    Err(e) => Err(FsError::Io(e)),
                }
            },
        }
    }

    /// Decides whether a file may be written. Where it may, the caller writes it
    /// and hands the outcome to [`FsService::done`].
    pub fn write_text(&mut self, path: &FsPath, guard: WriteGuard, disk: WriteProbe, time: &str) -> (r:
        Result<(), FsError>)
        ensures
            unit_result(r) == write_outcome(old(self)@, path@, guard, disk),
            final(self)@ == (if r is Ok {
                old(self)@
            } else {
                old(self)@.logged("write"@, path.display@, false, time@)
            }),
    {
        let r = match self.fence_write(path) {
            Err(e) => Err(e),
            Ok(_) => Self::check_guard(guard, disk),
        };
        if r.is_err() {
            self.log("write", path.display.as_str(), false, time);
        }
        r
    }

    /// Decides on an edit: a file that was read before, in which a text occurs
    /// exactly once. What comes back is the new content; the caller writes it and
    /// hands the outcome to [`FsService::done`].
    pub fn edit_text(
        &mut self,
        path: &FsPath,
        from: &str,
        to: &str,
        guard: WriteGuard,
        disk: ReadProbe,
        version: Result<u64, String>,
        time: &str,
    ) -> (r: Result<String, FsError>)
        ensures
            text_result(r) == edit_outcome(
                old(self)@,
                path@,
                from@,
                to@,
                guard,
                disk,
                version,
            ),
            final(self)@ == (match edit_denied(old(self)@, path@) {
                Some(_) => old(self)@.logged("edit"@, path.display@, false, time@),
                None => if r is Ok {
                    read_state(old(self)@, path@, disk, time@)
                } else {
                    read_state(old(self)@, path@, disk, time@).logged(
                        "edit"@,
                        path.display@,
                        false,
                        time@,
                    )
                },
            }),
    {
        if let Err(e) = self.fence_write(path) {
            self.log("edit", path.display.as_str(), false, time);
            return Err(e);
        }
        if !self.has_seen(path) {
            self.log("edit", path.display.as_str(), false, time);
            return Err(denied("编辑前需先读取(L3 read-before-edit): ", path));
        }
        let r = match self.read_text(path, disk, time) {
            Err(e) => Err(e),
            Ok(content) => edit(content.as_str(), from, to, guard, version),
        };
        if r.is_err() {
            self.log("edit", path.display.as_str(), false, time);
        }
        r
    }

    /// Decides whether a directory may be made. Where it may, the caller makes it,
    /// with the directories above it that are missing, and hands the outcome to [`FsService::done`].
    pub fn mkdir(&mut self, path: &FsPath, time: &str) -> (r: Result<(), FsError>)
        ensures
            unit_result(r) == fence_result(old(self)@.write_denied(path@)),
            final(self)@ == (if r is Ok {
                old(self)@
            } else {
                old(self)@.logged("mkdir"@, path.display@, false, time@)
            }),
    {
        let r = self.fence_write(path);
        if r.is_err() {
            self.log("mkdir", path.display.as_str(), false, time);
        }
        r
    }

    /// Takes note of what came of writing to the disk.
    pub fn done(&mut self, op: &str, path: &FsPath, outcome: Result<(), String>, time: &str) -> (r:
        Result<(), FsError>)
        ensures
            unit_result(r) == (match outcome {
                Ok(_) => Ok(()),
                Err(e) => Err(FsErrorView::Io(e@)),
            }),
            final(self)@ == old(self)@.logged(op@, path.display@, outcome is Ok, time@),
    {
        let ok = outcome.is_ok();
        self.log(op, path.display.as_str(), ok, time);
        match outcome {
            Ok(_) => Ok(()),
            Err(e) => Err(FsError::Io(e)),
        }
    }
}

/// What an edit makes of the content of a file.
pub fn edit(
    content: &str,
    from: &str,
    to: &str,
    guard: WriteGuard,
    version: Result<u64, String>,
) -> (r: Result<String, FsError>)
    ensures
        text_result(r) == edit_content(content@, from@, to@, guard, version),
{
    let c = chars_of(content);
    let f = chars_of(from);
    let (n, i) = count_in(&c, &f);
    if n != 1 {
        let mut m = "editText: 模式出现 ".to_string();
        m.append(decimal(n).as_str());
        m.append(" 次(需要恰好 1 次): ");
        m.append(quote(from).as_str());
        return Err(FsError::Io(m));
    }
    match guard {
        WriteGuard::Unconditional => {},
        WriteGuard::CreateIfAbsent => {
            return Err(FsError::Io("editText 不支持 CreateIfAbsent".to_string()));
        },
        WriteGuard::ReplaceIfVersion(want) => match version {
            Ok(v) => {
                if v != want {
                    return Err(FsError::StaleVersion(v, want));
                }
            },
            Err(e) => {
                return Err(FsError::Io(e));
            },
        },
    }
    let total: usize = c.len();
    assert(i + f@.len() <= total);
    let mut out = string_of(&c, 0, i);
    out.append(to);
    out.append(string_of(&c, i + f.len(), total).as_str());
    assert(out@ =~= replaced(content@, from@, to@));
    Ok(out)
}

}  // verus!
