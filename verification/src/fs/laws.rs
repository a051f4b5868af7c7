//! What holds of the access to files as a whole.

use crate::fs::policy::{is_step, PathView, PolicyView};
use crate::fs::service::{
    edit_content, edit_denied, edit_outcome, is_name, nested_path, occurrences, read_outcome,
    read_state, replaced, write_outcome, FsView, ReadProbe, WriteProbe,
};
use crate::fs::{mode_spec, FsErrorView, SandboxMode, WriteGuard};
use crate::text::search::{ascii_lower_spec, find_from_is_first, find_from_spec, occurs_at};
use crate::text::trim::trim_spec;
use vstd::prelude::*;
use vstd::string::*;
use vstd::utf8::{encode_scalar, encode_utf8, encode_utf8_decode_utf8, encode_utf8_valid_utf8};

verus! {

/// A file that is never touched may be neither read nor written, whatever the
/// mode of the session.
pub proof fn sensitive_files_are_never_touched(fs: FsView, p: PathView)
    requires
        fs.policy.is_sensitive(p),
    ensures
        fs.read_denied(p) is Some,
        fs.write_denied(p) is Some,
{
}

/// Outside the workspace, and of what may be written besides, nothing is read or
/// written unless the session is open in full.
pub proof fn borders_are_kept(fs: FsView, p: PathView)
    requires
        fs.mode != SandboxMode::Full,
        !fs.policy.within(p),
    ensures
        fs.read_denied(p) is Some,
        fs.write_denied(p) is Some,
{
}

/// A path of names below a directory stays below whatever the directory lies
/// below: what is made inside the borders stays inside them.
pub proof fn missing_names_stay_below(
    policy: PolicyView,
    ancestor: PathView,
    root: PathView,
    names: Seq<Seq<char>>,
    separator: char,
)
    requires
        forall|i: int| 0 <= i < names.len() ==> is_name(#[trigger] names[i]),
    ensures
        nested_path(ancestor, names, separator).parts == ancestor.parts + names,
        ancestor.below(root) ==> nested_path(ancestor, names, separator).below(root),
        policy.within(ancestor) ==> policy.within(nested_path(ancestor, names, separator)),
    decreases names.len(),
{
    let p = nested_path(ancestor, names, separator);
    if names.len() > 0 {
        let head = names.drop_last();
        assert forall|i: int| 0 <= i < head.len() implies is_name(#[trigger] head[i]) by {
            assert(names[i] == head[i]);
        }
        missing_names_stay_below(policy, ancestor, root, head, separator);
        assert(is_name(names[names.len() - 1]));
        let above = nested_path(ancestor, head, separator);
        assert(p.parts =~= ancestor.parts + names);
        assert forall|r: PathView| above.below(r) implies #[trigger] p.below(r) by {
            assert(r.parts =~= p.parts.take(r.parts.len() as int));
        }
        if policy.within(ancestor) && !above.below(policy.root) {
            let i = choose|i: int|
                0 <= i < policy.extra.len() && above.below(#[trigger] policy.extra[i]);
            assert(p.below(policy.extra[i]));
        }
    } else {
        assert(p.parts =~= ancestor.parts + names);
    }
}

/// No step leads out of the borders: outside full mode, a path with a step below
/// the workspace, and below what may be written besides, is neither read nor
/// written.
pub proof fn steps_are_refused(fs: FsView, p: PathView, i: int)
    requires
        fs.mode != SandboxMode::Full,
        0 <= i < p.parts.len(),
        is_step(p.parts[i]),
        fs.policy.root.parts.len() <= i,
        forall|k: int|
            0 <= k < fs.policy.extra.len() ==> (#[trigger] fs.policy.extra[k]).parts.len() <= i,
    ensures
        fs.read_denied(p) is Some,
        fs.write_denied(p) is Some,
{
    if fs.policy.within(p) && !p.below(fs.policy.root) {
        let k = choose|k: int|
            0 <= k < fs.policy.extra.len() && p.below(#[trigger] fs.policy.extra[k]);
        assert(fs.policy.extra[k].parts.len() <= i);
    }
}

/// In full mode a path is refused only because of its name.
pub proof fn full_mode_opens_the_borders(fs: FsView, p: PathView)
    requires
        fs.mode == SandboxMode::Full,
    ensures
        fs.read_denied(p) is Some <==> fs.policy.is_sensitive(p),
        fs.write_denied(p) is Some <==> fs.policy.is_sensitive(p),
{
}

/// In read-only mode nothing is written or edited, and what is read is what is
/// read when the workspace may be written.
pub proof fn read_only_mode_writes_nothing(
    fs: FsView,
    p: PathView,
    guard: WriteGuard,
    disk: WriteProbe,
)
    requires
        fs.mode == SandboxMode::ReadOnly,
    ensures
        write_outcome(fs, p, guard, disk) matches Err(FsErrorView::PermissionDenied(_)),
        edit_denied(fs, p) is Some,
        fs.read_denied(p) is Some <==> (FsView { mode: SandboxMode::WorkspaceWrite, ..fs }).read_denied(
            p,
        ) is Some,
{
}

/// A file that was not read is not edited, whatever the mode of the session.
pub proof fn edit_needs_a_read(
    fs: FsView,
    p: PathView,
    from: Seq<char>,
    to: Seq<char>,
    guard: WriteGuard,
    disk: ReadProbe,
    version: Result<u64, String>,
)
    requires
        !fs.observed.contains(p.parts),
    ensures
        edit_outcome(fs, p, from, to, guard, disk, version) matches Err(
            FsErrorView::PermissionDenied(_),
        ),
{
}

/// A file that was read may be edited from then on, if it may be written.
pub proof fn read_opens_the_edit(
    fs: FsView,
    p: PathView,
    disk: ReadProbe,
    time: Seq<char>,
)
    requires
        read_outcome(fs, p, disk) is Ok,
    ensures
        read_state(fs, p, disk, time).observed.contains(p.parts),
        edit_denied(read_state(fs, p, disk, time), p) == fs.write_denied(p),
{
    let after = fs.seen(p);
    if !fs.observed.contains(p.parts) {
        assert(after.observed[fs.observed.len() as int] == p.parts);
    }
}

/// What was read stays read.
pub proof fn reads_are_not_forgotten(
    fs: FsView,
    p: PathView,
    disk: ReadProbe,
    time: Seq<char>,
    other: Seq<Seq<char>>,
)
    requires
        fs.observed.contains(other),
    ensures
        read_state(fs, p, disk, time).observed.contains(other),
{
    let i = choose|i: int| 0 <= i < fs.observed.len() && fs.observed[i] == other;
    assert(fs.seen(p).observed[i] == other);
}

/// The ledger holds at most 200 lines, and its last line is the last operation.
pub proof fn ledger_is_a_ring(
    fs: FsView,
    op: Seq<char>,
    path: Seq<char>,
    ok: bool,
    time: Seq<char>,
)
    requires
        fs.ledger.len() <= 200,
    ensures
        fs.logged(op, path, ok, time).ledger.len() <= 200,
        fs.logged(op, path, ok, time).ledger.last().op == op,
        fs.logged(op, path, ok, time).ledger.last().path == path,
        fs.logged(op, path, ok, time).ledger.last().ok == ok,
        fs.ledger.len() < 200 ==> fs.ledger.is_prefix_of(fs.logged(op, path, ok, time).ledger),
{
    let after = fs.logged(op, path, ok, time).ledger;
    if fs.ledger.len() < 200 {
        assert(after.subrange(0, fs.ledger.len() as int) =~= fs.ledger);
    }
}

/// A file that exists is not written over when it was to be created.
pub proof fn creation_overwrites_nothing(fs: FsView, p: PathView, disk: WriteProbe)
    requires
        disk.exists,
    ensures
        write_outcome(fs, p, WriteGuard::CreateIfAbsent, disk) is Err,
{
}

/// A file is replaced under a version guard only if it has that version.
pub proof fn stale_versions_are_refused(fs: FsView, p: PathView, want: u64, disk: WriteProbe)
    requires
        write_outcome(fs, p, WriteGuard::ReplaceIfVersion(want), disk) is Ok,
    ensures
        disk.exists,
        disk.version == Ok::<u64, String>(want),
{
}

/// An edit replaces one occurrence and keeps everything around it.
pub proof fn edit_replaces_one_place(
    content: Seq<char>,
    from: Seq<char>,
    to: Seq<char>,
    guard: WriteGuard,
    version: Result<u64, String>,
)
    requires
        edit_content(content, from, to, guard, version) is Ok,
    ensures
        exists|i: int|
            0 <= i && i + from.len() <= content.len() && #[trigger] content.take(i) + from
                + content.skip(i + from.len()) == content && edit_content(
                content,
                from,
                to,
                guard,
                version,
            )->Ok_0 == content.take(i) + to + content.skip(i + from.len()),
{
    find_from_is_first(content, from, 0);
    let i = find_from_spec(content, from, 0)->0;
    assert(content.take(i) + from + content.skip(i + from.len()) =~= content) by {
        assert(occurs_at(content, from, i));
    }
}

/// Replacing a text by itself changes nothing.
pub proof fn edit_by_the_same_text(content: Seq<char>, from: Seq<char>)
    requires
        occurrences(content, from) == 1,
    ensures
        replaced(content, from, from) == content,
{
    find_from_is_first(content, from, 0);
    let i = find_from_spec(content, from, 0)->0;
    assert(occurs_at(content, from, i));
    assert(content.take(i) + from + content.skip(i + from.len()) =~= content);
}

proof fn nul_is_the_only_zero(c: char)
    requires
        c != '\0',
    ensures
        !encode_scalar(c as u32).contains(0u8),
{
    let v = c as u32;
    assert(v != 0);
    assert(v != 0 && v <= 0x7F ==> (v & 0x7F) as u8 != 0u8) by (bit_vector);
    assert((0xC0u8 | ((v >> 6) & 0x1F) as u8) != 0u8) by (bit_vector);
    assert((0xE0u8 | ((v >> 12) & 0x0F) as u8) != 0u8) by (bit_vector);
    assert((0xF0u8 | ((v >> 18) & 0x7) as u8) != 0u8) by (bit_vector);
    assert((0x80u8 | (v & 0x3F) as u8) != 0u8) by (bit_vector);
    assert((0x80u8 | ((v >> 6) & 0x3F) as u8) != 0u8) by (bit_vector);
    assert((0x80u8 | ((v >> 12) & 0x3F) as u8) != 0u8) by (bit_vector);
}

proof fn text_without_nul(s: Seq<char>)
    requires
        forall|i: int| 0 <= i < s.len() ==> s[i] != '\0',
    ensures
        !encode_utf8(s).contains(0u8),
    decreases s.len(),
{
    if s.len() > 0 {
        let rest = s.drop_first();
        assert forall|i: int| 0 <= i < rest.len() implies rest[i] != '\0' by {
            assert(s[i + 1] != '\0');
        }
        text_without_nul(rest);
        nul_is_the_only_zero(s[0]);
        let head = encode_scalar(s[0] as u32);
        let tail = encode_utf8(rest);
        let all = head + tail;
        if all.contains(0u8) {
            let i = choose|i: int| 0 <= i < all.len() && all[i] == 0u8;
            if i < head.len() {
                assert(head.contains(head[i]));
            } else {
                assert(tail.contains(tail[i - head.len()]));
            }
        }
    }
}

/// What is written is what is read: a file whose bytes are those of a text
/// without NUL gives back that text.
pub proof fn written_text_is_read_back(fs: FsView, p: PathView, disk: ReadProbe, s: Seq<char>)
    requires
        fs.read_denied(p) is None,
        disk.meta is Ok,
        disk.meta->Ok_0.is_file,
        disk.bytes is Ok,
        disk.bytes->Ok_0@ == encode_utf8(s),
        forall|i: int| 0 <= i < s.len() ==> s[i] != '\0',
    ensures
        read_outcome(fs, p, disk) == Ok::<Seq<char>, FsErrorView>(s),
{
    text_without_nul(s);
    encode_utf8_valid_utf8(s);
    encode_utf8_decode_utf8(s);
}

/// The name of a mode gives the mode back.
pub proof fn mode_names_read_back(m: SandboxMode)
    ensures
        mode_spec(m.label_spec()) == Some(m),
{
    reveal_strlit("read-only");
    reveal_strlit("readonly");
    reveal_strlit("ro");
    reveal_strlit("workspace-write");
    reveal_strlit("workspace");
    reveal_strlit("ww");
    reveal_strlit("full");
    reveal_strlit("all");
    let s = m.label_spec();
    assert(trim_spec(s) == s);
    assert(ascii_lower_spec(s) =~= s);
    assert("full"@[0] == 'f');
    assert("read-only"@[0] == 'r');
    assert("workspace-write"@[0] == 'w');
    assert("readonly"@[0] == 'r');
    assert("ro"@[0] == 'r');
    assert("workspace"@[0] == 'w');
    assert("ww"@[0] == 'w');
}

}  // verus!
