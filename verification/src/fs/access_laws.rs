//! What holds of each operation on files: what is let through, what comes back, and
//! what is noted.

use crate::fs::policy::{
    default_sensitive, is_step, path_views, pattern_matches, FsPath, FsPolicy, PathView,
};
use crate::fs::service::{
    child_entries, edit, entry_facts, entry_names, entry_spec, is_name, log_views, nested_path,
    replaced, AccessLog, FsService, FsView, MetaFailure, NamedPath, PathProbe, ReadProbe,
    WriteProbe,
};
use crate::fs::{
    temp_name, version_from_meta, FileFacts, FsChild, FsEntry, FsError, FsInfo, FsKind, SandboxMode,
    WriteGuard,
};
use crate::text::number::{decimal_is_read_off, decimal_spec};
use crate::text::order::text_le;
use crate::text::outside::ascii;
use crate::text::search::{ascii_lower_spec, find_from_is_first, find_from_spec, occurs_at};
use crate::text::trim::trim_spec;
use crate::text::texts;
use vstd::prelude::*;
use vstd::string::*;
use vstd::utf8::{decode_utf8, valid_utf8};

verus! {

// ---- what is let through ----

/// A path that begins as a root does and goes on with names lies below it, and no other
/// path does.
pub proof fn paths_below_begin_alike(p: FsPath, root: FsPath, r: bool, rest: Seq<Seq<char>>)
    requires
        call_ensures(FsPath::lies_below, (&p, &root), r),
    ensures
        texts(p.parts@) == texts(root.parts@) + rest && (forall|i: int|
            0 <= i < rest.len() ==> #[trigger] rest[i] != "."@ && rest[i] != ".."@) ==> r,
        r ==> p.parts@.len() >= root.parts@.len() && (forall|i: int|
            0 <= i < root.parts@.len() ==> (#[trigger] p.parts@[i])@ == root.parts@[i]@) && (forall|
            i: int,
        |
            root.parts@.len() <= i < p.parts@.len() ==> (#[trigger] p.parts@[i])@ != "."@
                && p.parts@[i]@ != ".."@),
{
    let a = texts(p.parts@);
    let b = texts(root.parts@);
    if a == b + rest && (forall|i: int|
        0 <= i < rest.len() ==> #[trigger] rest[i] != "."@ && rest[i] != ".."@) {
        assert(b =~= a.subrange(0, b.len() as int));
        assert forall|i: int| b.len() <= i < a.len() implies !is_step(#[trigger] a[i]) by {
            assert(a[i] == rest[i - b.len()]);
        }
        assert(p@.below(root@));
    }
    if r {
        assert forall|i: int| 0 <= i < root.parts@.len() implies (#[trigger] p.parts@[i])@
            == root.parts@[i]@ by {
            assert(a[i] == p.parts@[i]@);
            assert(b[i] == root.parts@[i]@);
            assert(b[i] == a.subrange(0, b.len() as int)[i]);
        }
        assert forall|i: int| root.parts@.len() <= i < p.parts@.len() implies (
        #[trigger] p.parts@[i])@ != "."@ && p.parts@[i]@ != ".."@ by {
            assert(a[i] == p.parts@[i]@);
            assert(!is_step(a[i]));
        }
    }
}

/// A path is inside the borders exactly if it lies below the workspace or below one of
/// the other places that may be written.
pub proof fn borders_are_the_roots(policy: FsPolicy, p: FsPath, w: bool, i: int, b: bool)
    requires
        call_ensures(FsPolicy::within_writable_roots, (&policy, &p), w),
    ensures
        call_ensures(FsPath::lies_below, (&p, &policy.workspace_root), b) && b ==> w,
        0 <= i < policy.extra_writable@.len() && call_ensures(
            FsPath::lies_below,
            (&p, &policy.extra_writable@[i]),
            b,
        ) && b ==> w,
        w ==> p@.below(policy.workspace_root@) || exists|k: int|
            0 <= k < policy.extra_writable@.len() && p@.below(
                (#[trigger] policy.extra_writable@[k])@,
            ),
{
    let extra = path_views(policy.extra_writable@);
    if 0 <= i < policy.extra_writable@.len() {
        assert(extra[i] == policy.extra_writable@[i]@);
        assert(policy@.extra[i] == policy.extra_writable@[i]@);
    }
    if w && !p@.below(policy.workspace_root@) {
        let k = choose|k: int| 0 <= k < policy@.extra.len() && p@.below(#[trigger] policy@.extra[k]);
        assert(policy@.extra[k] == policy.extra_writable@[k]@);
    }
}

/// A pattern that begins with a star stands for every name with its ending, one that
/// ends with a star for every name with its beginning, and any other for itself.
pub proof fn patterns_stand_for_names(text: Seq<char>, name: Seq<char>)
    ensures
        pattern_matches(seq!['*'] + text, name) <==> text.is_suffix_of(name),
        text.len() > 0 && text[0] != '*' ==> (pattern_matches(text + seq!['*'], name)
            <==> text.is_prefix_of(name)),
        text.len() > 0 && text[0] != '*' && text.last() != '*' ==> (pattern_matches(text, name)
            <==> text == name),
{
    assert((seq!['*'] + text).skip(1) =~= text);
    assert((text + seq!['*']).drop_last() =~= text);
}

/// Unless a policy says otherwise, the files that hold keys and secrets are never
/// touched, and no others: by their names, whatever the case of their letters.
pub proof fn secrets_are_never_touched(root: FsPath, policy: FsPolicy, p: FsPath, r: bool)
    requires
        call_ensures(FsPolicy::new, (root,), policy),
        call_ensures(FsPolicy::is_sensitive, (&policy, &p), r),
        ascii(p.name@),
    ensures
        ({
            let n = ascii_lower_spec(p.name@);
            r <==> n == ".env"@ || ".key"@.is_suffix_of(n) || ".pem"@.is_suffix_of(n)
                || "id_rsa"@.is_prefix_of(n) || n == "id_ed25519"@ || n == "id_ed25519.pub"@
        }),
{
    let n = ascii_lower_spec(p.name@);
    let s = policy@.sensitive;
    assert(s == default_sensitive());
    reveal_strlit(".env");
    reveal_strlit("*.key");
    reveal_strlit(".key");
    reveal_strlit("*.pem");
    reveal_strlit(".pem");
    reveal_strlit("id_rsa");
    reveal_strlit("id_rsa*");
    reveal_strlit("id_rsa.pub");
    reveal_strlit("id_ed25519");
    reveal_strlit("id_ed25519.pub");
    assert("*.key"@ =~= seq!['*'] + ".key"@);
    assert("*.pem"@ =~= seq!['*'] + ".pem"@);
    assert("id_rsa*"@ =~= "id_rsa"@ + seq!['*']);
    patterns_stand_for_names(".key"@, n);
    patterns_stand_for_names(".pem"@, n);
    patterns_stand_for_names("id_rsa"@, n);
    patterns_stand_for_names(".env"@, n);
    patterns_stand_for_names("id_rsa.pub"@, n);
    patterns_stand_for_names("id_ed25519"@, n);
    patterns_stand_for_names("id_ed25519.pub"@, n);
    assert("id_rsa"@ =~= "id_rsa"@.subrange(0, 6));
    assert("id_rsa"@ =~= "id_rsa.pub"@.subrange(0, 6));
    assert(s[0] == ".env"@);
    assert(s[1] == "*.key"@);
    assert(s[2] == "id_rsa"@);
    assert(s[3] == "id_rsa.pub"@);
    assert(s[4] == "id_ed25519"@);
    assert(s[5] == "id_ed25519.pub"@);
    assert(s[6] == "*.pem"@);
    assert(s[7] == "id_rsa*"@);
}

/// A path is let through exactly if the mode, the borders and its name allow it: it is
/// read where it lies inside the borders or the session is open in full, and is
/// written there unless the session is read-only; in no case where its name forbids
/// it. Whoever is turned away is told about the path.
pub proof fn what_is_allowed_is_let_through(
    fs: FsService,
    p: FsPath,
    inside: bool,
    secret: bool,
    rd: Result<(), FsError>,
    wr: Result<(), FsError>,
)
    requires
        call_ensures(FsPolicy::within_writable_roots, (&fs.policy, &p), inside),
        call_ensures(FsPolicy::is_sensitive, (&fs.policy, &p), secret),
        call_ensures(FsService::fence_read, (&fs, &p), rd),
        call_ensures(FsService::fence_write, (&fs, &p), wr),
    ensures
        rd is Ok <==> (fs.mode == SandboxMode::Full || inside) && !secret,
        wr is Ok <==> fs.mode != SandboxMode::ReadOnly && (fs.mode == SandboxMode::Full || inside)
            && !secret,
        rd is Err ==> rd->Err_0 is PermissionDenied && p.display@.is_suffix_of(
            rd->Err_0->PermissionDenied_0@,
        ),
        wr is Err ==> wr->Err_0 is PermissionDenied && p.display@.is_suffix_of(
            wr->Err_0->PermissionDenied_0@,
        ),
{
    let d = p.display@;
    if rd is Err {
        let m = rd->Err_0->PermissionDenied_0@;
        assert(rd->Err_0@ == crate::fs::FsErrorView::PermissionDenied(fs@.read_denied(p@)->0));
        assert(d =~= m.subrange(m.len() - d.len(), m.len() as int));
    }
    if wr is Err {
        let m = wr->Err_0->PermissionDenied_0@;
        assert(wr->Err_0@ == crate::fs::FsErrorView::PermissionDenied(fs@.write_denied(p@)->0));
        assert(d =~= m.subrange(m.len() - d.len(), m.len() as int));
    }
}

// ---- the ledger ----

/// Whether an operation was noted: the ledger ends with it, and holds what it held
/// before, in order, save the oldest line where there were 200; the rules and the mode
/// are what they were.
pub open spec fn was_noted(
    before: FsView,
    after: FsView,
    op: Seq<char>,
    path: Seq<char>,
    ok: bool,
    time: Seq<char>,
) -> bool {
    let n = before.ledger.len() as int;
    let gone = if n < 200 {
        0int
    } else {
        1
    };
    &&& after.ledger.len() == n + 1 - gone
    &&& forall|j: int| 0 <= j < n - gone ==> #[trigger] after.ledger[j] == before.ledger[j + gone]
    &&& after.ledger[n - gone].op == op
    &&& after.ledger[n - gone].path == path
    &&& after.ledger[n - gone].ok == ok
    &&& after.ledger[n - gone].time == time
    &&& after.policy == before.policy
    &&& after.mode == before.mode
}

/// Every operation is noted, and nothing that was noted is lost before its time; no file
/// counts as read because of it.
pub proof fn operations_are_noted(op: &str, path: &str, ok: bool, time: &str)
    ensures
        forall|s: &mut FsService|
            #[trigger] call_ensures(FsService::log, (s, op, path, ok, time), ()) ==> was_noted(
                s@,
                final(s)@,
                op@,
                path@,
                ok,
                time@,
            ) && final(s)@.observed == s@.observed,
{
}

/// The ledger is shown from its end: the latest line first, as many as are asked for.
pub proof fn the_latest_line_comes_first(fs: FsService, n: usize, r: Vec<AccessLog>, i: int)
    requires
        call_ensures(FsService::access_log, (&fs, n), r),
    ensures
        r@.len() == if n < fs@.ledger.len() {
            n as int
        } else {
            fs@.ledger.len() as int
        },
        0 <= i < r@.len() ==> {
            let l = fs@.ledger[fs@.ledger.len() - 1 - i];
            r@[i].op@ == l.op && r@[i].path@ == l.path && r@[i].ok == l.ok && r@[i].time@ == l.time
        },
{
    let v = log_views(r@);
    assert(v.len() == r@.len());
    if 0 <= i < r@.len() {
        assert(v[i] == r@[i]@);
    }
}

// ---- reading ----

/// A file that may be read is told as the disk knows it; one that does not exist is
/// told as none. It is noted either way.
pub proof fn files_are_told_as_they_are(
    path: FsPath,
    meta: Result<FileFacts, MetaFailure>,
    time: &str,
    fence: Result<(), FsError>,
    r: Result<Option<FsInfo>, FsError>,
)
    ensures
        forall|s: &mut FsService|
            #[trigger] call_ensures(FsService::stat, (s, &path, meta, time), r) && call_ensures(
                FsService::fence_read,
                (&*s, &path),
                fence,
            ) ==> {
                &&& fence is Err ==> r is Err && r->Err_0@ == fence->Err_0@
                &&& fence is Ok && meta is Ok ==> {
                    let f = meta->Ok_0;
                    &&& r is Ok && r->Ok_0 is Some
                    &&& f.is_file ==> r->Ok_0->0.kind == FsKind::File && r->Ok_0->0.size == Some(
                        f.len,
                    )
                    &&& !f.is_file && f.is_dir ==> r->Ok_0->0.kind == FsKind::Dir
                    &&& !f.is_file && !f.is_dir && f.is_symlink ==> r->Ok_0->0.kind
                        == FsKind::Symlink
                    &&& !f.is_file ==> r->Ok_0->0.size is None
                    &&& f.modified is None ==> r->Ok_0->0.version == 0u64 ^ f.len
                }
                &&& fence is Ok && meta is Err && meta->Err_0.not_found ==> r is Ok && r->Ok_0 is None
                &&& fence is Ok && meta is Err && !meta->Err_0.not_found ==> r is Err && r->Err_0 is Io
                    && r->Err_0->Io_0@ == meta->Err_0.text@
                &&& was_noted(s@, final(s)@, "stat"@, path.display@, r is Ok, time@)
                &&& final(s)@.observed == s@.observed
            },
{
}

/// A text that may be read is given whole, and counts as read from then on; a file that
/// is no text, or no file, is not given, and does not. It is noted either way.
pub proof fn texts_are_given_whole(
    path: FsPath,
    disk: ReadProbe,
    time: &str,
    fence: Result<(), FsError>,
    r: Result<String, FsError>,
)
    ensures
        forall|s: &mut FsService|
            #[trigger] call_ensures(FsService::read_text, (s, &path, disk, time), r)
                && call_ensures(FsService::fence_read, (&*s, &path), fence) ==> {
                &&& fence is Err ==> r is Err && r->Err_0@ == fence->Err_0@
                &&& fence is Ok && disk.meta is Ok && disk.meta->Ok_0.is_file && disk.bytes is Ok ==> {
                    let b = disk.bytes->Ok_0@;
                    &&& r is Ok <==> valid_utf8(b) && !b.contains(0u8)
                    &&& r is Ok ==> r->Ok_0@ == decode_utf8(b)
                    &&& r is Err ==> r->Err_0 is NotText
                }
                &&& fence is Ok && disk.meta is Ok && !disk.meta->Ok_0.is_file ==> r is Err
                    && r->Err_0 is NotDirectory
                &&& fence is Ok && disk.meta is Err && disk.meta->Err_0.not_found ==> r is Err
                    && r->Err_0 is NotFound
                &&& r is Ok ==> final(s)@.observed.contains(texts(path.parts@))
                &&& r is Err ==> final(s)@.observed == s@.observed
                &&& forall|o: Seq<Seq<char>>|
                    #[trigger] s@.observed.contains(o) ==> final(s)@.observed.contains(o)
                &&& was_noted(s@, final(s)@, "read"@, path.display@, r is Ok, time@)
            },
{
    assert forall|s: &mut FsService|
        #[trigger] call_ensures(FsService::read_text, (s, &path, disk, time), r) && call_ensures(
            FsService::fence_read,
            (&*s, &path),
            fence,
        ) implies {
        &&& fence is Err ==> r is Err && r->Err_0@ == fence->Err_0@
        &&& fence is Ok && disk.meta is Ok && disk.meta->Ok_0.is_file && disk.bytes is Ok ==> {
            let b = disk.bytes->Ok_0@;
            &&& r is Ok <==> valid_utf8(b) && !b.contains(0u8)
            &&& r is Ok ==> r->Ok_0@ == decode_utf8(b)
            &&& r is Err ==> r->Err_0 is NotText
        }
        &&& fence is Ok && disk.meta is Ok && !disk.meta->Ok_0.is_file ==> r is Err
            && r->Err_0 is NotDirectory
        &&& fence is Ok && disk.meta is Err && disk.meta->Err_0.not_found ==> r is Err
            && r->Err_0 is NotFound
        &&& r is Ok ==> final(s)@.observed.contains(texts(path.parts@))
        &&& r is Err ==> final(s)@.observed == s@.observed
        &&& forall|o: Seq<Seq<char>>|
            #[trigger] s@.observed.contains(o) ==> final(s)@.observed.contains(o)
        &&& was_noted(s@, final(s)@, "read"@, path.display@, r is Ok, time@)
    } by {
        seen_files_stay_seen(s@, path@);
    }
}

proof fn seen_files_stay_seen(fs: FsView, p: PathView)
    ensures
        fs.seen(p).observed.contains(p.parts),
        forall|o: Seq<Seq<char>>|
            #[trigger] fs.observed.contains(o) ==> fs.seen(p).observed.contains(o),
{
    let after = fs.seen(p).observed;
    if !fs.observed.contains(p.parts) {
        assert(after[fs.observed.len() as int] == p.parts);
    }
    assert forall|o: Seq<Seq<char>>| #[trigger] fs.observed.contains(o) implies after.contains(o) by {
        let i = choose|i: int| 0 <= i < fs.observed.len() && fs.observed[i] == o;
        assert(after[i] == o);
    }
}

/// The bytes of a file that may be read are given whole, unless there are more than may
/// be. It is noted either way.
pub proof fn bytes_are_given_whole(
    path: FsPath,
    most: u64,
    disk: ReadProbe,
    time: &str,
    fence: Result<(), FsError>,
    r: Result<Vec<u8>, FsError>,
)
    ensures
        forall|s: &mut FsService|
            #[trigger] call_ensures(FsService::read_bytes, (s, &path, most, disk, time), r)
                && call_ensures(FsService::fence_read, (&*s, &path), fence) ==> {
                &&& fence is Err ==> r is Err && r->Err_0@ == fence->Err_0@
                &&& fence is Ok && disk.meta is Ok && disk.meta->Ok_0.is_file && disk.bytes is Ok ==> {
                    &&& r is Ok <==> disk.meta->Ok_0.len <= most
                    &&& r is Ok ==> r->Ok_0@ == disk.bytes->Ok_0@
                    &&& r is Err ==> r->Err_0 == FsError::TooLarge(most)
                }
                &&& fence is Ok && disk.meta is Ok && !disk.meta->Ok_0.is_file ==> r is Err
                &&& disk.meta is Err ==> r is Err
                &&& r is Ok ==> final(s)@.observed.contains(texts(path.parts@))
                &&& was_noted(s@, final(s)@, "read"@, path.display@, r is Ok, time@)
            },
{
    assert forall|s: &mut FsService|
        #[trigger] call_ensures(FsService::read_bytes, (s, &path, most, disk, time), r)
            && call_ensures(FsService::fence_read, (&*s, &path), fence) implies {
        &&& fence is Err ==> r is Err && r->Err_0@ == fence->Err_0@
        &&& fence is Ok && disk.meta is Ok && disk.meta->Ok_0.is_file && disk.bytes is Ok ==> {
            &&& r is Ok <==> disk.meta->Ok_0.len <= most
            &&& r is Ok ==> r->Ok_0@ == disk.bytes->Ok_0@
            &&& r is Err ==> r->Err_0 == FsError::TooLarge(most)
        }
        &&& fence is Ok && disk.meta is Ok && !disk.meta->Ok_0.is_file ==> r is Err
        &&& disk.meta is Err ==> r is Err
        &&& r is Ok ==> final(s)@.observed.contains(texts(path.parts@))
        &&& was_noted(s@, final(s)@, "read"@, path.display@, r is Ok, time@)
    } by {
        seen_files_stay_seen(s@, path@);
    }
}

/// Why something could not be read is told: what is not there by its path, what the disk
/// refused in the words of the disk, what is of another kind by its path.
pub proof fn failed_reads_are_told(
    path: FsPath,
    most: u64,
    disk: ReadProbe,
    children: Result<Vec<FsChild>, String>,
    time: &str,
    fence: Result<(), FsError>,
    t: Result<String, FsError>,
    b: Result<Vec<u8>, FsError>,
    l: Result<Vec<FsEntry>, FsError>,
)
    ensures
        forall|s: &mut FsService|
            #[trigger] call_ensures(FsService::read_text, (s, &path, disk, time), t)
                && call_ensures(FsService::fence_read, (&*s, &path), fence) && fence is Ok && t is Err
                ==> why_it_failed(t->Err_0, path, disk.meta, disk.bytes),
        forall|s: &mut FsService|
            #[trigger] call_ensures(FsService::read_bytes, (s, &path, most, disk, time), b)
                && call_ensures(FsService::fence_read, (&*s, &path), fence) && fence is Ok && b is Err
                ==> why_it_failed(b->Err_0, path, disk.meta, disk.bytes),
        forall|s: &mut FsService|
            #[trigger] call_ensures(FsService::list_dir, (s, &path, disk.meta, children, time), l)
                && call_ensures(FsService::fence_read, (&*s, &path), fence) && fence is Ok && l is Err
                ==> {
                &&& disk.meta is Err && disk.meta->Err_0.not_found ==> l->Err_0 is NotFound
                    && l->Err_0->NotFound_0@ == path.display@
                &&& disk.meta is Err && !disk.meta->Err_0.not_found ==> l->Err_0 is Io
                    && l->Err_0->Io_0@ == disk.meta->Err_0.text@
                &&& disk.meta is Ok && disk.meta->Ok_0.is_dir && children is Err ==> l->Err_0 is Io
                    && l->Err_0->Io_0@ == children->Err_0@
            },
{
}

/// Whether an error tells why a file could not be read.
pub open spec fn why_it_failed(
    e: FsError,
    path: FsPath,
    meta: Result<FileFacts, MetaFailure>,
    bytes: Result<Vec<u8>, String>,
) -> bool {
    match meta {
        Err(f) => if f.not_found {
            e is NotFound && e->NotFound_0@ == path.display@
        } else {
            e is Io && e->Io_0@ == f.text@
        },
        Ok(f) => if !f.is_file {
            e is NotDirectory && e->NotDirectory_0@ == path.display@
        } else {
            match bytes {
                Err(why) => e is TooLarge || e is Io && e->Io_0@ == why@,
                Ok(_) => e is TooLarge || e is NotText && e->NotText_0@ == path.display@,
            }
        },
    }
}

proof fn same_multiset_same_items<A>(a: Seq<A>, b: Seq<A>)
    requires
        a.to_multiset() == b.to_multiset(),
    ensures
        a.len() == b.len(),
        forall|i: int| 0 <= i < b.len() ==> a.contains(#[trigger] b[i]),
{
    a.to_multiset_ensures();
    b.to_multiset_ensures();
    assert forall|i: int| 0 <= i < b.len() implies a.contains(#[trigger] b[i]) by {
        assert(b.contains(b[i]));
        assert(a.to_multiset().count(b[i]) > 0);
    }
}

/// A directory that may be read is listed whole: one entry for each child, with its
/// name, its kind and, for a file, its size, in the order of the names.
pub proof fn every_child_is_listed(
    path: FsPath,
    meta: Result<FileFacts, MetaFailure>,
    children: Result<Vec<FsChild>, String>,
    time: &str,
    fence: Result<(), FsError>,
    r: Result<Vec<FsEntry>, FsError>,
    i: int,
)
    ensures
        forall|s: &mut FsService|
            #[trigger] call_ensures(FsService::list_dir, (s, &path, meta, children, time), r)
                && call_ensures(FsService::fence_read, (&*s, &path), fence) ==> {
                &&& fence is Err ==> r is Err && r->Err_0@ == fence->Err_0@
                &&& fence is Ok && meta is Ok && meta->Ok_0.is_dir && children is Ok ==> {
                    &&& r is Ok
                    &&& r->Ok_0@.len() == children->Ok_0@.len()
                    &&& 0 <= i < children->Ok_0@.len() ==> exists|j: int|
                        0 <= j < r->Ok_0@.len() && {
                            let c = children->Ok_0@[i];
                            let e = #[trigger] r->Ok_0@[j];
                            &&& e.name@ == c.name@
                            &&& e.size == if c.facts.is_file {
                                Some(c.facts.len)
                            } else {
                                None
                            }
                            &&& e.kind == FsKind::Dir <==> !c.facts.is_file && c.facts.is_dir
                        }
                    &&& forall|j: int, k: int|
                        0 <= j <= k < r->Ok_0@.len() ==> text_le(
                            (#[trigger] r->Ok_0@[j]).name@,
                            (#[trigger] r->Ok_0@[k]).name@,
                        )
                }
                &&& fence is Ok && meta is Ok && !meta->Ok_0.is_dir ==> r is Err
                    && r->Err_0 is NotDirectory
                &&& meta is Err || children is Err ==> r is Err
                &&& was_noted(s@, final(s)@, "ls"@, path.display@, r is Ok, time@)
                &&& final(s)@.observed == s@.observed
            },
{
    assert forall|s: &mut FsService|
        #[trigger] call_ensures(FsService::list_dir, (s, &path, meta, children, time), r)
            && call_ensures(FsService::fence_read, (&*s, &path), fence) implies {
        &&& fence is Err ==> r is Err && r->Err_0@ == fence->Err_0@
        &&& fence is Ok && meta is Ok && meta->Ok_0.is_dir && children is Ok ==> {
            &&& r is Ok
            &&& r->Ok_0@.len() == children->Ok_0@.len()
            &&& 0 <= i < children->Ok_0@.len() ==> exists|j: int|
                0 <= j < r->Ok_0@.len() && {
                    let c = children->Ok_0@[i];
                    let e = #[trigger] r->Ok_0@[j];
                    &&& e.name@ == c.name@
                    &&& e.size == if c.facts.is_file {
                        Some(c.facts.len)
                    } else {
                        None
                    }
                    &&& e.kind == FsKind::Dir <==> !c.facts.is_file && c.facts.is_dir
                }
            &&& forall|j: int, k: int|
                0 <= j <= k < r->Ok_0@.len() ==> text_le(
                    (#[trigger] r->Ok_0@[j]).name@,
                    (#[trigger] r->Ok_0@[k]).name@,
                )
        }
        &&& fence is Ok && meta is Ok && !meta->Ok_0.is_dir ==> r is Err && r->Err_0 is NotDirectory
        &&& meta is Err || children is Err ==> r is Err
        &&& was_noted(s@, final(s)@, "ls"@, path.display@, r is Ok, time@)
        &&& final(s)@.observed == s@.observed
    } by {
        if fence is Ok && meta is Ok && meta->Ok_0.is_dir && children is Ok {
            let all = children->Ok_0@;
            let shown = r->Ok_0@;
            let a = entry_facts(shown);
            let b = child_entries(all);
            same_multiset_same_items(a, b);
            assert(a.len() == shown.len());
            assert(b.len() == all.len());
            if 0 <= i < all.len() {
                assert(b[i] == entry_spec(all[i]));
                assert(a.contains(b[i]));
                let j = choose|j: int| 0 <= j < a.len() && a[j] == b[i];
                assert(a[j] == shown[j]@);
                assert(shown[j].name@ == all[i].name@);
            }
            let names = entry_names(a);
            assert forall|j: int, k: int| 0 <= j <= k < shown.len() implies text_le(
                (#[trigger] shown[j]).name@,
                (#[trigger] shown[k]).name@,
            ) by {
                assert(a[j] == shown[j]@);
                assert(a[k] == shown[k]@);
                assert(names[j] == shown[j].name@);
                assert(names[k] == shown[k].name@);
                assert(text_le(names[j], names[k]));
            }
        }
    }
}

// ---- writing ----

/// A file that may be written is written exactly if its guard holds: always, only where
/// there is none yet, or only where it has the version that was named. What is refused
/// is noted.
pub proof fn guards_decide(
    path: FsPath,
    guard: WriteGuard,
    disk: WriteProbe,
    time: &str,
    fence: Result<(), FsError>,
    r: Result<(), FsError>,
)
    ensures
        forall|s: &mut FsService|
            #[trigger] call_ensures(FsService::write_text, (s, &path, guard, disk, time), r)
                && call_ensures(FsService::fence_write, (&*s, &path), fence) ==> {
                let holds = match guard {
                    WriteGuard::Unconditional => true,
                    WriteGuard::CreateIfAbsent => !disk.exists,
                    WriteGuard::ReplaceIfVersion(want) => disk.exists && disk.version == Ok::<
                        u64,
                        String,
                    >(want),
                };
                &&& r is Ok <==> fence is Ok && holds
                &&& fence is Err ==> r->Err_0@ == fence->Err_0@
                &&& r is Ok ==> final(s)@ == s@
                &&& r is Err ==> was_noted(s@, final(s)@, "write"@, path.display@, false, time@)
                    && final(s)@.observed == s@.observed
            },
{
}

/// Where a directory may be made is where a file may be written; what is refused is
/// noted.
pub proof fn directories_are_made_where_files_are(
    path: FsPath,
    time: &str,
    fence: Result<(), FsError>,
    r: Result<(), FsError>,
)
    ensures
        forall|s: &mut FsService|
            #[trigger] call_ensures(FsService::mkdir, (s, &path, time), r) && call_ensures(
                FsService::fence_write,
                (&*s, &path),
                fence,
            ) ==> {
                &&& r is Ok <==> fence is Ok
                &&& r is Err ==> r->Err_0@ == fence->Err_0@ && was_noted(
                    s@,
                    final(s)@,
                    "mkdir"@,
                    path.display@,
                    false,
                    time@,
                )
                &&& r is Ok ==> final(s)@ == s@
            },
{
}

/// What came of writing to the disk is noted as it was, and handed on.
pub proof fn outcomes_are_noted(
    op: &str,
    path: FsPath,
    outcome: Result<(), String>,
    time: &str,
    r: Result<(), FsError>,
)
    ensures
        forall|s: &mut FsService|
            #[trigger] call_ensures(FsService::done, (s, op, &path, outcome, time), r) ==> {
                &&& r is Ok <==> outcome is Ok
                &&& r is Err ==> r->Err_0 is Io && r->Err_0->Io_0@ == outcome->Err_0@
                &&& was_noted(s@, final(s)@, op@, path.display@, outcome is Ok, time@)
                &&& final(s)@.observed == s@.observed
            },
{
}

/// An edit replaces a text that stands in one place, and leaves everything around it as
/// it is. A text that stands nowhere, or in two places, is not replaced; nor is any
/// where the version that was named is not the file's.
pub proof fn an_edit_replaces_one_place(
    content: &str,
    from: &str,
    to: &str,
    a: Seq<char>,
    b: Seq<char>,
    version: Result<u64, String>,
    want: u64,
    r: Result<String, FsError>,
    q: Result<String, FsError>,
)
    requires
        call_ensures(edit, (content, from, to, WriteGuard::Unconditional, version), r),
        call_ensures(edit, (content, from, to, WriteGuard::ReplaceIfVersion(want), version), q),
        from@.len() > 0,
    ensures
        content@ == a + from@ + b && (forall|j: int|
            #[trigger] occurs_at(content@, from@, j) ==> j == a.len()) ==> r is Ok && r->Ok_0@ == a + to@
            + b,
        (forall|j: int| !#[trigger] occurs_at(content@, from@, j)) ==> r is Err,
        (exists|i: int, j: int|
            #[trigger] occurs_at(content@, from@, i) && #[trigger] occurs_at(content@, from@, j) && i
                + from@.len() <= j) ==> r is Err,
        q is Ok <==> r is Ok && version == Ok::<u64, String>(want),
        q is Ok ==> q->Ok_0@ == r->Ok_0@,
{
    let c = content@;
    let f = from@;
    find_from_is_first(c, f, 0);
    if c == a + f + b && (forall|j: int| #[trigger] occurs_at(c, f, j) ==> j == a.len()) {
        let n = a.len() as int;
        assert(c.subrange(n, n + f.len()) =~= f);
        assert(occurs_at(c, f, n));
        assert(find_from_spec(c, f, 0) == Some(n));
        find_from_is_first(c, f, n + f.len());
        assert(c.take(n) =~= a);
        assert(c.skip(n + f.len()) =~= b);
    }
    if exists|i: int, j: int|
        #[trigger] occurs_at(c, f, i) && #[trigger] occurs_at(c, f, j) && i + f.len() <= j {
        let (i, j) = choose|i: int, j: int|
            #[trigger] occurs_at(c, f, i) && #[trigger] occurs_at(c, f, j) && i + f.len() <= j;
        let k = find_from_spec(c, f, 0)->0;
        find_from_is_first(c, f, k + f.len());
        assert(k <= i);
    }
}

/// A file is edited only after it was read, where it may be written; the new content is
/// that of the edit. What is refused is noted.
pub proof fn edits_follow_reads(
    path: FsPath,
    from: &str,
    to: &str,
    guard: WriteGuard,
    disk: ReadProbe,
    version: Result<u64, String>,
    time: &str,
    fence: Result<(), FsError>,
    content: &str,
    made: Result<String, FsError>,
    r: Result<String, FsError>,
)
    requires
        call_ensures(edit, (content, from, to, guard, version), made),
    ensures
        forall|s: &mut FsService|
            #[trigger] call_ensures(
                FsService::edit_text,
                (s, &path, from, to, guard, disk, version, time),
                r,
            ) && call_ensures(FsService::fence_write, (&*s, &path), fence) ==> {
                &&& fence is Err ==> r is Err && r->Err_0@ == fence->Err_0@
                &&& !s@.observed.contains(texts(path.parts@)) ==> r is Err
                    && r->Err_0 is PermissionDenied
                &&& r is Err ==> final(s)@.ledger.last().op == "edit"@ && !final(s)@.ledger.last().ok && final(s)@.ledger.last().path == path.display@
                &&& r is Ok ==> disk.bytes is Ok && disk.meta is Ok && disk.meta->Ok_0.is_file
                &&& r is Ok && content@ == decode_utf8(disk.bytes->Ok_0@) ==> made is Ok
                    && r->Ok_0@ == made->Ok_0@
                &&& fence is Ok && s@.observed.contains(texts(path.parts@)) && disk.bytes is Ok
                    && disk.meta is Ok && disk.meta->Ok_0.is_file && valid_utf8(disk.bytes->Ok_0@)
                    && !disk.bytes->Ok_0@.contains(0u8) && content@ == decode_utf8(
                    disk.bytes->Ok_0@,
                ) && made is Ok ==> r is Ok
            },
{
}

// ---- paths ----

/// A path that is not whole lies below the workspace; the normalised form of a path is
/// the one that the disk gives.
pub proof fn paths_are_found(
    fs: FsService,
    path: &str,
    whole: NamedPath,
    below: NamedPath,
    p: FsPath,
    why: String,
    a: Result<FsPath, FsError>,
    b: Result<FsPath, FsError>,
    c: Result<FsPath, FsError>,
    d: Result<FsPath, FsError>,
)
    requires
        call_ensures(FsService::resolve, (&fs, path, true), whole),
        call_ensures(FsService::resolve, (&fs, path, false), below),
        call_ensures(FsService::normalize, (&fs, PathProbe::Exists(Ok(p))), a),
        call_ensures(FsService::normalize, (&fs, PathProbe::Absent(true, Ok(p))), b),
        call_ensures(FsService::normalize, (&fs, PathProbe::Exists(Err(why))), c),
        call_ensures(FsService::normalize, (&fs, PathProbe::Absent(false, Ok(p))), d),
    ensures
        whole is Whole && whole->Whole_0@ == path@,
        below is Below && below->Below_0@ == fs.policy.workspace_root.display@ && below->Below_1@
            == path@,
        a is Ok && a->Ok_0@ == p@,
        b is Ok && b->Ok_0@ == p@,
        c is Err && c->Err_0 is Io && c->Err_0->Io_0@ == why@,
        d is Err,
{
}

/// A path of which only a part exists goes on from there with the names that are
/// missing, each of them; what is no name is refused.
pub proof fn missing_names_follow(
    fs: FsService,
    ancestor: FsPath,
    missing: Vec<String>,
    separator: char,
    r: Result<FsPath, FsError>,
    i: int,
)
    requires
        call_ensures(FsService::normalize_missing, (&fs, &ancestor, &missing, separator), r),
    ensures
        0 <= i < missing@.len() && (missing@[i]@.len() == 0 || missing@[i]@ == "."@ || missing@[i]@
            == ".."@) ==> r is Err,
        (forall|k: int|
            0 <= k < missing@.len() ==> (#[trigger] missing@[k])@.len() > 0 && missing@[k]@ != "."@
                && missing@[k]@ != ".."@) ==> r is Ok,
        r is Ok ==> texts(r->Ok_0.parts@) == texts(ancestor.parts@) + texts(missing@),
        r is Ok && missing@.len() > 0 ==> r->Ok_0.name@ == missing@.last()@
            && missing@.last()@.is_suffix_of(r->Ok_0.display@),
        r is Ok ==> ancestor.display@.is_prefix_of(r->Ok_0.display@),
        r is Ok && missing@.len() == 0 ==> r->Ok_0@ == ancestor@,
        r is Ok && missing@.len() == 1 && ancestor.display@.len() > 0 && ancestor.display@.last()
            != separator ==> r->Ok_0.display@ == ancestor.display@ + seq![separator]
            + missing@[0]@,
{
    let names = texts(missing@);
    assert(names.len() == missing@.len());
    if 0 <= i < missing@.len() {
        assert(names[i] == missing@[i]@);
    }
    if forall|k: int|
        0 <= k < missing@.len() ==> (#[trigger] missing@[k])@.len() > 0 && missing@[k]@ != "."@
            && missing@[k]@ != ".."@ {
        assert forall|k: int| 0 <= k < missing@.len() implies is_name(#[trigger] names[k]) by {
            assert(names[k] == missing@[k]@);
        }
    }
    if r is Ok {
        nested_paths_go_on(ancestor@, names, separator);
        if missing@.len() > 0 {
            assert(names.last() == missing@.last()@);
        }
        if missing@.len() == 1 {
            assert(names.drop_last() =~= Seq::empty());
            assert(nested_path(ancestor@, names.drop_last(), separator) == ancestor@);
            assert(r->Ok_0.display@ =~= ancestor.display@ + seq![separator] + missing@[0]@ || ancestor.display@.len() == 0
                || ancestor.display@.last() == separator);
        }
    }
}

proof fn nested_paths_go_on(ancestor: PathView, names: Seq<Seq<char>>, separator: char)
    ensures
        ({
            let p = nested_path(ancestor, names, separator);
            &&& p.parts == ancestor.parts + names
            &&& ancestor.display.is_prefix_of(p.display)
            &&& names.len() > 0 ==> p.name == names.last() && names.last().is_suffix_of(p.display)
        }),
    decreases names.len(),
{
    let p = nested_path(ancestor, names, separator);
    if names.len() > 0 {
        let head = names.drop_last();
        let above = nested_path(ancestor, head, separator);
        nested_paths_go_on(ancestor, head, separator);
        assert(p.parts =~= ancestor.parts + names);
        let n = ancestor.display.len() as int;
        assert(ancestor.display =~= above.display.subrange(0, n));
        assert(ancestor.display =~= p.display.subrange(0, n));
        let l = names.last();
        assert(l =~= p.display.subrange(p.display.len() - l.len(), p.display.len() as int));
    } else {
        assert(p.parts =~= ancestor.parts + names);
        assert(ancestor.display =~= p.display.subrange(0, ancestor.display.len() as int));
    }
}

/// A session begins in its workspace, which it may write, with nothing read and nothing
/// noted; its mode is the one that was set last.
pub proof fn a_session_begins_in_its_workspace(
    root: FsPath,
    fs: FsService,
    mode: SandboxMode,
    r: SandboxMode,
)
    requires
        call_ensures(FsService::new, (root,), fs),
    ensures
        fs.policy.workspace_root@ == root@,
        fs.policy.extra_writable@.len() == 0,
        fs.mode == SandboxMode::WorkspaceWrite,
        fs@.observed.len() == 0,
        fs@.ledger.len() == 0,
        forall|s: &mut FsService|
            #[trigger] call_ensures(FsService::set_mode, (s, mode), ()) ==> final(s).mode == mode
                && final(s)@.policy == s@.policy && final(s)@.observed == s@.observed && final(s)@.ledger == s@.ledger && (call_ensures(FsService::mode, (&*final(s),), r) ==> r == mode),
{
    assert(fs@.policy.extra.len() == fs.policy.extra_writable@.len());
}

// ---- what is told ----

proof fn codes_differ()
    ensures
        "FS_NOT_FOUND: "@.len() == 14,
        "FS_NOT_DIRECTORY: "@.len() == 18,
        "FS_PERMISSION_DENIED: "@.len() == 22,
        "FS_NOT_TEXT: "@.len() == 13,
        "FS_IO_ERROR: "@.len() == 13,
        "FS_NOT_FOUND: "@[7] == 'F',
        "FS_NOT_DIRECTORY: "@[7] == 'D',
        "FS_NOT_TEXT: "@[7] == 'T',
        "FS_PERMISSION_DENIED: "@[3] == 'P',
        "FS_IO_ERROR: "@[3] == 'I',
        "FS_NOT_FOUND: "@[3] == 'N',
        "FS_NOT_DIRECTORY: "@[3] == 'N',
        "FS_NOT_TEXT: "@[3] == 'N',
        "FS_TOO_LARGE: 超过 "@.len() > 3,
        "FS_TOO_LARGE: 超过 "@[3] == 'T',
        "FS_STALE_VERSION: 期望 v"@.len() > 3,
        "FS_STALE_VERSION: 期望 v"@[3] == 'S',
{
    reveal_strlit("FS_NOT_FOUND: ");
    reveal_strlit("FS_NOT_DIRECTORY: ");
    reveal_strlit("FS_PERMISSION_DENIED: ");
    reveal_strlit("FS_NOT_TEXT: ");
    reveal_strlit("FS_IO_ERROR: ");
    reveal_strlit("FS_TOO_LARGE: 超过 ");
    reveal_strlit("FS_STALE_VERSION: 期望 v");
}

/// An error is told by its code and by all that it is about: no two errors read the
/// same.
pub proof fn errors_are_told_apart(a: FsError, b: FsError, x: String, y: String)
    requires
        call_ensures(FsError::message, (&a,), x),
        call_ensures(FsError::message, (&b,), y),
    ensures
        a@ != b@ ==> x@ != y@,
        a is NotFound ==> x@ == "FS_NOT_FOUND: "@ + a->NotFound_0@,
        a is PermissionDenied ==> x@ == "FS_PERMISSION_DENIED: "@ + a->PermissionDenied_0@,
        a is Io ==> x@ == "FS_IO_ERROR: "@ + a->Io_0@,
        a is TooLarge ==> occurs_at(
            x@,
            decimal_spec(a->TooLarge_0 as nat),
            "FS_TOO_LARGE: 超过 "@.len() as int,
        ),
{
    codes_differ();
    let e = a@;
    let f = b@;
    if a is TooLarge {
        let n = "FS_TOO_LARGE: 超过 "@.len() as int;
        let d = decimal_spec(a->TooLarge_0 as nat);
        assert(x@.subrange(n, n + d.len()) =~= d);
    }
    if x@ == y@ {
        assert(x@[3] == y@[3]);
        match (a, b) {
            (FsError::NotFound(p), FsError::NotFound(q)) => {
                assert(x@.skip(14) =~= p@);
                assert(y@.skip(14) =~= q@);
            },
            (FsError::NotDirectory(p), FsError::NotDirectory(q)) => {
                assert(x@.skip(18) =~= p@);
                assert(y@.skip(18) =~= q@);
            },
            (FsError::PermissionDenied(p), FsError::PermissionDenied(q)) => {
                assert(x@.skip(22) =~= p@);
                assert(y@.skip(22) =~= q@);
            },
            (FsError::NotText(p), FsError::NotText(q)) => {
                assert(x@.skip(13) =~= p@);
                assert(y@.skip(13) =~= q@);
            },
            (FsError::Io(p), FsError::Io(q)) => {
                assert(x@.skip(13) =~= p@);
                assert(y@.skip(13) =~= q@);
            },
            (FsError::TooLarge(p), FsError::TooLarge(q)) => {
                reveal_strlit(" 字节上限");
                let n = "FS_TOO_LARGE: 超过 "@.len() as int;
                let tail = " 字节上限"@;
                assert(x@.skip(n) =~= decimal_spec(p as nat) + tail);
                assert(y@.skip(n) =~= decimal_spec(q as nat) + tail);
                decimal_is_read_off(p as nat, q as nat, tail, tail);
            },
            (FsError::StaleVersion(g, w), FsError::StaleVersion(h, v)) => {
                reveal_strlit(",当前 v");
                let n = "FS_STALE_VERSION: 期望 v"@.len() as int;
                let mid = ",当前 v"@;
                let s = mid + decimal_spec(g as nat);
                let t = mid + decimal_spec(h as nat);
                assert(x@.skip(n) =~= decimal_spec(w as nat) + s);
                assert(y@.skip(n) =~= decimal_spec(v as nat) + t);
                decimal_is_read_off(w as nat, v as nat, s, t);
                assert(s.skip(mid.len() as int) =~= decimal_spec(g as nat) + Seq::empty());
                assert(t.skip(mid.len() as int) =~= decimal_spec(h as nat) + Seq::empty());
                decimal_is_read_off(g as nat, h as nat, Seq::empty(), Seq::empty());
            },
            _ => {
                assert(x@[3] == y@[3]);
                assert(x@[7] == y@[7]);
            },
        }
    }
}

/// The version of a file changes with its length, where it was changed at the same
/// time.
pub proof fn versions_follow_lengths(f: FileFacts, g: FileFacts, v: u64, w: u64)
    requires
        call_ensures(version_from_meta, (&f,), v),
        call_ensures(version_from_meta, (&g,), w),
        f.modified == g.modified,
    ensures
        f.len != g.len ==> v != w,
        f.len == g.len ==> v == w,
{
    let t: u64 = match f.modified {
        Some(t) => t as u64,
        None => 0,
    };
    let a = f.len;
    let b = g.len;
    assert(a != b ==> t ^ a != t ^ b) by (bit_vector);
}

/// Two moments within the range of 64 bits give two versions, for files of one length.
pub proof fn versions_follow_changes(f: FileFacts, g: FileFacts, v: u64, w: u64)
    requires
        call_ensures(version_from_meta, (&f,), v),
        call_ensures(version_from_meta, (&g,), w),
        f.len == g.len,
        f.modified is Some && f.modified->0 <= u64::MAX,
        g.modified is Some && g.modified->0 <= u64::MAX,
    ensures
        f.modified->0 != g.modified->0 ==> v != w,
{
    let x = f.modified->0 as u64;
    let y = g.modified->0 as u64;
    let n = f.len;
    assert(x != y ==> x ^ n != y ^ n) by (bit_vector);
}

/// A mode is named in any of its spellings, in any case and with blanks around it; what
/// is no name of a mode is refused, and named in the refusal.
pub proof fn modes_are_named(s: &str, r: Result<SandboxMode, String>)
    requires
        call_ensures(SandboxMode::from_str, (s,), r),
    ensures
        ({
            let l = ascii_lower_spec(trim_spec(s@));
            &&& l == "read-only"@ || l == "readonly"@ || l == "ro"@ ==> r == Ok::<
                SandboxMode,
                String,
            >(SandboxMode::ReadOnly)
            &&& l == "workspace-write"@ || l == "workspace"@ || l == "ww"@ ==> r == Ok::<
                SandboxMode,
                String,
            >(SandboxMode::WorkspaceWrite)
            &&& l == "full"@ || l == "all"@ ==> r == Ok::<SandboxMode, String>(SandboxMode::Full)
        }),
        r is Err ==> exists|i: int| occurs_at(r->Err_0@, s@, i),
{
    reveal_strlit("read-only");
    reveal_strlit("readonly");
    reveal_strlit("ro");
    reveal_strlit("workspace-write");
    reveal_strlit("workspace");
    reveal_strlit("ww");
    reveal_strlit("full");
    reveal_strlit("all");
    assert("full"@[0] == 'f');
    assert("all"@[0] == 'a');
    assert("read-only"@[0] == 'r');
    assert("readonly"@[0] == 'r');
    assert("ro"@[0] == 'r');
    assert("workspace-write"@[0] == 'w');
    assert("workspace"@[0] == 'w');
    assert("ww"@[0] == 'w');
    if r is Err {
        let m = r->Err_0@;
        let n = "未知模式 `"@.len() as int;
        assert(m.subrange(n, n + s@.len()) =~= s@);
        assert(occurs_at(m, s@, n));
    }
}

/// The name of a file that is not complete holds that of the file, and no two processes
/// write the same one.
pub proof fn unfinished_files_are_told_apart(name: &str, p: u32, q: u32, a: String, b: String)
    requires
        call_ensures(temp_name, (Some(name), p), a),
        call_ensures(temp_name, (Some(name), q), b),
    ensures
        a@.len() > name@.len(),
        a@[0] == '.',
        occurs_at(a@, name@, 1),
        p != q ==> a@ != b@,
{
    reveal_strlit(".");
    assert(a@.subrange(1, 1 + name@.len() as int) =~= name@);
    if a@ == b@ {
        let k = ("."@ + name@ + ".localai-tmp-"@).len() as int;
        assert(a@.skip(k) =~= decimal_spec(p as nat) + Seq::empty());
        assert(b@.skip(k) =~= decimal_spec(q as nat) + Seq::empty());
        decimal_is_read_off(p as nat, q as nat, Seq::empty(), Seq::empty());
    }
}

}  // verus!
