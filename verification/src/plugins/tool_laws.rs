//! What holds of the commands for files and programs: what a line means, and that what
//! is shown is all that there is.

use crate::fs::policy::FsPath;
use crate::fs::service::{
    child_entries, entry_spec, EntryFacts, FsService, LogView, MetaFailure, ReadProbe,
};
use crate::fs::{FileFacts, FsChild, FsError, FsInfo, SandboxMode};
use crate::plugins::tools::{
    entry_line, entry_lines, fs_cat, fs_cmd, fs_edited, fs_log, fs_ls, fs_stat, fs_written, listing,
    log_line, mode_cmd, pwd_cmd, run_cmd, run_report, run_text, three_parts, FsCommand,
    ToolsOptions,
};
use crate::fs::access_laws::was_noted;
use crate::subprocess::RunOutput;
use crate::text::laws::{joined_texts_stand, parted_once};
use crate::text::number::{
    decimal_is_read_off, decimal_reads_back, decimal_spec, numbers_are_written_in_digits,
    signed_is_read_off, signed_spec,
};
use crate::text::search::{contains_spec, occurs_at};
use crate::text::split::split_once_spec;
use crate::text::trim::trim_spec;
use crate::text::{pad_left_spec, pad_right_spec};
use vstd::prelude::*;
use vstd::string::*;

verus! {

// ---- programs ----

/// What a program gave is shown whole: the report begins with its exit status, in
/// decimal notation, holds how long it ran and everything that it wrote, and ends with
/// what it wrote as errors.
pub proof fn a_report_shows_the_run(out: RunOutput, r: String)
    requires
        call_ensures(run_report, (Ok(out),), r),
    ensures
        ("exit="@ + signed_spec(out.status as int) + " "@).is_prefix_of(r@),
        occurs_at(
            r@,
            decimal_spec(out.duration_ms as nat),
            ("exit="@ + signed_spec(out.status as int) + " ("@).len() as int,
        ),
        contains_spec(r@, "\n--- stdout ---\n"@ + out.stdout@ + "\n--- stderr ---\n"@),
        ("\n--- stderr ---\n"@ + out.stderr@).is_suffix_of(r@),
{
    reveal_strlit(" ");
    reveal_strlit(" (");
    reveal_strlit(")\n--- stdout ---\n");
    reveal_strlit("\n--- stdout ---\n");
    let m = r@;
    assert(m == run_text(out));
    let head = "exit="@ + signed_spec(out.status as int);
    assert(head + " "@ =~= m.subrange(0, head.len() as int + 1));
    let n = (head + " ("@).len() as int;
    let d = decimal_spec(out.duration_ms as nat);
    assert(m.subrange(n, n + d.len()) =~= d);
    let part = "\n--- stdout ---\n"@ + out.stdout@ + "\n--- stderr ---\n"@;
    let k = n + d.len() + 1;
    assert(m.subrange(k, k + part.len()) =~= part);
    assert(occurs_at(m, part, k));
    let tail = "\n--- stderr ---\n"@ + out.stderr@;
    assert(tail =~= m.subrange(m.len() - tail.len(), m.len() as int));
}

/// Reports of two runs that ended with different statuses, or ran for different times,
/// differ. So do those of two runs of the same status and time that wrote as much, but
/// not the same.
pub proof fn reports_are_told_apart(a: RunOutput, b: RunOutput, r: String, s: String)
    requires
        call_ensures(run_report, (Ok(a),), r),
        call_ensures(run_report, (Ok(b),), s),
    ensures
        a.status != b.status ==> r@ != s@,
        a.duration_ms != b.duration_ms ==> r@ != s@,
        a.stdout@.len() == b.stdout@.len() && (a.stdout@ != b.stdout@ || a.stderr@ != b.stderr@)
            ==> r@ != s@,
{
    if r@ == s@ {
        reveal_strlit(" (");
        reveal_strlit(")\n--- stdout ---\n");
        let x = ")\n--- stdout ---\n"@ + a.stdout@ + "\n--- stderr ---\n"@ + a.stderr@;
        let y = ")\n--- stdout ---\n"@ + b.stdout@ + "\n--- stderr ---\n"@ + b.stderr@;
        let da = decimal_spec(a.duration_ms as nat);
        let db = decimal_spec(b.duration_ms as nat);
        let p = " ("@ + da + x;
        let q = " ("@ + db + y;
        assert(r@.skip("exit="@.len() as int) =~= signed_spec(a.status as int) + p);
        assert(s@.skip("exit="@.len() as int) =~= signed_spec(b.status as int) + q);
        signed_is_read_off(a.status as int, b.status as int, p, q);
        assert(p.skip(2) =~= da + x);
        assert(q.skip(2) =~= db + y);
        decimal_is_read_off(a.duration_ms as nat, b.duration_ms as nat, x, y);
        if a.stdout@.len() == b.stdout@.len() {
            let n = ")\n--- stdout ---\n"@.len() as int;
            let k = n + a.stdout@.len();
            assert(x.subrange(n, k) =~= a.stdout@);
            assert(y.subrange(n, k) =~= b.stdout@);
            let l = k + "\n--- stderr ---\n"@.len();
            assert(x.skip(l) =~= a.stderr@);
            assert(y.skip(l) =~= b.stderr@);
        }
    }
}

/// A program that did not run is reported with the reason, and its report is that of no
/// run.
pub proof fn failures_are_reported(e: String, out: RunOutput, r: String, s: String)
    requires
        call_ensures(run_report, (Err(e),), r),
        call_ensures(run_report, (Ok(out),), s),
    ensures
        e@.is_suffix_of(r@),
        "错误: "@.is_prefix_of(r@),
        r@ != s@,
{
    reveal_strlit("错误: ");
    reveal_strlit("exit=");
    let m = r@;
    assert(e@ =~= m.subrange(m.len() - e@.len(), m.len() as int));
    assert("错误: "@ =~= m.subrange(0, "错误: "@.len() as int));
    assert(m[0] == '错');
    assert(s@[0] == 'e');
}

/// What is run is the line that is given, without the white space around it; nothing is
/// run where nothing is given.
pub proof fn the_whole_line_is_run(args: &str, r: Option<String>)
    requires
        call_ensures(run_cmd, (args,), r),
    ensures
        r is Some <==> trim_spec(args@).len() > 0,
        r is Some ==> r->0@ == trim_spec(args@),
{
}

/// A program may run for the seconds that are set, and for half a minute where none are.
pub proof fn programs_run_as_long_as_set(o: ToolsOptions, r: u128)
    requires
        call_ensures(ToolsOptions::run_timeout, (&o,), r),
    ensures
        o.run_timeout_secs is Some ==> r == o.run_timeout_secs->0 * 1_000_000_000,
        o.run_timeout_secs is None ==> r == 30_000_000_000,
{
}

// ---- what a line means ----

proof fn parts_of_a_line(a: Seq<char>, b: Seq<char>, c: Seq<char>)
    requires
        !a.contains(' '),
        !b.contains(' '),
    ensures
        three_parts(a) == (a, Seq::<char>::empty(), Seq::<char>::empty()),
        three_parts(a + seq![' '] + b) == (a, b, Seq::<char>::empty()),
        three_parts(a + seq![' '] + b + seq![' '] + c) == (a, b, c),
{
    blank_parts(a, b);
    let rest = b + seq![' '] + c;
    blank_parts(a, rest);
    blank_parts(b, c);
    assert(a + seq![' '] + b + seq![' '] + c =~= a + seq![' '] + rest);
}

proof fn blank_parts(a: Seq<char>, b: Seq<char>)
    requires
        !a.contains(' '),
    ensures
        split_once_spec(a, ' ') is None,
        split_once_spec(a + seq![' '] + b, ' ') == Some((a, b)),
{
    parted_once(a, ' ');
    if let Some((x, y)) = split_once_spec(a, ' ') {
        assert(a[x.len() as int] == ' ');
    }
    let s = a + seq![' '] + b;
    parted_once(s, ' ');
    assert(s[a.len() as int] == ' ');
    assert(s.contains(' '));
    let (x, y) = split_once_spec(s, ' ')->0;
    if x.len() < a.len() {
        assert(s[x.len() as int] == ' ');
        assert(a[x.len() as int] == ' ');
    } else if x.len() > a.len() {
        assert(x[a.len() as int] == s[a.len() as int]);
    }
    assert(x =~= s.take(a.len() as int));
    assert(a =~= s.take(a.len() as int));
    assert(y =~= s.skip(a.len() as int + 1));
    assert(b =~= s.skip(a.len() as int + 1));
}

/// Whether a text is a word: not empty, without blanks, and as it is when trimmed.
pub open spec fn is_word(w: Seq<char>) -> bool {
    w.len() > 0 && !w.contains(' ') && trim_spec(w) == w
}

proof fn command_words()
    ensures
        is_word("ls"@),
        is_word("cat"@),
        is_word("write"@),
        is_word("stat"@),
        is_word("edit"@),
        is_word("log"@),
        "ls"@ != "cat"@ && "ls"@ != "write"@ && "ls"@ != "stat"@ && "ls"@ != "edit"@ && "ls"@ != "log"@,
        "cat"@ != "write"@ && "cat"@ != "stat"@ && "cat"@ != "edit"@ && "cat"@ != "log"@,
        "write"@ != "stat"@ && "write"@ != "edit"@ && "write"@ != "log"@,
        "stat"@ != "edit"@ && "stat"@ != "log"@,
        "edit"@ != "log"@,
{
    reveal_strlit("ls");
    reveal_strlit("cat");
    reveal_strlit("write");
    reveal_strlit("stat");
    reveal_strlit("edit");
    reveal_strlit("log");
    assert("ls"@[0] == 'l');
    assert("cat"@[0] == 'c');
    assert("write"@[0] == 'w');
    assert("stat"@[0] == 's');
    assert("edit"@[0] == 'e');
    assert("log"@[0] == 'l');
    assert(trim_spec("ls"@) == "ls"@);
    assert(trim_spec("cat"@) == "cat"@);
    assert(trim_spec("write"@) == "write"@);
    assert(trim_spec("stat"@) == "stat"@);
    assert(trim_spec("edit"@) == "edit"@);
    assert(trim_spec("log"@) == "log"@);
}

/// A line says what is done with which file: it is listed, shown, told of, or written
/// with everything that follows the path.
pub proof fn a_line_names_a_file(
    sub: Seq<char>,
    path: Seq<char>,
    rest: Seq<char>,
    one: &str,
    two: &str,
    three: &str,
    r1: FsCommand,
    r2: FsCommand,
    r3: FsCommand,
)
    requires
        sub == "ls"@ || sub == "cat"@ || sub == "stat"@ || sub == "write"@,
        is_word(path),
        one@ == sub,
        two@ == sub + seq![' '] + path,
        three@ == sub + seq![' '] + path + seq![' '] + rest,
        call_ensures(fs_cmd, (one,), r1),
        call_ensures(fs_cmd, (two,), r2),
        call_ensures(fs_cmd, (three,), r3),
    ensures
        sub == "ls"@ ==> r1 is List && r1->List_0@ == "."@ && r2 is List && r2->List_0@ == path,
        sub == "cat"@ ==> r1 is Usage && r2 is Read && r2->Read_0@ == path,
        sub == "stat"@ ==> r1 is Usage && r2 is Stat && r2->Stat_0@ == path,
        sub == "write"@ ==> r1 is Usage && r2 is Write && r2->Write_0@ == path && r3 is Write
            && r3->Write_0@ == path && r3->Write_1@ == trim_spec(rest),
{
    command_words();
    parts_of_a_line(sub, path, rest);
}

/// An edit names a file, what is replaced, and by what; the ledger is shown as far back
/// as the number says, and twenty lines where it says none; what is no command is
/// answered by how they are used.
pub proof fn a_line_names_an_edit(
    path: Seq<char>,
    from: Seq<char>,
    to: Seq<char>,
    n: usize,
    other: Seq<char>,
    edit: &str,
    log: &str,
    all: &str,
    none: &str,
    re: FsCommand,
    rl: FsCommand,
    ra: FsCommand,
    rn: FsCommand,
)
    requires
        is_word(path),
        is_word(from),
        is_word(to),
        trim_spec(from + seq![' '] + to) == from + seq![' '] + to,
        trim_spec(decimal_spec(n as nat)) == decimal_spec(n as nat),
        is_word(other),
        other != "ls"@ && other != "cat"@ && other != "stat"@ && other != "write"@ && other != "edit"@
            && other != "log"@,
        edit@ == "edit"@ + seq![' '] + path + seq![' '] + (from + seq![' '] + to),
        log@ == "log"@ + seq![' '] + decimal_spec(n as nat),
        all@ == "log"@,
        none@ == other,
        call_ensures(fs_cmd, (edit,), re),
        call_ensures(fs_cmd, (log,), rl),
        call_ensures(fs_cmd, (all,), ra),
        call_ensures(fs_cmd, (none,), rn),
    ensures
        re is Edit && re->Edit_0@ == path && re->Edit_1@ == from && re->Edit_2@ == to,
        rl == FsCommand::Log(n),
        ra == FsCommand::Log(20),
        rn is Usage,
{
    command_words();
    let words = from + seq![' '] + to;
    parts_of_a_line("edit"@, path, words);
    parts_of_a_line(from, to, Seq::empty());
    let d = decimal_spec(n as nat);
    numbers_are_written_in_digits(n as nat, 0);
    if d.contains(' ') {
        let k = choose|k: int| 0 <= k < d.len() && d[k] == ' ';
        assert('0' <= d[k]);
    }
    parts_of_a_line("log"@, d, Seq::empty());
    decimal_reads_back(n as nat);
    parts_of_a_line(other, Seq::empty(), Seq::empty());
}

// ---- what is shown ----

proof fn entry_in_listing(v: Seq<EntryFacts>, i: int) -> (at: int)
    requires
        0 <= i < v.len(),
    ensures
        occurs_at(entry_lines(v), entry_line(v[i]), at),
    decreases v.len(),
{
    let all = entry_lines(v);
    let x = entry_line(v[i]);
    let d = v.drop_last();
    if i == v.len() - 1 {
        let at = entry_lines(d).len() as int;
        assert(all.subrange(at, at + x.len()) =~= x);
        at
    } else {
        let at = entry_in_listing(d, i);
        assert(all.subrange(at, at + x.len()) =~= entry_lines(d).subrange(at, at + x.len()));
        at
    }
}

/// The line of a directory entry as it is shown: a mark for its kind, its size on the
/// right of ten places, and its name.
pub open spec fn shown_entry(dir: bool, link: bool, size: Option<u64>, name: Seq<char>) -> Seq<char> {
    let mark = if dir {
        "d"@
    } else if link {
        "l"@
    } else {
        "-"@
    };
    let number = match size {
        Some(n) => decimal_spec(n as nat),
        None => "-"@,
    };
    "\n"@ + mark + " "@ + pad_left_spec(number, 10) + " "@ + name
}

/// Every child of a directory that is listed is shown, on a line of its own, with its
/// kind, its size and its name; an empty directory is shown as one.
pub proof fn every_child_is_shown(
    path: FsPath,
    meta: Result<FileFacts, MetaFailure>,
    children: Result<Vec<FsChild>, String>,
    time: &str,
    fence: Result<(), FsError>,
    r: String,
    i: int,
)
    ensures
        forall|s: &mut FsService|
            #[trigger] call_ensures(fs_ls, (s, &path, meta, children, time), r) && call_ensures(
                FsService::fence_read,
                (&*s, &path),
                fence,
            ) ==> {
                &&& fence is Err ==> r@ == crate::fs::error_text(fence->Err_0@)
                &&& fence is Ok && meta is Ok && meta->Ok_0.is_dir && children is Ok ==> {
                    &&& 0 <= i < children->Ok_0@.len() ==> {
                        let c = children->Ok_0@[i];
                        let f = c.facts;
                        contains_spec(
                            r@,
                            shown_entry(
                                !f.is_file && f.is_dir,
                                !f.is_file && !f.is_dir && f.is_symlink,
                                if f.is_file {
                                    Some(f.len)
                                } else {
                                    None
                                },
                                c.name@,
                            ),
                        )
                    }
                    &&& children->Ok_0@.len() > 0 ==> path.display@.is_prefix_of(r@)
                    &&& children->Ok_0@.len() == 0 ==> path.display@.is_suffix_of(r@)
                    &&& was_noted(s@, final(s)@, "ls"@, path.display@, true, time@)
                }
            },
{
    assert forall|s: &mut FsService|
        #[trigger] call_ensures(fs_ls, (s, &path, meta, children, time), r) && call_ensures(
            FsService::fence_read,
            (&*s, &path),
            fence,
        ) implies {
        &&& fence is Err ==> r@ == crate::fs::error_text(fence->Err_0@)
        &&& fence is Ok && meta is Ok && meta->Ok_0.is_dir && children is Ok ==> {
            &&& 0 <= i < children->Ok_0@.len() ==> {
                let c = children->Ok_0@[i];
                let f = c.facts;
                contains_spec(
                    r@,
                    shown_entry(
                        !f.is_file && f.is_dir,
                        !f.is_file && !f.is_dir && f.is_symlink,
                        if f.is_file {
                            Some(f.len)
                        } else {
                            None
                        },
                        c.name@,
                    ),
                )
            }
            &&& children->Ok_0@.len() > 0 ==> path.display@.is_prefix_of(r@)
            &&& children->Ok_0@.len() == 0 ==> path.display@.is_suffix_of(r@)
            &&& was_noted(s@, final(s)@, "ls"@, path.display@, true, time@)
        }
    } by {
        if fence is Ok && meta is Ok && meta->Ok_0.is_dir && children is Ok {
            let all = children->Ok_0@;
            let b = child_entries(all);
            let a = choose|sorted: Seq<EntryFacts>|
                #![trigger listing(path.display@, sorted)]
                r@ == listing(path.display@, sorted) && sorted.to_multiset() == b.to_multiset();
            a.to_multiset_ensures();
            b.to_multiset_ensures();
            assert(a.len() == b.len());
            assert(b.len() == all.len());
            let d = path.display@;
            if 0 <= i < all.len() {
                assert(b[i] == entry_spec(all[i]));
                assert(b.contains(b[i]));
                assert(a.to_multiset().count(b[i]) > 0);
                assert(a.contains(b[i]));
                let j = choose|j: int| 0 <= j < a.len() && a[j] == b[i];
                let at = entry_in_listing(a, j);
                let x = entry_line(a[j]);
                let k = d.len() + ":"@.len() + at;
                assert(r@.subrange(k, k + x.len()) =~= entry_lines(a).subrange(at, at + x.len()));
                assert(occurs_at(r@, x, k));
            }
            if all.len() > 0 {
                assert(d =~= r@.subrange(0, d.len() as int));
            } else {
                assert(d =~= r@.subrange(r@.len() - d.len(), r@.len() as int));
            }
        }
    }
}

/// What is shown of a file is what was read of it; where nothing was read, the reason is
/// shown. The file is read as it is for any other reader.
pub proof fn a_file_is_shown_whole(
    path: FsPath,
    disk: ReadProbe,
    time: &str,
    fence: Result<(), FsError>,
    r: String,
)
    ensures
        forall|s: &mut FsService|
            #[trigger] call_ensures(fs_cat, (s, &path, disk, time), r) && call_ensures(
                FsService::fence_read,
                (&*s, &path),
                fence,
            ) ==> {
                &&& fence is Err ==> r@ == crate::fs::error_text(fence->Err_0@)
                &&& fence is Ok && disk.meta is Ok && disk.meta->Ok_0.is_file && disk.bytes is Ok
                    && vstd::utf8::valid_utf8(disk.bytes->Ok_0@) && !disk.bytes->Ok_0@.contains(0u8)
                    ==> r@ == vstd::utf8::decode_utf8(disk.bytes->Ok_0@) && was_noted(
                    s@,
                    final(s)@,
                    "read"@,
                    path.display@,
                    true,
                    time@,
                )
            },
{
}

/// What is known of a file is shown: its path, its kind, its size and its version; a
/// file that does not exist is shown as missing.
pub proof fn what_is_known_is_shown(
    path: FsPath,
    f: FileFacts,
    e: MetaFailure,
    time: &str,
    fence: Result<(), FsError>,
    r: String,
    q: String,
)
    ensures
        forall|s: &mut FsService|
            #[trigger] call_ensures(fs_stat, (s, &path, Ok(f), time), r) && call_ensures(
                FsService::fence_read,
                (&*s, &path),
                fence,
            ) && fence is Ok ==> {
                let kind = if f.is_file {
                    "File"@
                } else if f.is_dir {
                    "Dir"@
                } else if f.is_symlink {
                    "Symlink"@
                } else {
                    "Other"@
                };
                let size = if f.is_file {
                    f.len as nat
                } else {
                    0
                };
                (path.display@ + " kind="@ + kind + " size="@ + decimal_spec(size)
                    + " version=v"@).is_prefix_of(r@)
            },
        forall|s: &mut FsService|
            #[trigger] call_ensures(fs_stat, (s, &path, Err(e), time), q) && call_ensures(
                FsService::fence_read,
                (&*s, &path),
                fence,
            ) && fence is Ok && e.not_found ==> q@ == "FS_NOT_FOUND: "@ + path.display@,
{
    assert forall|s: &mut FsService|
        #[trigger] call_ensures(fs_stat, (s, &path, Ok(f), time), r) && call_ensures(
            FsService::fence_read,
            (&*s, &path),
            fence,
        ) && fence is Ok implies {
        let kind = if f.is_file {
            "File"@
        } else if f.is_dir {
            "Dir"@
        } else if f.is_symlink {
            "Symlink"@
        } else {
            "Other"@
        };
        let size = if f.is_file {
            f.len as nat
        } else {
            0
        };
        (path.display@ + " kind="@ + kind + " size="@ + decimal_spec(size) + " version=v"@).is_prefix_of(
            r@,
        )
    } by {
        let kind = if f.is_file {
            "File"@
        } else if f.is_dir {
            "Dir"@
        } else if f.is_symlink {
            "Symlink"@
        } else {
            "Other"@
        };
        let size = if f.is_file {
            f.len as nat
        } else {
            0
        };
        let head = path.display@ + " kind="@ + kind + " size="@ + decimal_spec(size)
            + " version=v"@;
        assert(head =~= r@.subrange(0, head.len() as int));
    }
}

/// The version that is shown of a file is the one that is known of it, in decimal
/// notation, at the end.
pub proof fn the_known_version_is_shown(
    path: FsPath,
    f: FileFacts,
    time: &str,
    i: Result<Option<FsInfo>, FsError>,
    r: String,
)
    ensures
        forall|s: &mut FsService|
            #[trigger] call_ensures(fs_stat, (s, &path, Ok(f), time), r) && call_ensures(
                FsService::stat,
                (s, &path, Ok(f), time),
                i,
            ) && i is Ok ==> i->Ok_0 is Some && (" version=v"@ + decimal_spec(
                i->Ok_0->0.version as nat,
            )).is_suffix_of(r@),
{
    assert forall|s: &mut FsService|
        #[trigger] call_ensures(fs_stat, (s, &path, Ok(f), time), r) && call_ensures(
            FsService::stat,
            (s, &path, Ok(f), time),
            i,
        ) && i is Ok implies i->Ok_0 is Some && (" version=v"@ + decimal_spec(
        i->Ok_0->0.version as nat,
    )).is_suffix_of(r@) by {
        let tail = " version=v"@ + decimal_spec(i->Ok_0->0.version as nat);
        assert(tail =~= r@.subrange(r@.len() - tail.len(), r@.len() as int));
    }
}

/// That a file was written or edited is said with its path, and noted; where it was not,
/// the reason is said.
pub proof fn what_was_done_is_said(path: FsPath, e: String, time: &str, w: String, d: String, f: String, g: String)
    ensures
        forall|s: &mut FsService|
            #[trigger] call_ensures(fs_written, (s, &path, Ok(()), time), w) ==> path.display@.is_suffix_of(
                w@,
            ) && "已写入 "@.is_prefix_of(w@) && was_noted(
                s@,
                final(s)@,
                "write"@,
                path.display@,
                true,
                time@,
            ),
        forall|s: &mut FsService|
            #[trigger] call_ensures(fs_edited, (s, &path, Ok(()), time), d) ==> path.display@.is_suffix_of(
                d@,
            ) && "已编辑 "@.is_prefix_of(d@) && was_noted(
                s@,
                final(s)@,
                "edit"@,
                path.display@,
                true,
                time@,
            ),
        forall|s: &mut FsService|
            #[trigger] call_ensures(fs_written, (s, &path, Err(e), time), f) ==> e@.is_suffix_of(f@)
                && was_noted(s@, final(s)@, "write"@, path.display@, false, time@),
        forall|s: &mut FsService|
            #[trigger] call_ensures(fs_edited, (s, &path, Err(e), time), g) ==> e@.is_suffix_of(g@)
                && was_noted(s@, final(s)@, "edit"@, path.display@, false, time@),
{
    let p = path.display@;
    assert("已写入 "@ =~= ("已写入 "@ + p).subrange(0, "已写入 "@.len() as int));
    assert(p =~= ("已写入 "@ + p).subrange("已写入 "@.len() as int, ("已写入 "@ + p).len() as int));
    assert("已编辑 "@ =~= ("已编辑 "@ + p).subrange(0, "已编辑 "@.len() as int));
    assert(p =~= ("已编辑 "@ + p).subrange("已编辑 "@.len() as int, ("已编辑 "@ + p).len() as int));
    let m = "FS_IO_ERROR: "@ + e@;
    assert(e@ =~= m.subrange("FS_IO_ERROR: "@.len() as int, m.len() as int));
}

/// The ledger is shown line by line, as far back as is asked for: each line with its
/// time, the operation, whether it was done, and the path.
pub proof fn every_line_of_the_ledger_is_shown(fs: FsService, n: usize, r: String, i: int)
    requires
        call_ensures(fs_log, (&fs, n), r),
    ensures
        0 <= i < n && i < fs@.ledger.len() ==> {
            let l = fs@.ledger[fs@.ledger.len() - 1 - i];
            contains_spec(
                r@,
                l.time + " "@ + pad_right_spec(l.op, 6) + " "@ + (if l.ok {
                    "OK  "@
                } else {
                    "DENY"@
                }) + " "@ + l.path,
            )
        },
        n == 0 || fs@.ledger.len() == 0 ==> r@ == "(暂无访问记录)"@,
{
    let all = fs@.ledger.reverse();
    let k = if n < fs@.ledger.len() {
        n as int
    } else {
        fs@.ledger.len() as int
    };
    let v = all.take(k);
    if 0 <= i < n && i < fs@.ledger.len() {
        let lines = v.map_values(|l: LogView| log_line(l));
        let at = joined_texts_stand(lines, "\n"@, i);
        assert(v[i] == fs@.ledger[fs@.ledger.len() - 1 - i]);
        assert(lines[i] == log_line(v[i]));
        assert(occurs_at(r@, lines[i], at));
    }
}

/// The mode is changed to the one that is named, and shown where none is; a name that is
/// none changes nothing.
pub proof fn modes_are_changed_by_name(args: &str, m: Result<SandboxMode, String>, name: &str, r: String)
    requires
        name@ == trim_spec(args@),
        call_ensures(SandboxMode::from_str, (name,), m),
    ensures
        forall|s: &mut FsService|
            #[trigger] call_ensures(mode_cmd, (s, args), r) ==> {
                &&& name@.len() == 0 ==> final(s).mode == s.mode && exists|i: int|
                    occurs_at(r@, s.mode.label_spec(), i)
                &&& name@.len() > 0 && m is Ok ==> final(s).mode == m->Ok_0
                    && m->Ok_0.label_spec().is_suffix_of(r@)
                &&& name@.len() > 0 && m is Err ==> final(s).mode == s.mode && m->Err_0@.is_suffix_of(r@)
                &&& final(s)@.policy == s@.policy && final(s)@.ledger == s@.ledger && final(s)@.observed == s@.observed
            },
{
    assert forall|s: &mut FsService| #[trigger] call_ensures(mode_cmd, (s, args), r) implies {
        &&& name@.len() == 0 ==> final(s).mode == s.mode && exists|i: int|
            occurs_at(r@, s.mode.label_spec(), i)
        &&& name@.len() > 0 && m is Ok ==> final(s).mode == m->Ok_0
            && m->Ok_0.label_spec().is_suffix_of(r@)
        &&& name@.len() > 0 && m is Err ==> final(s).mode == s.mode && m->Err_0@.is_suffix_of(r@)
        &&& final(s)@.policy == s@.policy && final(s)@.ledger == s@.ledger && final(s)@.observed
            == s@.observed
    } by {
        let t = r@;
        if name@.len() == 0 {
            let l = s.mode.label_spec();
            let n = "当前模式: "@.len() as int;
            assert(t.subrange(n, n + l.len()) =~= l);
            assert(occurs_at(t, l, n));
        } else if m is Ok {
            let l = m->Ok_0.label_spec();
            assert(l =~= t.subrange(t.len() - l.len(), t.len() as int));
        } else {
            let l = m->Err_0@;
            assert(l =~= t.subrange(t.len() - l.len(), t.len() as int));
        }
    }
}

/// The workspace that is shown is the one of the session.
pub proof fn the_workspace_is_shown(fs: FsService, r: String)
    requires
        call_ensures(pwd_cmd, (&fs,), r),
    ensures
        r@ == fs.policy.workspace_root.display@,
{
}

}  // verus!
