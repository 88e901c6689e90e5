//! The commands that are run, and what their ends mean.

use vstd::prelude::*;

use crate::effects::{option_view, outcome_view, text_view};
use crate::number::{decimal, decimal_text, lemma_decimal};
use crate::split::{join, joined, strings, texts};
use crate::text::{is_digit, trim, trimmed, CharClass};
use crate::text_laws::law_trimming_gives_back;

verus! {

/// How running a command went.
#[derive(Debug)]
pub enum Ran {
    /// It could not be started, for this reason.
    NotStarted(String),
    /// It ended.
    Ended {
        success: bool,
        /// How it ended, in words.
        status: String,
        /// What it wrote.
        stdout: String,
        /// What it wrote as its errors.
        stderr: String,
    },
}

/// The contents of a `Ran`.
pub enum RanView {
    NotStarted(Seq<char>),
    Ended { success: bool, status: Seq<char>, stdout: Seq<char>, stderr: Seq<char> },
}

impl View for Ran {
    type V = RanView;

    open spec fn view(&self) -> RanView {
        match *self {
            Ran::NotStarted(e) => RanView::NotStarted(e@),
            Ran::Ended { success, status, stdout, stderr } => RanView::Ended {
                success,
                status: status@,
                stdout: stdout@,
                stderr: stderr@,
            },
        }
    }
}

/// The message for a command that could not be started.
pub open spec fn not_started(cmd: Seq<char>, e: Seq<char>) -> Seq<char> {
    "failed to run "@ + cmd + ": "@ + e
}

/// The message for a command that could not be started.
pub fn start_failure(cmd: &str, e: &str) -> (r: String)
    ensures
        r@ == not_started(cmd@, e@),
{
    let mut out = "failed to run ".to_owned();
    out.append(cmd);
    out.append(": ");
    out.append(e);
    out
}

/// The result of a command: where it fails, what it wrote as its errors, or how it ended.
pub open spec fn run_result(cmd: Seq<char>, ran: RanView) -> Result<(), Seq<char>> {
    match ran {
        RanView::NotStarted(e) => Err(not_started(cmd, e)),
        RanView::Ended { success, status, stdout, stderr } => if success {
            Ok(())
        } else if trimmed(stderr).len() == 0 {
            Err(cmd + " exited with "@ + status)
        } else {
            Err(cmd + ": "@ + trimmed(stderr))
        },
    }
}

/// The result of a command.
pub fn command_result(cmd: &str, ran: &Ran) -> (r: Result<(), String>)
    ensures
        outcome_view(r) == run_result(cmd@, ran@),
{
    match ran {
        Ran::NotStarted(e) => Err(start_failure(cmd, e.as_str())),
        Ran::Ended { success, status, stdout, stderr } => {
            if *success {
                return Ok(());
            }
            let text = trim(stderr.as_str());
            let mut out = cmd.to_owned();
            if text.is_empty() {
                out.append(" exited with ");
                out.append(status.as_str());
            } else {
                out.append(": ");
                out.append(text);
            }
            Err(out)
        },
    }
}

/// The result of `systemctl` with the verb `verb`: where it fails, how it ended.
pub open spec fn systemctl_result(verb: Seq<char>, ran: RanView) -> Result<(), Seq<char>> {
    match ran {
        RanView::NotStarted(e) => Err(not_started("systemctl "@ + verb, e)),
        RanView::Ended { success, status, stdout, stderr } => if success {
            Ok(())
        } else {
            Err("systemctl "@ + verb + " exited with "@ + status)
        },
    }
}

/// The result of `systemctl` with the verb `verb`.
pub fn systemctl_outcome(verb: &str, ran: &Ran) -> (r: Result<(), String>)
    ensures
        outcome_view(r) == systemctl_result(verb@, ran@),
{
    let mut out = "systemctl ".to_owned();
    out.append(verb);
    match ran {
        Ran::NotStarted(e) => Err(start_failure(out.as_str(), e.as_str())),
        Ran::Ended { success, status, stdout, stderr } => {
            if *success {
                return Ok(());
            }
            out.append(" exited with ");
            out.append(status.as_str());
            Err(out)
        },
    }
}

/// The UUID that `blkid` wrote for `dev`.
pub open spec fn uuid_result(dev: Seq<char>, ran: RanView) -> Result<Seq<char>, Seq<char>> {
    match ran {
        RanView::NotStarted(e) => Err(not_started("blkid"@, e)),
        RanView::Ended { success, status, stdout, stderr } => if !success {
            Err("blkid failed for "@ + dev)
        } else if trimmed(stdout).len() == 0 {
            Err("no UUID for "@ + dev)
        } else {
            Ok(trimmed(stdout))
        },
    }
}

/// The UUID that `blkid` wrote for `dev`.
pub fn blkid_uuid(dev: &str, ran: &Ran) -> (r: Result<String, String>)
    ensures
        text_view(r) == uuid_result(dev@, ran@),
{
    match ran {
        Ran::NotStarted(e) => Err(start_failure("blkid", e.as_str())),
        Ran::Ended { success, status, stdout, stderr } => {
            if !*success {
                let mut out = "blkid failed for ".to_owned();
                out.append(dev);
                return Err(out);
            }
            let uuid = trim(stdout.as_str());
            if uuid.is_empty() {
                let mut out = "no UUID for ".to_owned();
                out.append(dev);
                Err(out)
            } else {
                Ok(uuid.to_owned())
            }
        },
    }
}

/// A program can be used if asking it for its version succeeds.
pub open spec fn can_be_used(ran: RanView) -> bool {
    ran matches RanView::Ended { success: true, .. }
}

/// Tells whether a program can be used, from how asking it for its version went.
pub fn usable(ran: &Ran) -> (r: bool)
    ensures
        r == can_be_used(ran@),
{
    match ran {
        Ran::NotStarted(_) => false,
        Ran::Ended { success, status, stdout, stderr } => *success,
    }
}

/// The options of a mount; a loop device is one more.
pub open spec fn all_options(options: Seq<Seq<char>>, looped: bool) -> Seq<Seq<char>> {
    if looped {
        options.push("loop"@)
    } else {
        options
    }
}

/// The arguments of `mount`.
pub open spec fn mount_args(
    source: Seq<char>,
    fstype: Option<Seq<char>>,
    options: Seq<Seq<char>>,
    looped: bool,
    dir: Seq<char>,
) -> Seq<Seq<char>> {
    let given = joined(all_options(options, looped), ","@);
    let front = match fstype {
        Some(t) => seq!["-t"@, t],
        None => Seq::empty(),
    };
    let middle = if given.len() > 0 {
        seq!["-o"@, given]
    } else {
        Seq::empty()
    };
    front + middle + seq![source, dir]
}

/// The arguments of `mount` for mounting `source` on `dir`.
pub fn mount_arguments(
    source: &str,
    fstype: Option<&str>,
    options: &Vec<&'static str>,
    looped: bool,
    dir: &str,
) -> (r: Vec<String>)
    ensures
        strings(r@) == mount_args(source@, option_view(fstype), texts(options@), looped, dir@),
{
    let mut every: Vec<&str> = Vec::new();
    let mut i: usize = 0;
    while i < options.len()
        invariant
            i <= options@.len(),
            texts(every@) == texts(options@).take(i as int),
        decreases options@.len() - i,
    {
        let ghost was = every@;
        every.push(options[i]);
        assert(texts(every@) =~= texts(was).push(options@[i as int]@));
        assert(texts(options@).take(i + 1) =~= texts(options@).take(i as int).push(
            options@[i as int]@,
        ));
        i = i + 1;
    }
    assert(texts(options@).take(i as int) =~= texts(options@));
    if looped {
        let ghost was = every@;
        every.push("loop");
        assert(texts(every@) =~= texts(was).push("loop"@));
    }
    let given = join(&every, ",");
    let mut args: Vec<String> = Vec::new();
    let ghost front = match option_view(fstype) {
        Some(t) => seq!["-t"@, t],
        None => Seq::empty(),
    };
    match fstype {
        Some(t) => {
            args.push("-t".to_owned());
            args.push(t.to_owned());
        },
        None => {},
    }
    assert(strings(args@) =~= front);
    let ghost middle = if given@.len() > 0 {
        seq!["-o"@, given@]
    } else {
        Seq::empty()
    };
    if !given.as_str().is_empty() {
        args.push("-o".to_owned());
        args.push(given.clone());
    }
    assert(strings(args@) =~= front + middle);
    args.push(source.to_owned());
    args.push(dir.to_owned());
    assert(strings(args@) =~= front + middle + seq![source@, dir@]);
    args
}

/// The path of a directory for a mount, told apart by process and time.
pub open spec fn mount_dir(pid: nat, nanos: nat) -> Seq<char> {
    "/tmp/genpack-install-"@ + decimal(pid) + "-"@ + decimal(nanos)
}

/// Two mounts by different processes, or at different times, have different directories.
pub proof fn law_mount_directories_are_apart(pid: nat, nanos: nat, pid2: nat, nanos2: nat)
    requires
        pid != pid2 || nanos != nanos2,
    ensures
        mount_dir(pid, nanos) != mount_dir(pid2, nanos2),
{
    if mount_dir(pid, nanos) == mount_dir(pid2, nanos2) {
        let front = "/tmp/genpack-install-"@.len() as int;
        let a = decimal(pid) + "-"@ + decimal(nanos);
        let b = decimal(pid2) + "-"@ + decimal(nanos2);
        assert(mount_dir(pid, nanos).skip(front) =~= a);
        assert(mount_dir(pid2, nanos2).skip(front) =~= b);
        lemma_decimal(pid);
        lemma_decimal(pid2);
        lemma_decimal(nanos);
        lemma_decimal(nanos2);
        reveal_strlit("-");
        let m = decimal(pid).len() as int;
        let n = decimal(pid2).len() as int;
        assert(a[m] == '-' && b[n] == '-');
        if m < n {
            assert(b[m] == decimal(pid2)[m]);
            assert(is_digit(decimal(pid2)[m]));
        } else if n < m {
            assert(a[n] == decimal(pid)[n]);
            assert(is_digit(decimal(pid)[n]));
        }
        assert(a.take(m) =~= decimal(pid));
        assert(b.take(n) =~= decimal(pid2));
        assert(a.skip(m + 1) =~= decimal(nanos));
        assert(b.skip(n + 1) =~= decimal(nanos2));
    }
}

/// The path of a directory for a mount, told apart by process and time.
pub fn temp_dir_path(pid: u32, nanos: u128) -> (r: String)
    ensures
        r@ == mount_dir(pid as nat, nanos as nat),
{
    let mut out = "/tmp/genpack-install-".to_owned();
    out.append(decimal_text(pid as u128).as_str());
    out.append("-");
    out.append(decimal_text(nanos).as_str());
    out
}

/// White space and nothing else.
pub open spec fn is_blank(s: Seq<char>) -> bool {
    forall|i: int| 0 <= i < s.len() ==> CharClass::Whitespace.has(#[trigger] s[i])
}

/// A command succeeds exactly where it was started and ended with success. Where it fails, all
/// that it wrote as its errors is told, without the white space around it; where it wrote
/// nothing, how it ended; where it could not be started, why.
pub proof fn law_command_fails_with_its_words(
    cmd: Seq<char>,
    a: Seq<char>,
    words: Seq<char>,
    b: Seq<char>,
    status: Seq<char>,
    stdout: Seq<char>,
    success: bool,
)
    requires
        is_blank(a),
        is_blank(b),
        words.len() > 0 ==> !CharClass::Whitespace.has(words[0]) && !CharClass::Whitespace.has(
            words.last(),
        ),
    ensures
        run_result(cmd, RanView::NotStarted(words)) == Err::<(), Seq<char>>(
            "failed to run "@ + cmd + ": "@ + words,
        ),
        ({
            let ran = RanView::Ended { success, status, stdout, stderr: a + words + b };
            if success {
                run_result(cmd, ran) is Ok
            } else if words.len() > 0 {
                run_result(cmd, ran) == Err::<(), Seq<char>>(cmd + ": "@ + words)
            } else {
                run_result(cmd, ran) == Err::<(), Seq<char>>(cmd + " exited with "@ + status)
            }
        }),
{
    law_trimming_gives_back(a, words, b, CharClass::Whitespace);
}

/// The machine is asked by `systemctl`, and an answer that is no success tells how it ended.
pub proof fn law_systemctl_is_asked(verb: Seq<char>, ran: RanView)
    ensures
        match ran {
            RanView::NotStarted(e) => systemctl_result(verb, ran) == Err::<(), Seq<char>>(
                "failed to run systemctl "@ + verb + ": "@ + e,
            ),
            RanView::Ended { success, status, stdout, stderr } => if success {
                systemctl_result(verb, ran) is Ok
            } else {
                systemctl_result(verb, ran) == Err::<(), Seq<char>>(
                    "systemctl "@ + verb + " exited with "@ + status,
                )
            },
        },
{
    reveal_strlit("failed to run ");
    reveal_strlit("systemctl ");
    reveal_strlit("failed to run systemctl ");
    if let RanView::NotStarted(e) = ran {
        assert("failed to run "@ + ("systemctl "@ + verb) =~= "failed to run systemctl "@ + verb);
    }
}

/// The UUID is all that `blkid` wrote, without the white space around it.
pub proof fn law_uuid_is_read(
    dev: Seq<char>,
    a: Seq<char>,
    uuid: Seq<char>,
    b: Seq<char>,
    status: Seq<char>,
    stderr: Seq<char>,
)
    requires
        is_blank(a),
        is_blank(b),
        uuid.len() > 0 ==> !CharClass::Whitespace.has(uuid[0]) && !CharClass::Whitespace.has(
            uuid.last(),
        ),
    ensures
        ({
            let good = RanView::Ended { success: true, status, stdout: a + uuid + b, stderr };
            let bad = RanView::Ended { success: false, status, stdout: a + uuid + b, stderr };
            &&& uuid.len() > 0 ==> uuid_result(dev, good) == Ok::<Seq<char>, Seq<char>>(uuid)
            &&& uuid.len() == 0 ==> uuid_result(dev, good) == Err::<Seq<char>, Seq<char>>(
                "no UUID for "@ + dev,
            )
            &&& uuid_result(dev, bad) == Err::<Seq<char>, Seq<char>>("blkid failed for "@ + dev)
            &&& uuid_result(dev, RanView::NotStarted(status)) == Err::<Seq<char>, Seq<char>>(
                "failed to run blkid: "@ + status,
            )
        }),
{
    law_trimming_gives_back(a, uuid, b, CharClass::Whitespace);
    reveal_strlit("failed to run ");
    reveal_strlit("blkid");
    reveal_strlit(": ");
    reveal_strlit("failed to run blkid: ");
    assert("failed to run "@ + "blkid"@ + ": "@ =~= "failed to run blkid: "@);
}

/// A program can be used exactly where it was started and ended with success, whatever it
/// wrote.
pub proof fn law_usable_means_success(ran: RanView)
    ensures
        can_be_used(ran) <==> (ran is Ended && ran->success),
{
}

/// `mount` is told the type and the options where there are such, and in the end what is
/// mounted and where. The options are those given, and `loop` where a file is mounted; they
/// stand in one argument, with commas between them.
pub proof fn law_mount_is_told_all(
    source: Seq<char>,
    fstype: Option<Seq<char>>,
    options: Seq<Seq<char>>,
    looped: bool,
    dir: Seq<char>,
)
    requires
        forall|i: int| 0 <= i < options.len() ==> (#[trigger] options[i]).len() > 0,
    ensures
        ({
            let args = mount_args(source, fstype, options, looped, dir);
            let all = if looped {
                options + seq!["loop"@]
            } else {
                options
            };
            let n: int = if fstype is Some {
                2
            } else {
                0
            };
            let m: int = if all.len() > 0 {
                2
            } else {
                0
            };
            &&& args.len() == n + m + 2
            &&& fstype matches Some(t) ==> args[0] == "-t"@ && args[1] == t
            &&& all.len() > 0 ==> args[n] == "-o"@ && args[n + 1] == joined(all, ","@)
            &&& args[n + m] == source
            &&& args[n + m + 1] == dir
        }),
{
    let all = if looped {
        options + seq!["loop"@]
    } else {
        options
    };
    assert(all_options(options, looped) =~= all);
    reveal_strlit("loop");
    assert forall|i: int| 0 <= i < all.len() implies (#[trigger] all[i]).len() > 0 by {
        if i < options.len() {
            assert(options[i].len() > 0);
        }
    }
    lemma_joined_is_there(all);
}

proof fn lemma_joined_is_there(parts: Seq<Seq<char>>)
    requires
        forall|i: int| 0 <= i < parts.len() ==> (#[trigger] parts[i]).len() > 0,
    ensures
        joined(parts, ","@).len() > 0 <==> parts.len() > 0,
    decreases parts.len(),
{
    if parts.len() == 1 {
        assert(parts[0].len() > 0);
    } else if parts.len() > 1 {
        assert(parts[parts.len() - 1].len() > 0);
    }
}

/// A directory for a mount lies in `/tmp` and is called by the process and the time.
pub proof fn law_mount_directory_path(pid: nat, nanos: nat)
    ensures
        mount_dir(pid, nanos) == "/tmp/genpack-install-"@ + decimal(pid) + "-"@ + decimal(nanos),
{
}

} // verus!
