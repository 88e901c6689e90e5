//! Mounting on a directory made for it, and unmounting.

use vstd::prelude::*;

use crate::command::{
    command_result, mount_args, mount_arguments, mount_dir, run_result, temp_dir_path, Ran, RanView,
};
use crate::effects::{option_view, outcome_view, text_view};
use crate::split::{strings, texts};

verus! {

/// What is done next, and the reply that it is answered with.
#[derive(Debug)]
pub enum MountAction {
    /// Make this directory, which is not there yet. Answered with `Made`.
    MakeDir(String),
    /// Run `mount` with these arguments. Answered with `Ran`.
    Mount(Vec<String>),
    /// Remove the directory, if that can be done. Answered with `Removed`.
    RemoveDir(String),
    /// Nothing more is to be done: the directory on which it is mounted, or why it is not.
    Finish(Result<String, String>),
}

/// The contents of a `MountAction`.
#[verifier::ext_equal]
pub enum MountActionView {
    MakeDir(Seq<char>),
    Mount(Seq<Seq<char>>),
    RemoveDir(Seq<char>),
    Finish(Result<Seq<char>, Seq<char>>),
}

impl View for MountAction {
    type V = MountActionView;

    open spec fn view(&self) -> MountActionView {
        match *self {
            MountAction::MakeDir(dir) => MountActionView::MakeDir(dir@),
            MountAction::Mount(args) => MountActionView::Mount(strings(args@)),
            MountAction::RemoveDir(dir) => MountActionView::RemoveDir(dir@),
            MountAction::Finish(r) => MountActionView::Finish(text_view(r)),
        }
    }
}

/// What an action led to.
#[derive(Debug)]
pub enum MountReply {
    /// The directory was made, or could not be.
    Made(Result<(), String>),
    /// How the command went.
    Ran(Ran),
    /// The directory was removed, if that could be done.
    Removed,
}

/// The contents of a `MountReply`.
pub enum MountReplyView {
    Made(Result<(), Seq<char>>),
    Ran(RanView),
    Removed,
}

impl View for MountReply {
    type V = MountReplyView;

    open spec fn view(&self) -> MountReplyView {
        match *self {
            MountReply::Made(r) => MountReplyView::Made(outcome_view(r)),
            MountReply::Ran(r) => MountReplyView::Ran(r@),
            MountReply::Removed => MountReplyView::Removed,
        }
    }
}

/// How far a mount is.
#[derive(Debug, Clone, Copy, PartialEq, Eq, Structural)]
pub enum MountPhase {
    Making,
    Mounting,
    Removing,
    Finished,
}

/// The contents of a `MountSetup`.
#[verifier::ext_equal]
pub struct MountView {
    /// What is mounted.
    pub source: Seq<char>,
    /// The type of its file system, if it is given.
    pub fstype: Option<Seq<char>>,
    /// Options.
    pub options: Seq<Seq<char>>,
    /// It is a file, to be mounted through a loop device.
    pub looped: bool,
    /// The directory to mount it on.
    pub dir: Seq<char>,
    pub phase: MountPhase,
    /// Why it is not mounted; empty as long as nothing failed.
    pub error: Seq<char>,
    /// It is mounted.
    pub mounted: bool,
}

impl MountView {
    /// A mount that is about to begin.
    pub open spec fn start(
        dir: Seq<char>,
        source: Seq<char>,
        fstype: Option<Seq<char>>,
        options: Seq<Seq<char>>,
        looped: bool,
    ) -> MountView {
        MountView {
            source,
            fstype,
            options,
            looped,
            dir,
            phase: MountPhase::Making,
            error: ""@,
            mounted: false,
        }
    }

    /// What is done next.
    pub open spec fn request(self) -> MountActionView {
        match self.phase {
            MountPhase::Making => MountActionView::MakeDir(self.dir),
            MountPhase::Mounting => MountActionView::Mount(
                mount_args(self.source, self.fstype, self.options, self.looped, self.dir),
            ),
            MountPhase::Removing => MountActionView::RemoveDir(self.dir),
            MountPhase::Finished => MountActionView::Finish(
                if self.mounted {
                    Ok(self.dir)
                } else {
                    Err(self.error)
                },
            ),
        }
    }

    /// The mount after a reply.
    pub open spec fn advance(self, reply: MountReplyView) -> MountView {
        match (self.phase, reply) {
            (MountPhase::Making, MountReplyView::Made(r)) => match r {
                Ok(_) => MountView { phase: MountPhase::Mounting, ..self },
                Err(e) => MountView {
                    phase: MountPhase::Finished,
                    error: "create temp dir "@ + self.dir + ": "@ + e,
                    ..self
                },
            },
            (MountPhase::Mounting, MountReplyView::Ran(ran)) => match run_result("mount"@, ran) {
                Ok(_) => MountView { phase: MountPhase::Finished, mounted: true, ..self },
                Err(e) => MountView { phase: MountPhase::Removing, error: e, ..self },
            },
            (MountPhase::Removing, _) => MountView { phase: MountPhase::Finished, ..self },
            (MountPhase::Finished, _) => self,
            (MountPhase::Making, _) => MountView {
                phase: MountPhase::Finished,
                error: "unexpected reply"@,
                ..self
            },
            (MountPhase::Mounting, _) => MountView {
                phase: MountPhase::Removing,
                error: "unexpected reply"@,
                ..self
            },
        }
    }

    /// The mount after a sequence of replies.
    pub open spec fn run(self, replies: Seq<MountReplyView>) -> MountView
        decreases replies.len(),
    {
        if replies.len() == 0 {
            self
        } else {
            self.run(replies.drop_last()).advance(replies.last())
        }
    }
}

/// The directory was made while a mount was told `replies`.
pub open spec fn made_dir(s: MountView, replies: Seq<MountReplyView>) -> bool
    decreases replies.len(),
{
    replies.len() > 0 && (made_dir(s, replies.drop_last()) || (s.run(
        replies.drop_last(),
    ).request() is MakeDir && (replies.last() matches MountReplyView::Made(r) && r is Ok)))
}

/// The directory was asked to be removed, and that was answered, while a mount was told
/// `replies`.
pub open spec fn removed_dir(s: MountView, replies: Seq<MountReplyView>) -> bool
    decreases replies.len(),
{
    replies.len() > 0 && (removed_dir(s, replies.drop_last()) || s.run(
        replies.drop_last(),
    ).request() == MountActionView::RemoveDir(s.dir))
}

/// A mount that has ended leaves no directory behind but the one it is mounted on: where it
/// was made, it has been removed, unless the mount succeeded on it.
pub proof fn law_no_directory_is_left_behind(
    dir: Seq<char>,
    source: Seq<char>,
    fstype: Option<Seq<char>>,
    options: Seq<Seq<char>>,
    looped: bool,
    replies: Seq<MountReplyView>,
)
    requires
        MountView::start(dir, source, fstype, options, looped).run(replies).phase is Finished,
    ensures
        ({
            let s = MountView::start(dir, source, fstype, options, looped);
            let mounted = s.run(replies).request() == MountActionView::Finish(Ok(dir));
            made_dir(s, replies) == (mounted || removed_dir(s, replies)) && !(mounted
                && removed_dir(s, replies))
        }),
{
    lemma_dirs(MountView::start(dir, source, fstype, options, looped), replies);
}

proof fn lemma_dirs(s: MountView, replies: Seq<MountReplyView>)
    requires
        s == MountView::start(s.dir, s.source, s.fstype, s.options, s.looped),
    ensures
        ({
            let now = s.run(replies);
            let made = made_dir(s, replies);
            let removed = removed_dir(s, replies);
            &&& now.dir == s.dir
            &&& now.phase is Making ==> !made
            &&& now.phase is Mounting || now.phase is Removing ==> made
            &&& !(now.phase is Finished) ==> !removed && !now.mounted
            &&& now.phase is Finished ==> made == (now.mounted || removed) && !(now.mounted
                && removed)
        }),
    decreases replies.len(),
{
    if replies.len() > 0 {
        lemma_dirs(s, replies.drop_last());
    }
}

/// How a mount goes on: a directory is made, `mount` is run for it, and where that fails the
/// directory is removed. It ends with the directory exactly where `mount` succeeded, else with
/// what failed.
pub proof fn law_mount_goes_on(
    dir: Seq<char>,
    source: Seq<char>,
    fstype: Option<Seq<char>>,
    options: Seq<Seq<char>>,
    looped: bool,
    made: Result<(), Seq<char>>,
    ran: RanView,
    last: MountReplyView,
)
    ensures
        ({
            let s = MountView::start(dir, source, fstype, options, looped);
            let a = s.advance(MountReplyView::Made(made));
            let b = a.advance(MountReplyView::Ran(ran));
            let c = b.advance(last);
            &&& s.request() == MountActionView::MakeDir(dir)
            &&& made matches Err(e) ==> a.request() == MountActionView::Finish(
                Err("create temp dir "@ + dir + ": "@ + e),
            )
            &&& made is Ok ==> {
                &&& a.request() == MountActionView::Mount(
                    mount_args(source, fstype, options, looped, dir),
                )
                &&& match run_result("mount"@, ran) {
                    Ok(_) => b.request() == MountActionView::Finish(Ok(dir)),
                    Err(e) => b.request() == MountActionView::RemoveDir(dir) && c.request()
                        == MountActionView::Finish(Err(e)),
                }
            }
        }),
{
}

/// Mounting something on a directory made for it, step by step.
#[derive(Debug)]
pub struct MountSetup {
    source: String,
    fstype: Option<&'static str>,
    options: Vec<&'static str>,
    looped: bool,
    dir: String,
    phase: MountPhase,
    error: String,
    mounted: bool,
}

impl View for MountSetup {
    type V = MountView;

    closed spec fn view(&self) -> MountView {
        MountView {
            source: self.source@,
            fstype: option_view(self.fstype),
            options: texts(self.options@),
            looped: self.looped,
            dir: self.dir@,
            phase: self.phase,
            error: self.error@,
            mounted: self.mounted,
        }
    }
}

impl MountSetup {
    /// A mount by the process `pid` at the time `nanos` that is about to begin. Process and
    /// time tell the directory for it.
    pub fn new(
        pid: u32,
        nanos: u128,
        source: String,
        fstype: Option<&'static str>,
        options: Vec<&'static str>,
        looped: bool,
    ) -> (r: MountSetup)
        ensures
            r@ == MountView::start(
                mount_dir(pid as nat, nanos as nat),
                source@,
                option_view(fstype),
                texts(options@),
                looped,
            ),
    {
        MountSetup {
            source,
            fstype,
            options,
            looped,
            dir: temp_dir_path(pid, nanos),
            phase: MountPhase::Making,
            error: "".to_owned(),
            mounted: false,
        }
    }

    /// A mount of an image, read-only, that is about to begin.
    pub fn image(pid: u32, nanos: u128, source: String) -> (r: MountSetup)
        ensures
            r@ == MountView::start(
                mount_dir(pid as nat, nanos as nat),
                source@,
                None,
                seq!["ro"@],
                true,
            ),
    {
        let mut options: Vec<&'static str> = Vec::new();
        options.push("ro");
        assert(texts(options@) =~= seq!["ro"@]);
        MountSetup::new(pid, nanos, source, None, options, true)
    }

    /// What is done next.
    pub fn request(&self) -> (r: MountAction)
        ensures
            r@ == self@.request(),
    {
        match self.phase {
            MountPhase::Making => MountAction::MakeDir(self.dir.clone()),
            MountPhase::Mounting => MountAction::Mount(
                mount_arguments(
                    self.source.as_str(),
                    self.fstype,
                    &self.options,
                    self.looped,
                    self.dir.as_str(),
                ),
            ),
            MountPhase::Removing => MountAction::RemoveDir(self.dir.clone()),
            MountPhase::Finished => {
                if self.mounted {
                    MountAction::Finish(Ok(self.dir.clone()))
                } else {
                    MountAction::Finish(Err(self.error.clone()))
                }
            },
        }
    }

    /// Goes on with what was done.
    pub fn answer(&mut self, reply: MountReply)
        ensures
            final(self)@ == old(self)@.advance(reply@),
    {
        match (self.phase, reply) {
            (MountPhase::Making, MountReply::Made(r)) => match r {
                Ok(_) => {
                    self.phase = MountPhase::Mounting;
                },
                Err(e) => {
                    let mut out = "create temp dir ".to_owned();
                    out.append(self.dir.as_str());
                    out.append(": ");
                    out.append(e.as_str());
                    self.phase = MountPhase::Finished;
                    self.error = out;
                },
            },
            (MountPhase::Mounting, MountReply::Ran(ran)) => match command_result("mount", &ran) {
                Ok(_) => {
                    self.phase = MountPhase::Finished;
                    self.mounted = true;
                },
                Err(e) => {
                    self.phase = MountPhase::Removing;
                    self.error = e;
                },
            },
            (MountPhase::Removing, _) => {
                self.phase = MountPhase::Finished;
            },
            (MountPhase::Finished, _) => {},
            (MountPhase::Making, _) => {
                self.phase = MountPhase::Finished;
                self.error = "unexpected reply".to_owned();
            },
            (MountPhase::Mounting, _) => {
                self.phase = MountPhase::Removing;
                self.error = "unexpected reply".to_owned();
            },
        }
    }
}

} // verus!
