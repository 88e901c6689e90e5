//! Copying the system image, and telling how far it is.

use vstd::arithmetic::div_mod::lemma_div_is_ordered;
use vstd::prelude::*;

use crate::backend::Ratio;
use crate::effects::{failure, failure_text, outcome_view, stray_reply};

verus! {

/// The most bytes that can be counted.
pub const COUNT_LIMIT: u64 = 184_467_440_737_095_516;

/// What is done next, and the reply that it is answered with.
#[derive(Debug)]
pub enum CopyAction {
    /// Open the image. Answered with `Outcome`.
    Open,
    /// Create the file to write. Answered with `Outcome`.
    Create,
    /// Show how far the copy is. Answered with `Shown`.
    Report(Ratio),
    /// Read some bytes of the image. Answered with `Bytes`.
    Read,
    /// Write the bytes read last, all of them. Answered with `Outcome`.
    Write,
    /// Write what is held back. Answered with `Outcome`.
    Flush,
    /// Nothing more is to be done: this is the result.
    Finish(Result<(), String>),
}

/// The contents of a `CopyAction`.
#[verifier::ext_equal]
pub enum CopyActionView {
    Open,
    Create,
    Report(Ratio),
    Read,
    Write,
    Flush,
    Finish(Result<(), Seq<char>>),
}

impl View for CopyAction {
    type V = CopyActionView;

    open spec fn view(&self) -> CopyActionView {
        match *self {
            CopyAction::Open => CopyActionView::Open,
            CopyAction::Create => CopyActionView::Create,
            CopyAction::Report(r) => CopyActionView::Report(r),
            CopyAction::Read => CopyActionView::Read,
            CopyAction::Write => CopyActionView::Write,
            CopyAction::Flush => CopyActionView::Flush,
            CopyAction::Finish(r) => CopyActionView::Finish(outcome_view(r)),
        }
    }
}

/// What an action led to.
#[derive(Debug)]
pub enum CopyReply {
    /// It was done, or failed.
    Outcome(Result<(), String>),
    /// The number of bytes that were read, zero at the end of the image; or why none were.
    Bytes(Result<u64, String>),
    /// It was shown.
    Shown,
}

/// The contents of a `CopyReply`.
pub enum CopyReplyView {
    Outcome(Result<(), Seq<char>>),
    Bytes(Result<u64, Seq<char>>),
    Shown,
}

impl View for CopyReply {
    type V = CopyReplyView;

    open spec fn view(&self) -> CopyReplyView {
        match *self {
            CopyReply::Outcome(r) => CopyReplyView::Outcome(outcome_view(r)),
            CopyReply::Bytes(Ok(n)) => CopyReplyView::Bytes(Ok(n)),
            CopyReply::Bytes(Err(e)) => CopyReplyView::Bytes(Err(e@)),
            CopyReply::Shown => CopyReplyView::Shown,
        }
    }
}

/// How far a copy is.
#[derive(Debug, Clone, Copy, PartialEq, Eq, Structural)]
pub enum CopyPhase {
    Opening,
    Creating,
    FirstReport,
    Reading,
    /// Writing that many bytes.
    Writing(u64),
    Reporting,
    Flushing,
    LastReport,
    Finished,
}

/// The contents of an `ImageCopy`.
#[verifier::ext_equal]
pub struct CopyView {
    /// The image.
    pub from: Seq<char>,
    /// The file that is written.
    pub to: Seq<char>,
    /// The size of the image.
    pub size: nat,
    pub phase: CopyPhase,
    /// Bytes that have been written.
    pub copied: nat,
    /// The percentage that was shown last, if one was.
    pub percent: Option<nat>,
    /// The result, once there is one.
    pub result: Result<(), Seq<char>>,
}

/// `size`, but at least one.
pub open spec fn at_least_one(size: nat) -> nat {
    if size == 0 {
        1
    } else {
        size
    }
}

/// How much `copied` is of `size`, in whole percents.
pub open spec fn percent_of(copied: nat, size: nat) -> nat {
    copied * 100 / at_least_one(size)
}

impl CopyView {
    /// A copy that is about to begin.
    pub open spec fn start(from: Seq<char>, to: Seq<char>, size: nat) -> CopyView {
        CopyView {
            from,
            to,
            size,
            phase: CopyPhase::Opening,
            copied: 0,
            percent: None,
            result: Ok(()),
        }
    }

    /// The counts fit into the numbers that hold them.
    pub open spec fn wf(self) -> bool {
        &&& self.size <= u64::MAX
        &&& self.copied <= COUNT_LIMIT
        &&& self.percent matches Some(p) ==> p <= u64::MAX
        &&& self.phase matches CopyPhase::Writing(n) ==> self.copied + n <= COUNT_LIMIT
    }

    /// As many bytes can be counted as the reply tells of.
    pub open spec fn can_count(self, reply: CopyReplyView) -> bool {
        self.phase is Reading ==> (reply matches CopyReplyView::Bytes(Ok(n)) ==> self.copied + n
            <= COUNT_LIMIT)
    }

    /// What is done next.
    pub open spec fn request(self) -> CopyActionView {
        match self.phase {
            CopyPhase::Opening => CopyActionView::Open,
            CopyPhase::Creating => CopyActionView::Create,
            CopyPhase::FirstReport => CopyActionView::Report(Ratio { done: 0, whole: 1 }),
            CopyPhase::Reading => CopyActionView::Read,
            CopyPhase::Writing(_) => CopyActionView::Write,
            CopyPhase::Reporting => CopyActionView::Report(
                Ratio { done: self.copied as u64, whole: at_least_one(self.size) as u64 },
            ),
            CopyPhase::Flushing => CopyActionView::Flush,
            CopyPhase::LastReport => CopyActionView::Report(Ratio { done: 1, whole: 1 }),
            CopyPhase::Finished => CopyActionView::Finish(self.result),
        }
    }

    /// The copy goes on.
    pub open spec fn at(self, phase: CopyPhase) -> CopyView {
        CopyView { phase, ..self }
    }

    /// The copy has ended with a failure.
    pub open spec fn failed(self, e: Seq<char>) -> CopyView {
        CopyView { phase: CopyPhase::Finished, result: Err(e), ..self }
    }

    /// `n` bytes have been written. That is shown if it changes the percentage.
    pub open spec fn wrote(self, n: nat) -> CopyView {
        let copied = self.copied + n;
        let percent = percent_of(copied, self.size);
        if self.percent == Some(percent) {
            CopyView { copied, phase: CopyPhase::Reading, ..self }
        } else {
            CopyView { copied, phase: CopyPhase::Reporting, percent: Some(percent), ..self }
        }
    }

    /// The copy after a reply.
    pub open spec fn advance(self, reply: CopyReplyView) -> CopyView {
        match (self.phase, reply) {
            (CopyPhase::Finished, _) => self,
            (CopyPhase::Opening, CopyReplyView::Outcome(r)) => match r {
                Ok(_) => self.at(CopyPhase::Creating),
                Err(e) => self.failed(failure("open"@, self.from, e)),
            },
            (CopyPhase::Creating, CopyReplyView::Outcome(r)) => match r {
                Ok(_) => self.at(CopyPhase::FirstReport),
                Err(e) => self.failed(failure("create"@, self.to, e)),
            },
            (CopyPhase::FirstReport, CopyReplyView::Shown) => self.at(CopyPhase::Reading),
            (CopyPhase::Reading, CopyReplyView::Bytes(r)) => match r {
                Ok(n) => if n == 0 {
                    self.at(CopyPhase::Flushing)
                } else {
                    self.at(CopyPhase::Writing(n))
                },
                Err(e) => self.failed(failure("read"@, self.from, e)),
            },
            (CopyPhase::Writing(n), CopyReplyView::Outcome(r)) => match r {
                Ok(_) => self.wrote(n as nat),
                Err(e) => self.failed(failure("write"@, self.to, e)),
            },
            (CopyPhase::Reporting, CopyReplyView::Shown) => self.at(CopyPhase::Reading),
            (CopyPhase::Flushing, CopyReplyView::Outcome(r)) => match r {
                Ok(_) => self.at(CopyPhase::LastReport),
                Err(e) => self.failed(failure("flush"@, self.to, e)),
            },
            (CopyPhase::LastReport, CopyReplyView::Shown) => self.at(CopyPhase::Finished),
            _ => self.failed(stray_reply()),
        }
    }

    /// The copy after a sequence of replies.
    pub open spec fn run(self, replies: Seq<CopyReplyView>) -> CopyView
        decreases replies.len(),
    {
        if replies.len() == 0 {
            self
        } else {
            self.run(replies.drop_last()).advance(replies.last())
        }
    }
}

/// The bytes read while a copy is told `replies`.
pub open spec fn bytes_read(s: CopyView, replies: Seq<CopyReplyView>) -> nat
    decreases replies.len(),
{
    if replies.len() == 0 {
        0
    } else {
        let before = bytes_read(s, replies.drop_last());
        match (s.run(replies.drop_last()).phase, replies.last()) {
            (CopyPhase::Reading, CopyReplyView::Bytes(Ok(n))) => before + n as nat,
            _ => before,
        }
    }
}

/// A copy is told, while it reads, that the image is at its end.
pub open spec fn reached_end(s: CopyView, replies: Seq<CopyReplyView>) -> bool
    decreases replies.len(),
{
    replies.len() > 0 && (reached_end(s, replies.drop_last()) || (s.run(replies.drop_last()).phase
        is Reading && replies.last() == CopyReplyView::Bytes(Ok(0))))
}

/// A copy that succeeds has written all the bytes that were read, up to the end of the image.
pub proof fn law_success_means_all_is_written(
    from: Seq<char>,
    to: Seq<char>,
    size: nat,
    replies: Seq<CopyReplyView>,
)
    ensures
        ({
            let s = CopyView::start(from, to, size);
            let end = s.run(replies);
            end.phase is Finished && end.result is Ok ==> end.copied == bytes_read(s, replies)
                && reached_end(s, replies)
        }),
{
    lemma_counts(CopyView::start(from, to, size), replies);
}

proof fn lemma_counts(s: CopyView, replies: Seq<CopyReplyView>)
    requires
        s == CopyView::start(s.from, s.to, s.size),
    ensures
        ({
            let now = s.run(replies);
            let ended = reached_end(s, replies);
            &&& now.result is Err ==> now.phase is Finished
            &&& now.result is Ok ==> bytes_read(s, replies) == now.copied + (match now.phase {
                CopyPhase::Writing(n) => n as nat,
                _ => 0,
            })
            &&& now.phase is Flushing || now.phase is LastReport ==> ended
            &&& now.phase is Finished && now.result is Ok ==> ended
        }),
    decreases replies.len(),
{
    if replies.len() > 0 {
        lemma_counts(s, replies.drop_last());
    }
}

/// As long as no more is read than the image held at first, each share that is shown is one
/// between nothing and the whole.
pub proof fn law_shown_share_is_part_of_the_whole(
    from: Seq<char>,
    to: Seq<char>,
    size: nat,
    replies: Seq<CopyReplyView>,
)
    requires
        size <= u64::MAX,
        bytes_read(CopyView::start(from, to, size), replies) <= size,
    ensures
        CopyView::start(from, to, size).run(replies).request() matches CopyActionView::Report(share)
            ==> share.whole > 0 && 0 <= share.done <= share.whole,
{
    let s = CopyView::start(from, to, size);
    lemma_counts(s, replies);
    lemma_size_stays(s, replies);
}

proof fn lemma_size_stays(s: CopyView, replies: Seq<CopyReplyView>)
    ensures
        s.run(replies).size == s.size,
    decreases replies.len(),
{
    if replies.len() > 0 {
        lemma_size_stays(s, replies.drop_last());
    }
}

/// The percentages shown while a copy is told `replies`.
pub open spec fn percents(s: CopyView, replies: Seq<CopyReplyView>) -> Seq<nat>
    decreases replies.len(),
{
    let before = if replies.len() == 0 {
        Seq::empty()
    } else {
        percents(s, replies.drop_last())
    };
    let now = s.run(replies);
    if now.phase is Reporting {
        before.push(percent_of(now.copied, now.size))
    } else {
        before
    }
}

/// The percentages that are shown while the image is copied grow from one to the next, so
/// that none is shown twice.
pub proof fn law_shown_percentage_grows(
    from: Seq<char>,
    to: Seq<char>,
    size: nat,
    replies: Seq<CopyReplyView>,
)
    ensures
        ({
            let shown = percents(CopyView::start(from, to, size), replies);
            forall|i: int, j: int| 0 <= i < j < shown.len() ==> shown[i] < shown[j]
        }),
{
    lemma_percents(CopyView::start(from, to, size), replies);
}

proof fn lemma_percents(s: CopyView, replies: Seq<CopyReplyView>)
    requires
        s == CopyView::start(s.from, s.to, s.size),
    ensures
        ({
            let now = s.run(replies);
            let shown = percents(s, replies);
            &&& now.size == s.size
            &&& now.percent == (if shown.len() == 0 {
                None
            } else {
                Some(shown.last())
            })
            &&& now.percent matches Some(p) ==> p == percent_of(now.copied, now.size)
            &&& forall|i: int, j: int| 0 <= i < j < shown.len() ==> shown[i] < shown[j]
        }),
    decreases replies.len(),
{
    if replies.len() > 0 {
        let rest = replies.drop_last();
        lemma_percents(s, rest);
        let was = s.run(rest);
        let now = s.run(replies);
        let before = percents(s, rest);
        lemma_percent_grows(was.copied, now.copied, s.size);
        if now.phase is Reporting {
            let shown = before.push(percent_of(now.copied, now.size));
            assert(percents(s, replies) == shown);
            assert forall|i: int, j: int| 0 <= i < j < shown.len() implies shown[i] < shown[j] by {
                if j == before.len() {
                    assert(before[i] <= before.last());
                }
            }
        }
    }
}

proof fn lemma_percent_grows(a: nat, b: nat, size: nat)
    ensures
        a <= b ==> percent_of(a, size) <= percent_of(b, size),
{
    if a <= b {
        lemma_div_is_ordered(a as int * 100, b as int * 100, at_least_one(size) as int);
    }
}

/// How a copy goes on from each thing that it asked for, in terms of what it asks for next.
///
/// Whatever is read is written, of whatever size, and the end of the image alone ends the
/// copy. Behind a write, how much has been read of the whole is shown exactly where it is the
/// first write or the whole percents have changed. A failure ends the copy with its cause.
pub proof fn law_copy_goes_on(
    from: Seq<char>,
    to: Seq<char>,
    size: nat,
    replies: Seq<CopyReplyView>,
    r: CopyReplyView,
)
    requires
        size <= u64::MAX,
    ensures
        ({
            let s = CopyView::start(from, to, size);
            let now = s.run(replies);
            let next = now.advance(r).request();
            let read = bytes_read(s, replies);
            let whole = if size == 0 {
                1
            } else {
                size
            };
            match (now.request(), r) {
                (CopyActionView::Open, CopyReplyView::Outcome(Ok(_))) => next
                    == CopyActionView::Create,
                (CopyActionView::Open, CopyReplyView::Outcome(Err(e))) => next
                    == CopyActionView::Finish(Err("open "@ + from + ": "@ + e)),
                (CopyActionView::Create, CopyReplyView::Outcome(Ok(_))) => next
                    == CopyActionView::Report(Ratio { done: 0, whole: 1 }),
                (CopyActionView::Create, CopyReplyView::Outcome(Err(e))) => next
                    == CopyActionView::Finish(Err("create "@ + to + ": "@ + e)),
                (CopyActionView::Read, CopyReplyView::Bytes(Ok(n))) => if n == 0 {
                    next == CopyActionView::Flush
                } else {
                    next == CopyActionView::Write
                },
                (CopyActionView::Read, CopyReplyView::Bytes(Err(e))) => next
                    == CopyActionView::Finish(Err("read "@ + from + ": "@ + e)),
                (CopyActionView::Write, CopyReplyView::Outcome(Ok(_))) => {
                    let before = bytes_before_last(s, replies);
                    if before == 0 || before * 100 / whole != read * 100 / whole {
                        next == CopyActionView::Report(
                            Ratio { done: read as u64, whole: whole as u64 },
                        )
                    } else {
                        next == CopyActionView::Read
                    }
                },
                (CopyActionView::Write, CopyReplyView::Outcome(Err(e))) => next
                    == CopyActionView::Finish(Err("write "@ + to + ": "@ + e)),
                (CopyActionView::Flush, CopyReplyView::Outcome(Ok(_))) => next
                    == CopyActionView::Report(Ratio { done: 1, whole: 1 }),
                (CopyActionView::Flush, CopyReplyView::Outcome(Err(e))) => next
                    == CopyActionView::Finish(Err("flush "@ + to + ": "@ + e)),
                (CopyActionView::Report(_), CopyReplyView::Shown) => if reached_end(s, replies) {
                    next == CopyActionView::Finish(Ok(()))
                } else {
                    next == CopyActionView::Read
                },
                (CopyActionView::Finish(x), _) => next == CopyActionView::Finish(x),
                _ => next == CopyActionView::Finish(Err("unexpected reply"@)),
            }
        }),
{
    let s = CopyView::start(from, to, size);
    lemma_counts(s, replies);
    lemma_history(s, replies);
    reveal_strlit("open ");
    reveal_strlit("create ");
    reveal_strlit("read ");
    reveal_strlit("write ");
    reveal_strlit("flush ");
    reveal_strlit("open");
    reveal_strlit("create");
    reveal_strlit("read");
    reveal_strlit("write");
    reveal_strlit("flush");
    reveal_strlit(" ");
    assert("open"@ + " "@ =~= "open "@);
    assert("create"@ + " "@ =~= "create "@);
    assert("read"@ + " "@ =~= "read "@);
    assert("write"@ + " "@ =~= "write "@);
    assert("flush"@ + " "@ =~= "flush "@);
    let now = s.run(replies);
    if now.phase is LastReport || now.phase is Finished {
        if let Ok(x) = now.result {
            assert(x == ());
        }
    }
}

/// The bytes that had been read before those that were read last.
pub open spec fn bytes_before_last(s: CopyView, replies: Seq<CopyReplyView>) -> nat
    decreases replies.len(),
{
    if replies.len() == 0 {
        0
    } else {
        match (s.run(replies.drop_last()).phase, replies.last()) {
            (CopyPhase::Reading, CopyReplyView::Bytes(Ok(n))) => bytes_read(
                s,
                replies.drop_last(),
            ),
            _ => bytes_before_last(s, replies.drop_last()),
        }
    }
}

#[verifier::rlimit(40)]
proof fn lemma_history(s: CopyView, replies: Seq<CopyReplyView>)
    requires
        s == CopyView::start(s.from, s.to, s.size),
    ensures
        ({
            let now = s.run(replies);
            &&& now.from == s.from
            &&& now.to == s.to
            &&& now.size == s.size
            &&& now.percent == (if now.copied == 0 {
                None
            } else {
                Some(percent_of(now.copied, s.size))
            })
            &&& now.phase matches CopyPhase::Writing(n) ==> n > 0 && bytes_before_last(s, replies)
                == now.copied
            &&& !(now.phase is Flushing || now.phase is LastReport || now.phase is Finished)
                ==> !reached_end(s, replies)
        }),
    decreases replies.len(),
{
    if replies.len() > 0 {
        lemma_history(s, replies.drop_last());
        lemma_counts(s, replies.drop_last());
    }
}

/// Copying an image of `size` bytes, step by step.
#[derive(Debug)]
pub struct ImageCopy {
    from: String,
    to: String,
    size: u64,
    phase: CopyPhase,
    copied: u64,
    percent: Option<u64>,
    result: Result<(), String>,
}

impl View for ImageCopy {
    type V = CopyView;

    closed spec fn view(&self) -> CopyView {
        CopyView {
            from: self.from@,
            to: self.to@,
            size: self.size as nat,
            phase: self.phase,
            copied: self.copied as nat,
            percent: match self.percent {
                Some(p) => Some(p as nat),
                None => None,
            },
            result: outcome_view(self.result),
        }
    }
}

impl ImageCopy {
    /// A copy that is about to begin.
    pub fn new(from: &str, to: &str, size: u64) -> (r: ImageCopy)
        ensures
            r@ == CopyView::start(from@, to@, size as nat),
            r@.wf(),
    {
        ImageCopy {
            from: from.to_owned(),
            to: to.to_owned(),
            size,
            phase: CopyPhase::Opening,
            copied: 0,
            percent: None,
            result: Ok(()),
        }
    }

    /// What is done next.
    pub fn request(&self) -> (r: CopyAction)
        requires
            self@.wf(),
        ensures
            r@ == self@.request(),
    {
        match self.phase {
            CopyPhase::Opening => CopyAction::Open,
            CopyPhase::Creating => CopyAction::Create,
            CopyPhase::FirstReport => CopyAction::Report(Ratio { done: 0, whole: 1 }),
            CopyPhase::Reading => CopyAction::Read,
            CopyPhase::Writing(_) => CopyAction::Write,
            CopyPhase::Reporting => {
                let whole: u64 = if self.size == 0 {
                    1
                } else {
                    self.size
                };
                CopyAction::Report(Ratio { done: self.copied, whole })
            },
            CopyPhase::Flushing => CopyAction::Flush,
            CopyPhase::LastReport => CopyAction::Report(Ratio { done: 1, whole: 1 }),
            CopyPhase::Finished => match &self.result {
                Ok(_) => CopyAction::Finish(Ok(())),
                Err(e) => CopyAction::Finish(Err(e.clone())),
            },
        }
    }

    /// Tells whether as many bytes can be counted as the reply tells of.
    pub fn can_count(&self, reply: &CopyReply) -> (r: bool)
        requires
            self@.wf(),
        ensures
            r == self@.can_count(reply@),
    {
        match (self.phase, reply) {
            (CopyPhase::Reading, CopyReply::Bytes(Ok(n))) => *n <= COUNT_LIMIT - self.copied,
            _ => true,
        }
    }

    fn fail(&mut self, verb: &str, what: &str, e: &str)
        ensures
            final(self)@ == old(self)@.failed(failure(verb@, what@, e@)),
    {
        self.phase = CopyPhase::Finished;
        self.result = Err(failure_text(verb, what, e));
    }

    fn count(&mut self, n: u64)
        requires
            old(self)@.wf(),
            old(self)@.copied + n <= COUNT_LIMIT,
        ensures
            final(self)@ == old(self)@.wrote(n as nat),
            final(self)@.wf(),
    {
        self.copied = self.copied + n;
        let whole: u64 = if self.size == 0 {
            1
        } else {
            self.size
        };
        let percent: u64 = self.copied * 100 / whole;
        let same = match self.percent {
            Some(p) => p == percent,
            None => false,
        };
        if same {
            self.phase = CopyPhase::Reading;
        } else {
            self.percent = Some(percent);
            self.phase = CopyPhase::Reporting;
        }
    }

    /// Goes on with what was done.
    pub fn answer(&mut self, reply: CopyReply)
        requires
            old(self)@.wf(),
            old(self)@.can_count(reply@),
        ensures
            final(self)@ == old(self)@.advance(reply@),
            final(self)@.wf(),
    {
        match (self.phase, reply) {
            (CopyPhase::Finished, _) => {},
            (CopyPhase::Opening, CopyReply::Outcome(r)) => match r {
                Ok(_) => {
                    self.phase = CopyPhase::Creating;
                },
                Err(e) => {
                    let from = self.from.clone();
                    self.fail("open", from.as_str(), e.as_str());
                },
            },
            (CopyPhase::Creating, CopyReply::Outcome(r)) => match r {
                Ok(_) => {
                    self.phase = CopyPhase::FirstReport;
                },
                Err(e) => {
                    let to = self.to.clone();
                    self.fail("create", to.as_str(), e.as_str());
                },
            },
            (CopyPhase::FirstReport, CopyReply::Shown) => {
                self.phase = CopyPhase::Reading;
            },
            (CopyPhase::Reading, CopyReply::Bytes(r)) => match r {
                Ok(n) => {
                    if n == 0 {
                        self.phase = CopyPhase::Flushing;
                    } else {
                        self.phase = CopyPhase::Writing(n);
                    }
                },
                Err(e) => {
                    let from = self.from.clone();
                    self.fail("read", from.as_str(), e.as_str());
                },
            },
            (CopyPhase::Writing(n), CopyReply::Outcome(r)) => match r {
                Ok(_) => {
                    self.count(n);
                },
                Err(e) => {
                    let to = self.to.clone();
                    self.fail("write", to.as_str(), e.as_str());
                },
            },
            (CopyPhase::Reporting, CopyReply::Shown) => {
                self.phase = CopyPhase::Reading;
            },
            (CopyPhase::Flushing, CopyReply::Outcome(r)) => match r {
                Ok(_) => {
                    self.phase = CopyPhase::LastReport;
                },
                Err(e) => {
                    let to = self.to.clone();
                    self.fail("flush", to.as_str(), e.as_str());
                },
            },
            (CopyPhase::LastReport, CopyReply::Shown) => {
                self.phase = CopyPhase::Finished;
            },
            _ => {
                self.phase = CopyPhase::Finished;
                self.result = Err("unexpected reply".to_owned());
            },
        }
    }
}

} // verus!
