//! What an installation asks of the outside world, and what it is told.
//!
//! The procedures of this crate do nothing themselves. Each says, as an [`Action`], what is
//! to be done next, and is told the outcome as a [`Reply`].

use vstd::prelude::*;

use crate::backend::{Progress, ProgressView};
use crate::split::strings;

verus! {

/// What a directory entry is, where links are not followed.
#[derive(Debug, Clone, Copy, PartialEq, Eq, Structural)]
pub enum EntryKind {
    File,
    Directory,
    Other,
}

/// An entry of a directory.
#[derive(Debug)]
pub struct Entry {
    /// Name in the directory.
    pub name: String,
    /// What the entry is, a link being a link.
    pub kind: EntryKind,
    /// Whether the entry is a regular file, or a link to one.
    pub regular: bool,
}

/// The contents of an `Entry`.
pub struct EntryView {
    pub name: Seq<char>,
    pub kind: EntryKind,
    pub regular: bool,
}

impl View for Entry {
    type V = EntryView;

    open spec fn view(&self) -> EntryView {
        EntryView { name: self.name@, kind: self.kind, regular: self.regular }
    }
}

/// The contents of a list of entries.
pub open spec fn entry_views(v: Seq<Entry>) -> Seq<EntryView> {
    v.map_values(|e: Entry| e@)
}

/// Something to be done, and the reply that it is answered with.
#[derive(Debug)]
pub enum Action {
    /// Show a report. Answered with `Done`.
    Report(Progress<'static>),
    /// Tell the size of a file. Answered with `Size`.
    FileSize(String),
    /// Read the first four bytes of a file. Answered with `Head`.
    ReadHead(String),
    /// Tell whether a path exists. Answered with `Answer`.
    Exists(String),
    /// Tell whether a path is a directory. Answered with `Answer`.
    IsDirectory(String),
    /// Tell whether `grub-bios-setup` can be run. Answered with `Answer`.
    ProbeGrub,
    /// Wait for some milliseconds. Answered with `Done`.
    Sleep(u64),
    /// Read the size and the logical block size of the disk of that name. Answered with
    /// `Attributes`.
    DiskAttributes(String),
    /// Run a program with its arguments. Answered with `Outcome`.
    Run(&'static str, Vec<String>),
    /// Tell the UUID of the file system on a device. Answered with `Text`.
    ReadUuid(String),
    /// Mount `source` on a new directory and tell its path. Answered with `Text`.
    Mount {
        source: String,
        fstype: Option<&'static str>,
        options: Vec<&'static str>,
        looped: bool,
    },
    /// Unmount a directory and remove it. Answered with `Done`.
    Unmount(String),
    /// Create a directory and those above it. Answered with `Outcome`.
    CreateDir(String),
    /// List a directory. Answered with `Entries`.
    ListDir(String),
    /// Copy a file. Answered with `Outcome`.
    CopyFile { from: String, to: String },
    /// Copy the system image of `size` bytes, showing how far it is. Answered with
    /// `Outcome`.
    CopyImage { from: String, to: String, size: u64 },
    /// Read a text file. Answered with `Text`.
    ReadText(String),
    /// Write a text file. Answered with `Outcome`.
    WriteText { path: String, text: String },
    /// Remove a file, if that can be done. Answered with `Done`.
    RemoveFile(String),
    /// Nothing more is to be done: this is the result.
    Finish(Result<(), String>),
}

/// The contents of an `Action`.
#[verifier::ext_equal]
pub enum ActionView {
    Report(ProgressView),
    FileSize(Seq<char>),
    ReadHead(Seq<char>),
    Exists(Seq<char>),
    IsDirectory(Seq<char>),
    ProbeGrub,
    Sleep(u64),
    DiskAttributes(Seq<char>),
    Run(Seq<char>, Seq<Seq<char>>),
    ReadUuid(Seq<char>),
    Mount {
        source: Seq<char>,
        fstype: Option<Seq<char>>,
        options: Seq<Seq<char>>,
        looped: bool,
    },
    Unmount(Seq<char>),
    CreateDir(Seq<char>),
    ListDir(Seq<char>),
    CopyFile { from: Seq<char>, to: Seq<char> },
    CopyImage { from: Seq<char>, to: Seq<char>, size: u64 },
    ReadText(Seq<char>),
    WriteText { path: Seq<char>, text: Seq<char> },
    RemoveFile(Seq<char>),
    Finish(Result<(), Seq<char>>),
}

/// The contents of an optional text.
pub open spec fn option_view(o: Option<&str>) -> Option<Seq<char>> {
    match o {
        Some(t) => Some(t@),
        None => None,
    }
}

/// The contents of an optional owned text.
pub open spec fn owned_view(o: Option<String>) -> Option<Seq<char>> {
    match o {
        Some(t) => Some(t@),
        None => None,
    }
}

/// The contents of a result without a value.
pub open spec fn outcome_view(r: Result<(), String>) -> Result<(), Seq<char>> {
    match r {
        Ok(_) => Ok(()),
        Err(e) => Err(e@),
    }
}

/// The contents of a result with a text.
pub open spec fn text_view(r: Result<String, String>) -> Result<Seq<char>, Seq<char>> {
    match r {
        Ok(t) => Ok(t@),
        Err(e) => Err(e@),
    }
}

impl View for Action {
    type V = ActionView;

    open spec fn view(&self) -> ActionView {
        match *self {
            Action::Report(p) => ActionView::Report(p@),
            Action::FileSize(p) => ActionView::FileSize(p@),
            Action::ReadHead(p) => ActionView::ReadHead(p@),
            Action::Exists(p) => ActionView::Exists(p@),
            Action::IsDirectory(p) => ActionView::IsDirectory(p@),
            Action::ProbeGrub => ActionView::ProbeGrub,
            Action::Sleep(ms) => ActionView::Sleep(ms),
            Action::DiskAttributes(n) => ActionView::DiskAttributes(n@),
            Action::Run(program, args) => ActionView::Run(program@, strings(args@)),
            Action::ReadUuid(p) => ActionView::ReadUuid(p@),
            Action::Mount { source, fstype, options, looped } => ActionView::Mount {
                source: source@,
                fstype: option_view(fstype),
                options: crate::split::texts(options@),
                looped,
            },
            Action::Unmount(p) => ActionView::Unmount(p@),
            Action::CreateDir(p) => ActionView::CreateDir(p@),
            Action::ListDir(p) => ActionView::ListDir(p@),
            Action::CopyFile { from, to } => ActionView::CopyFile { from: from@, to: to@ },
            Action::CopyImage { from, to, size } => ActionView::CopyImage {
                from: from@,
                to: to@,
                size,
            },
            Action::ReadText(p) => ActionView::ReadText(p@),
            Action::WriteText { path, text } => ActionView::WriteText { path: path@, text: text@ },
            Action::RemoveFile(p) => ActionView::RemoveFile(p@),
            Action::Finish(r) => ActionView::Finish(outcome_view(r)),
        }
    }
}

/// What came of an action.
#[derive(Debug)]
pub enum Reply {
    /// It is done.
    Done,
    /// A size, or the error that kept it from being told.
    Size(Result<u64, String>),
    /// The bytes read, if they could be.
    Head(Option<Vec<u8>>),
    /// Yes or no.
    Answer(bool),
    /// The texts of the two attributes of a disk, as far as they could be read.
    Attributes(Option<String>, Option<String>),
    /// Success, or the error.
    Outcome(Result<(), String>),
    /// A text, or the error.
    Text(Result<String, String>),
    /// The entries of a directory, or the error.
    Entries(Result<Vec<Entry>, String>),
}

/// The contents of a `Reply`.
#[verifier::ext_equal]
pub enum ReplyView {
    Done,
    Size(Result<u64, Seq<char>>),
    Head(Option<Seq<u8>>),
    Answer(bool),
    Attributes(Option<Seq<char>>, Option<Seq<char>>),
    Outcome(Result<(), Seq<char>>),
    Text(Result<Seq<char>, Seq<char>>),
    Entries(Result<Seq<EntryView>, Seq<char>>),
}

impl View for Reply {
    type V = ReplyView;

    open spec fn view(&self) -> ReplyView {
        match *self {
            Reply::Done => ReplyView::Done,
            Reply::Size(r) => ReplyView::Size(
                match r {
                    Ok(n) => Ok(n),
                    Err(e) => Err(e@),
                },
            ),
            Reply::Head(h) => ReplyView::Head(
                match h {
                    Some(b) => Some(b@),
                    None => None,
                },
            ),
            Reply::Answer(b) => ReplyView::Answer(b),
            Reply::Attributes(a, b) => ReplyView::Attributes(owned_view(a), owned_view(b)),
            Reply::Outcome(r) => ReplyView::Outcome(outcome_view(r)),
            Reply::Text(r) => ReplyView::Text(text_view(r)),
            Reply::Entries(r) => ReplyView::Entries(
                match r {
                    Ok(v) => Ok(entry_views(v@)),
                    Err(e) => Err(e@),
                },
            ),
        }
    }
}

/// The message of an error `e` that came of doing `verb` on `what`.
pub open spec fn failure(verb: Seq<char>, what: Seq<char>, e: Seq<char>) -> Seq<char> {
    verb + " "@ + what + ": "@ + e
}

/// The message of an error `e` that came of doing `verb` on `what`.
pub fn failure_text(verb: &str, what: &str, e: &str) -> (r: String)
    ensures
        r@ == failure(verb@, what@, e@),
{
    let mut out = verb.to_owned();
    out.append(" ");
    out.append(what);
    out.append(": ");
    out.append(e);
    out
}

/// The message for a reply that does not belong to the action.
pub open spec fn stray_reply() -> Seq<char> {
    "unexpected reply"@
}

} // verus!
