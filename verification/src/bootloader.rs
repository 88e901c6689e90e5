//! Installing the EFI and BIOS boot loaders on a mounted boot partition.

use vstd::prelude::*;

use crate::effects::{
    entry_views, failure, failure_text, outcome_view, owned_view, stray_reply, Action, ActionView,
    Entry, EntryView, Reply, ReplyView,
};
use crate::path::{join_path, joined_path};
use crate::split::strings;
use crate::text::{ends_with, starts_with};

verus! {

/// Where an image keeps its boot loaders, relative to its root.
pub open spec fn image_loader_dir() -> Seq<char> {
    "usr/lib/genpack-install"@
}

/// Where the running system keeps boot loaders that were added locally.
pub open spec fn local_loader_dir() -> Seq<char> {
    "/usr/local/lib/genpack-install"@
}

/// Where the running system keeps boot loaders.
pub open spec fn system_loader_dir() -> Seq<char> {
    "/usr/lib/genpack-install"@
}

/// A file of that name is an EFI boot loader.
pub open spec fn is_efi_name(name: Seq<char>) -> bool {
    "boot"@.is_prefix_of(name) && ".efi"@.is_suffix_of(name)
}

/// The EFI boot loaders among the entries of a directory.
pub open spec fn efi_names(entries: Seq<EntryView>) -> Seq<Seq<char>> {
    entries.filter_map(
        |e: EntryView|
            if e.regular && is_efi_name(e.name) {
                Some(e.name)
            } else {
                None
            },
    )
}

/// The files that the BIOS boot loader consists of.
pub open spec fn bios_file(i: int) -> Seq<char> {
    if i == 0 {
        "boot.img"@
    } else if i == 1 {
        "core.img"@
    } else {
        "grub.cfg"@
    }
}

/// The file of the BIOS boot loader with number `i`.
fn bios_file_name(i: usize) -> (r: &'static str)
    ensures
        r@ == bios_file(i as int),
{
    if i == 0 {
        "boot.img"
    } else if i == 1 {
        "core.img"
    } else {
        "grub.cfg"
    }
}

/// How far the procedure is: what it waits to be told.
#[derive(Debug, Clone, Copy, PartialEq, Eq, Structural)]
pub enum LoaderPhase {
    /// Whether the image has boot loaders.
    ImageDir,
    /// Whether the running system has local boot loaders.
    LocalDir,
    /// Whether the running system has boot loaders.
    SystemDir,
    /// Whether the directory for EFI boot loaders could be created.
    EfiDir,
    /// What there is to install.
    Listing,
    /// Whether the EFI boot loader of that number could be copied.
    Efi(usize),
    /// Whether the BIOS boot loader has the file of that number.
    BiosFile(usize),
    /// Whether the BIOS boot loader can be set up.
    Grub,
    /// Whether the directory for the BIOS boot loader could be created.
    GrubDir,
    /// Whether the file of that number could be copied.
    BiosCopy(usize),
    /// Whether the BIOS boot loader could be set up.
    Setup,
    /// That the file of that number is gone again.
    Remove(usize),
    /// Nothing.
    Finished,
}

/// The contents of a `BootloaderSetup`.
#[verifier::ext_equal]
pub struct LoaderView {
    /// Where the image is mounted, if it is.
    pub image_root: Option<Seq<char>>,
    /// Where the boot partition is mounted.
    pub boot: Seq<char>,
    /// The disk to set up for BIOS, if it is to be.
    pub bios_disk: Option<Seq<char>>,
    /// Whether the system cannot start without these boot loaders.
    pub required: bool,
    pub phase: LoaderPhase,
    /// The directory that the boot loaders come from.
    pub source: Seq<char>,
    /// The EFI boot loaders to copy.
    pub names: Seq<Seq<char>>,
    /// The result, once finished.
    pub result: Result<(), Seq<char>>,
}

impl LoaderView {
    /// The procedure at its start.
    pub open spec fn start(
        image_root: Option<Seq<char>>,
        boot: Seq<char>,
        bios_disk: Option<Seq<char>>,
        required: bool,
    ) -> LoaderView {
        LoaderView {
            image_root,
            boot,
            bios_disk,
            required,
            phase: if image_root is Some {
                LoaderPhase::ImageDir
            } else {
                LoaderPhase::LocalDir
            },
            source: ""@,
            names: Seq::empty(),
            result: Ok(()),
        }
    }

    /// The numbers in the phase are those of files that there are.
    pub open spec fn wf(self) -> bool {
        &&& match self.phase {
            LoaderPhase::ImageDir => self.image_root is Some,
            LoaderPhase::Efi(i) => i < self.names.len() <= usize::MAX,
            LoaderPhase::BiosFile(i) => i < 3 && self.bios_disk is Some,
            LoaderPhase::BiosCopy(i) => i < 3 && self.bios_disk is Some,
            LoaderPhase::Grub | LoaderPhase::GrubDir | LoaderPhase::Setup => self.bios_disk is Some,
            LoaderPhase::Remove(i) => i < 2 && self.bios_disk is Some,
            _ => true,
        }
    }

    /// The directory for EFI boot loaders.
    pub open spec fn efi_dir(self) -> Seq<char> {
        joined_path(self.boot, "efi/boot"@)
    }

    /// The directory for the BIOS boot loader.
    pub open spec fn grub_dir(self) -> Seq<char> {
        joined_path(self.boot, "boot/grub"@)
    }

    /// What is to be done next.
    pub open spec fn request(self) -> ActionView {
        match self.phase {
            LoaderPhase::ImageDir => ActionView::IsDirectory(
                joined_path(self.image_root->0, image_loader_dir()),
            ),
            LoaderPhase::LocalDir => ActionView::IsDirectory(local_loader_dir()),
            LoaderPhase::SystemDir => ActionView::IsDirectory(system_loader_dir()),
            LoaderPhase::EfiDir => ActionView::CreateDir(self.efi_dir()),
            LoaderPhase::Listing => ActionView::ListDir(self.source),
            LoaderPhase::Efi(i) => ActionView::CopyFile {
                from: joined_path(self.source, self.names[i as int]),
                to: joined_path(self.efi_dir(), self.names[i as int]),
            },
            LoaderPhase::BiosFile(i) => ActionView::Exists(
                joined_path(self.source, bios_file(i as int)),
            ),
            LoaderPhase::Grub => ActionView::ProbeGrub,
            LoaderPhase::GrubDir => ActionView::CreateDir(self.grub_dir()),
            LoaderPhase::BiosCopy(i) => ActionView::CopyFile {
                from: joined_path(self.source, bios_file(i as int)),
                to: joined_path(self.grub_dir(), bios_file(i as int)),
            },
            LoaderPhase::Setup => ActionView::Run(
                "grub-bios-setup"@,
                seq!["-d"@, self.grub_dir(), self.bios_disk->0],
            ),
            LoaderPhase::Remove(i) => ActionView::RemoveFile(
                joined_path(self.grub_dir(), bios_file(i as int)),
            ),
            LoaderPhase::Finished => ActionView::Finish(self.result),
        }
    }

    /// The procedure in another phase.
    pub open spec fn at(self, phase: LoaderPhase) -> LoaderView {
        LoaderView { phase, ..self }
    }

    /// The procedure finished with `result`.
    pub open spec fn finished(self, result: Result<(), Seq<char>>) -> LoaderView {
        LoaderView { phase: LoaderPhase::Finished, result, ..self }
    }

    /// The procedure failed with an error that came of doing `verb` on `what`.
    pub open spec fn failed(self, verb: Seq<char>, what: Seq<char>, e: Seq<char>) -> LoaderView {
        self.finished(Err(failure(verb, what, e)))
    }

    /// The procedure with the directory that the boot loaders come from.
    pub open spec fn taking_from(self, source: Seq<char>) -> LoaderView {
        LoaderView { source, phase: LoaderPhase::EfiDir, ..self }
    }

    /// The procedure before the EFI boot loader of number `i`; past the last one, it goes
    /// on with the BIOS boot loader.
    pub open spec fn before_efi(self, i: int) -> LoaderView {
        if i < self.names.len() {
            self.at(LoaderPhase::Efi(i as usize))
        } else if self.required && self.names.len() == 0 {
            self.finished(Err("no boot*.efi found under "@ + self.source))
        } else if self.bios_disk is Some {
            self.at(LoaderPhase::BiosFile(0))
        } else {
            self.finished(Ok(()))
        }
    }

    /// The procedure after the reply to what it asked for.
    pub open spec fn advance(self, reply: ReplyView) -> LoaderView {
        match (self.phase, reply) {
            (LoaderPhase::ImageDir, ReplyView::Answer(yes)) => if yes {
                self.taking_from(joined_path(self.image_root->0, image_loader_dir()))
            } else {
                self.at(LoaderPhase::LocalDir)
            },
            (LoaderPhase::LocalDir, ReplyView::Answer(yes)) => if yes {
                self.taking_from(local_loader_dir())
            } else {
                self.at(LoaderPhase::SystemDir)
            },
            (LoaderPhase::SystemDir, ReplyView::Answer(yes)) => if yes {
                self.taking_from(system_loader_dir())
            } else if self.required {
                self.finished(
                    Err(
                        "no bootloader files found (neither in image nor /usr/lib/genpack-install)"@,
                    ),
                )
            } else {
                self.finished(Ok(()))
            },
            (LoaderPhase::EfiDir, ReplyView::Outcome(r)) => match r {
                Ok(_) => self.at(LoaderPhase::Listing),
                Err(e) => self.failed("create"@, self.efi_dir(), e),
            },
            (LoaderPhase::Listing, ReplyView::Entries(r)) => match r {
                Ok(entries) => LoaderView { names: efi_names(entries), ..self }.before_efi(0),
                Err(e) => self.failed("read"@, self.source, e),
            },
            (LoaderPhase::Efi(i), ReplyView::Outcome(r)) => match r {
                Ok(_) => self.before_efi(i + 1),
                Err(e) => self.failed("copy"@, self.names[i as int], e),
            },
            (LoaderPhase::BiosFile(i), ReplyView::Answer(yes)) => if !yes {
                self.finished(Ok(()))
            } else if i < 2 {
                self.at(LoaderPhase::BiosFile((i + 1) as usize))
            } else {
                self.at(LoaderPhase::Grub)
            },
            (LoaderPhase::Grub, ReplyView::Answer(yes)) => if yes {
                self.at(LoaderPhase::GrubDir)
            } else {
                self.finished(Ok(()))
            },
            (LoaderPhase::GrubDir, ReplyView::Outcome(r)) => match r {
                Ok(_) => self.at(LoaderPhase::BiosCopy(0)),
                Err(e) => self.failed("create"@, self.grub_dir(), e),
            },
            (LoaderPhase::BiosCopy(i), ReplyView::Outcome(r)) => match r {
                Ok(_) => if i < 2 {
                    self.at(LoaderPhase::BiosCopy((i + 1) as usize))
                } else {
                    self.at(LoaderPhase::Setup)
                },
                Err(e) => self.failed("copy"@, bios_file(i as int), e),
            },
            (LoaderPhase::Setup, ReplyView::Outcome(r)) => match r {
                Ok(_) => self.at(LoaderPhase::Remove(0)),
                Err(e) => self.finished(Err(e)),
            },
            (LoaderPhase::Remove(i), _) => if i < 1 {
                self.at(LoaderPhase::Remove(1))
            } else {
                self.finished(Ok(()))
            },
            (LoaderPhase::Finished, _) => self,
            _ => self.finished(Err(stray_reply())),
        }
    }
}

impl LoaderView {
    /// The procedure after a sequence of replies.
    pub open spec fn run(self, replies: Seq<ReplyView>) -> LoaderView
        decreases replies.len(),
    {
        if replies.len() == 0 {
            self
        } else {
            self.run(replies.drop_last()).advance(replies.last())
        }
    }

    /// With the reply of number `k`, an EFI boot loader was copied to the boot partition.
    pub open spec fn copied_efi(self, replies: Seq<ReplyView>, k: int) -> bool {
        let s = self.run(replies.take(k));
        &&& 0 <= k < replies.len()
        &&& replies[k] matches ReplyView::Outcome(r) && r is Ok
        &&& s.phase is Efi
        &&& s.request() matches ActionView::CopyFile { from, to } && exists|name: Seq<char>| #[trigger]
            is_efi_name(name) && to == joined_path(self.efi_dir(), name)
    }
}

proof fn lemma_efi_names(entries: Seq<EntryView>, i: int)
    requires
        0 <= i < efi_names(entries).len(),
    ensures
        is_efi_name(efi_names(entries)[i]),
    decreases entries.len(),
{
    reveal(Seq::filter_map);
    if entries.len() > 0 {
        let less = entries.drop_last();
        if i < efi_names(less).len() {
            lemma_efi_names(less, i);
        }
    }
}

/// What stays the same throughout the procedure, and what it knows of the copies made.
proof fn lemma_run(s: LoaderView, replies: Seq<ReplyView>)
    requires
        s.wf(),
        s.phase is ImageDir || s.phase is LocalDir,
        s.result is Ok,
        s.names.len() == 0,
    ensures
        ({
            let t = s.run(replies);
            &&& t.boot == s.boot
            &&& t.bios_disk == s.bios_disk
            &&& t.required == s.required
            &&& forall|i: int| 0 <= i < t.names.len() ==> is_efi_name(#[trigger] t.names[i])
            &&& match t.phase {
                LoaderPhase::ImageDir
                | LoaderPhase::LocalDir
                | LoaderPhase::SystemDir
                | LoaderPhase::EfiDir
                | LoaderPhase::Listing => t.names.len() == 0,
                LoaderPhase::Efi(i) => i < t.names.len() && (i > 0 ==> exists|k: int| #[trigger]
                    s.copied_efi(replies, k)),
                LoaderPhase::Finished => t.result is Ok && t.required ==> exists|k: int| #[trigger]
                    s.copied_efi(replies, k),
                _ => t.bios_disk is Some && (t.required ==> exists|k: int| #[trigger]
                    s.copied_efi(replies, k)),
            }
        }),
    decreases replies.len(),
{
    if replies.len() > 0 {
        let less = replies.drop_last();
        let reply = replies.last();
        lemma_run(s, less);
        let u = s.run(less);
        let n = less.len() as int;
        assert(replies.take(n) =~= less);
        assert forall|k: int| #[trigger] s.copied_efi(less, k) implies s.copied_efi(replies, k) by {
            assert(less.take(k) =~= replies.take(k));
        }
        if exists|k: int| #[trigger] s.copied_efi(less, k) {
            let k = choose|k: int| #[trigger] s.copied_efi(less, k);
            assert(s.copied_efi(replies, k));
        }
        match (u.phase, reply) {
            (LoaderPhase::Listing, ReplyView::Entries(Ok(entries))) => {
                assert forall|i: int| 0 <= i < efi_names(entries).len() implies is_efi_name(
                    #[trigger] efi_names(entries)[i],
                ) by {
                    lemma_efi_names(entries, i);
                }
            },
            (LoaderPhase::Efi(i), ReplyView::Outcome(Ok(_))) => {
                assert(is_efi_name(u.names[i as int]));
                assert(s.copied_efi(replies, n));
            },
            _ => {},
        }
    }
}

/// Where the system cannot start without these boot loaders, the procedure succeeds only
/// after it has copied an EFI boot loader to the boot partition.
pub proof fn law_success_means_bootable(
    image_root: Option<Seq<char>>,
    boot: Seq<char>,
    bios_disk: Option<Seq<char>>,
    replies: Seq<ReplyView>,
)
    requires
        ({
            let t = LoaderView::start(image_root, boot, bios_disk, true).run(replies);
            t.phase is Finished && t.result is Ok
        }),
    ensures
        exists|k: int| #[trigger]
            LoaderView::start(image_root, boot, bios_disk, true).copied_efi(replies, k),
{
    lemma_run(LoaderView::start(image_root, boot, bios_disk, true), replies);
}

/// Without a disk to set up for BIOS, nothing is run.
pub proof fn law_nothing_is_run_without_bios_disk(
    image_root: Option<Seq<char>>,
    boot: Seq<char>,
    required: bool,
    replies: Seq<ReplyView>,
)
    ensures
        LoaderView::start(image_root, boot, None, required).run(replies).request() !is Run,
{
    lemma_run(LoaderView::start(image_root, boot, None, required), replies);
}

/// The procedure that installs the boot loaders.
///
/// They come from the image, else from the running system. All EFI boot loaders are
/// copied. The BIOS boot loader is set up where there is a disk to set it up on, its files
/// are there and `grub-bios-setup` can be run.
#[derive(Debug)]
pub struct BootloaderSetup {
    image_root: Option<String>,
    boot: String,
    bios_disk: Option<String>,
    required: bool,
    phase: LoaderPhase,
    source: String,
    names: Vec<String>,
    result: Result<(), String>,
}

impl View for BootloaderSetup {
    type V = LoaderView;

    closed spec fn view(&self) -> LoaderView {
        LoaderView {
            image_root: owned_view(self.image_root),
            boot: self.boot@,
            bios_disk: owned_view(self.bios_disk),
            required: self.required,
            phase: self.phase,
            source: self.source@,
            names: strings(self.names@),
            result: outcome_view(self.result),
        }
    }
}

/// Picks the EFI boot loaders out of the entries of a directory.
pub fn select_efi_names(entries: &Vec<Entry>) -> (r: Vec<String>)
    ensures
        strings(r@) == efi_names(entry_views(entries@)),
{
    let mut out: Vec<String> = Vec::new();
    let ghost all = entry_views(entries@);
    let ghost pick = |e: EntryView|
        if e.regular && is_efi_name(e.name) {
            Some(e.name)
        } else {
            None
        };
    let mut i: usize = 0;
    assert(all.take(0).filter_map(pick) =~= Seq::empty()) by {
        reveal(Seq::filter_map);
    }
    while i < entries.len()
        invariant
            i <= entries@.len(),
            all == entry_views(entries@),
            pick == (|e: EntryView|
                if e.regular && is_efi_name(e.name) {
                    Some(e.name)
                } else {
                    None
                }),
            strings(out@) == all.take(i as int).filter_map(pick),
        decreases entries@.len() - i,
    {
        let ghost was = out@;
        assert(all[i as int] == entries@[i as int]@);
        proof {
            all.lemma_filter_map_take_succ(pick, i as int);
        }
        let name = &entries[i].name;
        if entries[i].regular && starts_with(name.as_str(), "boot") && ends_with(
            name.as_str(),
            ".efi",
        ) {
            out.push(name.clone());
            assert(strings(out@) =~= strings(was).push(name@));
        }
        i = i + 1;
    }
    assert(all.take(i as int) =~= all);
    out
}

impl BootloaderSetup {
    /// Starts the procedure.
    pub fn new(
        image_root: Option<String>,
        boot: String,
        bios_disk: Option<String>,
        required: bool,
    ) -> (r: BootloaderSetup)
        ensures
            r@ == LoaderView::start(owned_view(image_root), boot@, owned_view(bios_disk), required),
            r@.wf(),
    {
        let phase = if image_root.is_some() {
            LoaderPhase::ImageDir
        } else {
            LoaderPhase::LocalDir
        };
        let r = BootloaderSetup {
            image_root,
            boot,
            bios_disk,
            required,
            phase,
            source: "".to_owned(),
            names: Vec::new(),
            result: Ok(()),
        };
        assert(strings(r.names@) =~= Seq::empty());
        r
    }

    fn efi_dir(&self) -> (r: String)
        ensures
            r@ == self@.efi_dir(),
    {
        join_path(self.boot.as_str(), "efi/boot")
    }

    fn grub_dir(&self) -> (r: String)
        ensures
            r@ == self@.grub_dir(),
    {
        join_path(self.boot.as_str(), "boot/grub")
    }

    fn root(&self) -> (r: &str)
        requires
            self@.image_root is Some,
        ensures
            r@ == self@.image_root->0,
    {
        match &self.image_root {
            Some(t) => t.as_str(),
            None => "",
        }
    }

    fn disk(&self) -> (r: &str)
        requires
            self@.bios_disk is Some,
        ensures
            r@ == self@.bios_disk->0,
    {
        match &self.bios_disk {
            Some(t) => t.as_str(),
            None => "",
        }
    }

    /// Says what is to be done next.
    pub fn request(&self) -> (r: Action)
        requires
            self@.wf(),
        ensures
            r@ == self@.request(),
    {
        match self.phase {
            LoaderPhase::ImageDir => Action::IsDirectory(
                join_path(self.root(), "usr/lib/genpack-install"),
            ),
            LoaderPhase::LocalDir => Action::IsDirectory(
                "/usr/local/lib/genpack-install".to_owned(),
            ),
            LoaderPhase::SystemDir => Action::IsDirectory("/usr/lib/genpack-install".to_owned()),
            LoaderPhase::EfiDir => Action::CreateDir(self.efi_dir()),
            LoaderPhase::Listing => Action::ListDir(self.source.clone()),
            LoaderPhase::Efi(i) => {
                let name = self.names[i].as_str();
                assert(strings(self.names@)[i as int] == name@);
                Action::CopyFile {
                    from: join_path(self.source.as_str(), name),
                    to: join_path(self.efi_dir().as_str(), name),
                }
            },
            LoaderPhase::BiosFile(i) => Action::Exists(
                join_path(self.source.as_str(), bios_file_name(i)),
            ),
            LoaderPhase::Grub => Action::ProbeGrub,
            LoaderPhase::GrubDir => Action::CreateDir(self.grub_dir()),
            LoaderPhase::BiosCopy(i) => Action::CopyFile {
                from: join_path(self.source.as_str(), bios_file_name(i)),
                to: join_path(self.grub_dir().as_str(), bios_file_name(i)),
            },
            LoaderPhase::Setup => {
                let args: Vec<String> = vec![
                    "-d".to_owned(),
                    self.grub_dir(),
                    self.disk().to_owned(),
                ];
                assert(strings(args@) =~= seq!["-d"@, self@.grub_dir(), self@.bios_disk->0]);
                Action::Run("grub-bios-setup", args)
            },
            LoaderPhase::Remove(i) => Action::RemoveFile(
                join_path(self.grub_dir().as_str(), bios_file_name(i)),
            ),
            LoaderPhase::Finished => Action::Finish(
                match &self.result {
                    Ok(_) => Ok(()),
                    Err(e) => Err(e.clone()),
                },
            ),
        }
    }

    fn finish(&mut self, result: Result<(), String>)
        ensures
            final(self)@ == old(self)@.finished(outcome_view(result)),
    {
        self.phase = LoaderPhase::Finished;
        self.result = result;
    }

    fn fail(&mut self, verb: &str, what: &str, e: &str)
        ensures
            final(self)@ == old(self)@.failed(verb@, what@, e@),
    {
        self.finish(Err(failure_text(verb, what, e)));
    }

    fn take_from(&mut self, source: String)
        ensures
            final(self)@ == old(self)@.taking_from(source@),
    {
        self.source = source;
        self.phase = LoaderPhase::EfiDir;
    }

    fn go_on_at_efi(&mut self, i: usize)
        requires
            i <= old(self)@.names.len() <= usize::MAX,
        ensures
            final(self)@ == old(self)@.before_efi(i as int),
            final(self)@.wf(),
    {
        if i < self.names.len() {
            self.phase = LoaderPhase::Efi(i);
        } else if self.required && self.names.len() == 0 {
            let mut text = "no boot*.efi found under ".to_owned();
            text.append(self.source.as_str());
            self.finish(Err(text));
        } else if self.bios_disk.is_some() {
            self.phase = LoaderPhase::BiosFile(0);
        } else {
            self.finish(Ok(()));
        }
    }

    /// Takes the reply to what was asked for.
    pub fn answer(&mut self, reply: Reply)
        requires
            old(self)@.wf(),
        ensures
            final(self)@ == old(self)@.advance(reply@),
            final(self)@.wf(),
    {
        match (self.phase, reply) {
            (LoaderPhase::ImageDir, Reply::Answer(yes)) => {
                if yes {
                    let source = join_path(self.root(), "usr/lib/genpack-install");
                    self.take_from(source);
                } else {
                    self.phase = LoaderPhase::LocalDir;
                }
            },
            (LoaderPhase::LocalDir, Reply::Answer(yes)) => {
                if yes {
                    self.take_from("/usr/local/lib/genpack-install".to_owned());
                } else {
                    self.phase = LoaderPhase::SystemDir;
                }
            },
            (LoaderPhase::SystemDir, Reply::Answer(yes)) => {
                if yes {
                    self.take_from("/usr/lib/genpack-install".to_owned());
                } else if self.required {
                    self.finish(
                        Err(
                            "no bootloader files found (neither in image nor /usr/lib/genpack-install)".to_owned(),
                        ),
                    );
                } else {
                    self.finish(Ok(()));
                }
            },
            (LoaderPhase::EfiDir, Reply::Outcome(r)) => {
                match r {
                    Ok(_) => {
                        self.phase = LoaderPhase::Listing;
                    },
                    Err(e) => {
                        let dir = self.efi_dir();
                        self.fail("create", dir.as_str(), e.as_str());
                    },
                }
            },
            (LoaderPhase::Listing, Reply::Entries(r)) => {
                match r {
                    Ok(entries) => {
                        self.names = select_efi_names(&entries);
                        let n: usize = self.names.len();
                        assert(n == self@.names.len());
                        self.go_on_at_efi(0);
                    },
                    Err(e) => {
                        let dir = self.source.clone();
                        self.fail("read", dir.as_str(), e.as_str());
                    },
                }
            },
            (LoaderPhase::Efi(i), Reply::Outcome(r)) => {
                match r {
                    Ok(_) => {
                        self.go_on_at_efi(i + 1);
                    },
                    Err(e) => {
                        let name = self.names[i].clone();
                        assert(strings(self.names@)[i as int] == name@);
                        self.fail("copy", name.as_str(), e.as_str());
                    },
                }
            },
            (LoaderPhase::BiosFile(i), Reply::Answer(yes)) => {
                if !yes {
                    self.finish(Ok(()));
                } else if i < 2 {
                    self.phase = LoaderPhase::BiosFile(i + 1);
                } else {
                    self.phase = LoaderPhase::Grub;
                }
            },
            (LoaderPhase::Grub, Reply::Answer(yes)) => {
                if yes {
                    self.phase = LoaderPhase::GrubDir;
                } else {
                    self.finish(Ok(()));
                }
            },
            (LoaderPhase::GrubDir, Reply::Outcome(r)) => {
                match r {
                    Ok(_) => {
                        self.phase = LoaderPhase::BiosCopy(0);
                    },
                    Err(e) => {
                        let dir = self.grub_dir();
                        self.fail("create", dir.as_str(), e.as_str());
                    },
                }
            },
            (LoaderPhase::BiosCopy(i), Reply::Outcome(r)) => {
                match r {
                    Ok(_) => {
                        if i < 2 {
                            self.phase = LoaderPhase::BiosCopy(i + 1);
                        } else {
                            self.phase = LoaderPhase::Setup;
                        }
                    },
                    Err(e) => {
                        self.fail("copy", bios_file_name(i), e.as_str());
                    },
                }
            },
            (LoaderPhase::Setup, Reply::Outcome(r)) => {
                match r {
                    Ok(_) => {
                        self.phase = LoaderPhase::Remove(0);
                    },
                    Err(e) => {
                        self.finish(Err(e));
                    },
                }
            },
            (LoaderPhase::Remove(i), _) => {
                if i < 1 {
                    self.phase = LoaderPhase::Remove(1);
                } else {
                    self.finish(Ok(()));
                }
            },
            (LoaderPhase::Finished, _) => {},
            _ => {
                self.finish(Err("unexpected reply".to_owned()));
            },
        }
    }

    /// The result, once the procedure is finished.
    pub fn outcome(&self) -> (r: Option<Result<(), String>>)
        ensures
            r is Some <==> self@.phase == LoaderPhase::Finished,
            r matches Some(o) ==> outcome_view(o) == self@.result,
    {
        match self.phase {
            LoaderPhase::Finished => Some(
                match &self.result {
                    Ok(_) => Ok(()),
                    Err(e) => Err(e.clone()),
                },
            ),
            _ => None,
        }
    }
}

} // verus!
