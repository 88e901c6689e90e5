//! What is chosen and shown while an installation is prepared and carried out.

use vstd::prelude::*;

use crate::backend::{
    fits_fat32, human_size, readable_size, size_tenths, DiskInfo, DiskView, ImageMetadata, ImageView, InstallOptions,
    OptionsView, Progress, ProgressView, Ratio, SystemInfo, SystemView,
};
use crate::disks::disk_views;
use crate::effects::{outcome_view, owned_view};
use crate::images::image_views;
use crate::number::{decimal, decimal_text, lemma_decimal};
use crate::settings_laws::is_one_line;
use crate::split::lines;
use crate::text::is_digit;
use crate::text_laws::law_lines_come_apart;

verus! {

/// How a disk is shown.
#[derive(Debug)]
pub struct DiskRow {
    pub path: String,
    pub model: String,
    pub size: String,
    pub removable: bool,
}

/// The contents of a `DiskRow`.
#[verifier::ext_equal]
pub struct DiskRowView {
    pub path: Seq<char>,
    pub model: Seq<char>,
    pub size: Seq<char>,
    pub removable: bool,
}

impl View for DiskRow {
    type V = DiskRowView;

    open spec fn view(&self) -> DiskRowView {
        DiskRowView {
            path: self.path@,
            model: self.model@,
            size: self.size@,
            removable: self.removable,
        }
    }
}

/// How a disk is shown: its size in words.
pub open spec fn disk_row(d: DiskView) -> DiskRowView {
    DiskRowView {
        path: d.path,
        model: d.model,
        size: readable_size(d.size as nat),
        removable: d.removable,
    }
}

/// How an image is shown.
#[derive(Debug)]
pub struct ImageRow {
    pub path: String,
    pub filename: String,
    pub size: String,
    pub arch: String,
    pub artifact: String,
    pub banner: String,
    pub version: String,
    pub arch_match: bool,
    pub superfloppy_available: bool,
}

/// The contents of an `ImageRow`.
#[verifier::ext_equal]
pub struct ImageRowView {
    pub path: Seq<char>,
    pub filename: Seq<char>,
    pub size: Seq<char>,
    pub arch: Seq<char>,
    pub artifact: Seq<char>,
    pub banner: Seq<char>,
    pub version: Seq<char>,
    pub arch_match: bool,
    pub superfloppy_available: bool,
}

impl View for ImageRow {
    type V = ImageRowView;

    open spec fn view(&self) -> ImageRowView {
        ImageRowView {
            path: self.path@,
            filename: self.filename@,
            size: self.size@,
            arch: self.arch@,
            artifact: self.artifact@,
            banner: self.banner@,
            version: self.version@,
            arch_match: self.arch_match,
            superfloppy_available: self.superfloppy_available,
        }
    }
}

/// How an image is shown: its size in words, and whether a disk can be formatted as a whole
/// for it.
pub open spec fn image_row(m: ImageView) -> ImageRowView {
    ImageRowView {
        path: m.path,
        filename: m.filename,
        size: readable_size(m.size as nat),
        arch: m.arch,
        artifact: m.artifact,
        banner: m.banner,
        version: m.version,
        arch_match: m.arch_match,
        superfloppy_available: fits_fat32(m.size as nat),
    }
}

/// What was entered for an installation.
#[derive(Debug)]
pub struct Form {
    pub superfloppy: bool,
    pub timezone: String,
    pub locale: String,
    pub hostname: String,
    /// Whether the keys become part of the options.
    pub install_ssh_key: bool,
    /// The keys.
    pub ssh_pubkey: String,
}

/// The contents of a `Form`.
#[verifier::ext_equal]
pub struct FormView {
    pub superfloppy: bool,
    pub timezone: Seq<char>,
    pub locale: Seq<char>,
    pub hostname: Seq<char>,
    pub install_ssh_key: bool,
    pub ssh_pubkey: Seq<char>,
}

impl View for Form {
    type V = FormView;

    open spec fn view(&self) -> FormView {
        FormView {
            superfloppy: self.superfloppy,
            timezone: self.timezone@,
            locale: self.locale@,
            hostname: self.hostname@,
            install_ssh_key: self.install_ssh_key,
            ssh_pubkey: self.ssh_pubkey@,
        }
    }
}

/// The lists to choose from, and what is chosen.
///
/// A choice is a position in a list. Any other number is no choice.
#[derive(Debug)]
pub struct Session {
    disks: Vec<DiskInfo>,
    images: Vec<ImageMetadata>,
    disk: i32,
    image: i32,
}

/// The contents of a `Session`.
#[verifier::ext_equal]
pub struct SessionView {
    pub disks: Seq<DiskView>,
    pub images: Seq<ImageView>,
    pub disk: int,
    pub image: int,
}

impl View for Session {
    type V = SessionView;

    closed spec fn view(&self) -> SessionView {
        SessionView {
            disks: disk_views(self.disks@),
            images: image_views(self.images@),
            disk: self.disk as int,
            image: self.image as int,
        }
    }
}

/// The disks of a listing; none where it failed.
pub open spec fn listed_disks(r: Result<Vec<DiskInfo>, String>) -> Seq<DiskView> {
    match r {
        Ok(v) => disk_views(v@),
        Err(_) => Seq::empty(),
    }
}

/// The images of a scan; none where it failed.
pub open spec fn listed_images(r: Result<Vec<ImageMetadata>, String>) -> Seq<ImageView> {
    match r {
        Ok(v) => image_views(v@),
        Err(_) => Seq::empty(),
    }
}

impl SessionView {
    /// Nothing is listed, and nothing chosen.
    pub open spec fn start() -> SessionView {
        SessionView { disks: Seq::empty(), images: Seq::empty(), disk: -1, image: -1 }
    }

    /// The disks are listed anew, which undoes the choice.
    pub open spec fn with_disks(self, disks: Seq<DiskView>) -> SessionView {
        SessionView { disks, disk: -1, ..self }
    }

    /// The images are listed anew, which undoes the choice.
    pub open spec fn with_images(self, images: Seq<ImageView>) -> SessionView {
        SessionView { images, image: -1, ..self }
    }

    /// A disk and an image are chosen by their positions.
    pub open spec fn picking(self, disk: int, image: int) -> SessionView {
        SessionView { disk, image, ..self }
    }

    /// A disk and an image are chosen.
    pub open spec fn is_ready(self) -> bool {
        0 <= self.disk < self.disks.len() && 0 <= self.image < self.images.len()
    }

    /// What to install, and how, for what is chosen and entered.
    pub open spec fn options(self, form: FormView) -> OptionsView
        recommends
            self.is_ready(),
    {
        OptionsView {
            disk: self.disks[self.disk].path,
            image: self.images[self.image].path,
            superfloppy: form.superfloppy,
            timezone: form.timezone,
            locale: form.locale,
            hostname: form.hostname,
            ssh_pubkey: if form.install_ssh_key {
                form.ssh_pubkey
            } else {
                ""@
            },
        }
    }

    /// What to install, and how; where nothing is chosen, that this is so.
    pub open spec fn asked_for(self, form: FormView) -> Result<OptionsView, Seq<char>> {
        if self.is_ready() {
            Ok(self.options(form))
        } else {
            Err("no disk/image selected"@)
        }
    }

    /// The rows that show the disks.
    pub open spec fn disk_rows(self) -> Seq<DiskRowView> {
        self.disks.map_values(|d: DiskView| disk_row(d))
    }

    /// The rows that show the images.
    pub open spec fn image_rows(self) -> Seq<ImageRowView> {
        self.images.map_values(|m: ImageView| image_row(m))
    }
}

/// What is installed, and where, is what the chosen rows show.
pub proof fn law_chosen_rows_are_installed(s: SessionView, form: FormView)
    requires
        s.is_ready(),
    ensures
        s.options(form).disk == s.disk_rows()[s.disk].path,
        s.options(form).image == s.image_rows()[s.image].path,
{
}

/// What is picked by its position in the lists is what is installed; it can be installed
/// exactly where both positions are in the lists, however long these are.
pub proof fn law_what_is_picked_is_installed(s: SessionView, disk: int, image: int, form: FormView)
    ensures
        ({
            let t = s.picking(disk, image);
            &&& t.is_ready() <==> 0 <= disk && disk < s.disks.len() && 0 <= image && image
                < s.images.len()
            &&& match t.asked_for(form) {
                Ok(o) => t.is_ready() && o.disk == s.disks[disk].path && o.image
                    == s.images[image].path && o == t.options(form),
                Err(e) => !t.is_ready() && e == "no disk/image selected"@,
            }
            &&& t.disks == s.disks
            &&& t.images == s.images
        }),
{
}

/// What was entered becomes part of the options as it was entered. The keys do where they are
/// wanted, else none do.
pub proof fn law_options_carry_what_was_entered(s: SessionView, form: FormView)
    ensures
        ({
            let o = s.options(form);
            &&& o.superfloppy == form.superfloppy
            &&& o.timezone == form.timezone
            &&& o.locale == form.locale
            &&& o.hostname == form.hostname
            &&& form.install_ssh_key ==> o.ssh_pubkey == form.ssh_pubkey
            &&& !form.install_ssh_key ==> o.ssh_pubkey == ""@
        }),
{
}

/// Each disk and each image has its row, in the order of the lists, and the row shows it as it
/// is, with its size in words. An image can have a whole disk as one file system exactly where
/// it is smaller than 4 GiB.
pub proof fn law_each_has_its_row(s: SessionView, i: int)
    ensures
        s.disk_rows().len() == s.disks.len(),
        s.image_rows().len() == s.images.len(),
        0 <= i < s.disks.len() ==> {
            let row = s.disk_rows()[i];
            let d = s.disks[i];
            &&& row.path == d.path
            &&& row.model == d.model
            &&& row.removable == d.removable
            &&& row.size == readable_size(d.size as nat)
        },
        0 <= i < s.images.len() ==> {
            let row = s.image_rows()[i];
            let m = s.images[i];
            &&& row.path == m.path
            &&& row.filename == m.filename
            &&& row.arch == m.arch
            &&& row.artifact == m.artifact
            &&& row.banner == m.banner
            &&& row.version == m.version
            &&& row.arch_match == m.arch_match
            &&& row.size == readable_size(m.size as nat)
            &&& row.superfloppy_available <==> m.size < 4 * 1024 * 1024 * 1024
        },
{
}

/// What is listed is there to choose from, all of it; what could not be listed is not.
pub proof fn law_lists_are_taken_over(
    s: SessionView,
    disks: Result<Vec<DiskInfo>, String>,
    images: Result<Vec<ImageMetadata>, String>,
)
    ensures
        disks matches Ok(v) ==> s.with_disks(listed_disks(disks)).disks == disk_views(v@),
        disks is Err ==> s.with_disks(listed_disks(disks)).disks.len() == 0,
        images matches Ok(v) ==> s.with_images(listed_images(images)).images == image_views(v@),
        images is Err ==> s.with_images(listed_images(images)).images.len() == 0,
        SessionView::start().disks.len() == 0,
        SessionView::start().images.len() == 0,
        !SessionView::start().is_ready(),
{
}

/// A choice does not outlive the list it was made in.
pub proof fn law_new_list_undoes_choice(
    s: SessionView,
    disks: Seq<DiskView>,
    images: Seq<ImageView>,
)
    ensures
        !s.with_disks(disks).is_ready(),
        !s.with_images(images).is_ready(),
        s.with_disks(disks).image == s.image && s.with_disks(disks).images == s.images,
        s.with_images(images).disk == s.disk && s.with_images(images).disks == s.disks,
{
}

/// An image for another architecture can be chosen and installed like any other.
pub proof fn law_architecture_does_not_hinder(s: SessionView, form: FormView, i: int, fits: bool)
    requires
        0 <= i < s.images.len(),
    ensures
        ({
            let other = SessionView {
                images: s.images.update(i, ImageView { arch_match: fits, ..s.images[i] }),
                ..s
            };
            &&& other.is_ready() == s.is_ready()
            &&& s.is_ready() ==> other.options(form) == s.options(form)
        }),
{
}

impl Session {
    /// Nothing is listed, and nothing chosen.
    pub fn new() -> (r: Session)
        ensures
            r@ == SessionView::start(),
    {
        let r = Session { disks: Vec::new(), images: Vec::new(), disk: -1, image: -1 };
        assert(r@ =~= SessionView::start());
        r
    }

    /// The disks are listed anew.
    pub fn load_disks(&mut self, listed: Result<Vec<DiskInfo>, String>)
        ensures
            final(self)@ == old(self)@.with_disks(listed_disks(listed)),
    {
        self.disks = match listed {
            Ok(v) => v,
            Err(_) => Vec::new(),
        };
        self.disk = -1;
        assert(self@ =~= old(self)@.with_disks(listed_disks(listed)));
    }

    /// The images are listed anew.
    pub fn load_images(&mut self, listed: Result<Vec<ImageMetadata>, String>)
        ensures
            final(self)@ == old(self)@.with_images(listed_images(listed)),
    {
        self.images = match listed {
            Ok(v) => v,
            Err(_) => Vec::new(),
        };
        self.image = -1;
        assert(self@ =~= old(self)@.with_images(listed_images(listed)));
    }

    /// A disk and an image are chosen by their positions.
    pub fn pick(&mut self, disk: i32, image: i32)
        ensures
            final(self)@ == old(self)@.picking(disk as int, image as int),
    {
        self.disk = disk;
        self.image = image;
    }

    /// The position of the chosen disk; -1 if there is none.
    pub fn chosen_disk(&self) -> (r: i32)
        ensures
            r == self@.disk,
    {
        self.disk
    }

    /// The position of the chosen image; -1 if there is none.
    pub fn chosen_image(&self) -> (r: i32)
        ensures
            r == self@.image,
    {
        self.image
    }

    /// The rows that show the disks.
    pub fn disk_rows(&self) -> (r: Vec<DiskRow>)
        ensures
            r@.map_values(|d: DiskRow| d@) == self@.disk_rows(),
    {
        let ghost all = self@.disk_rows();
        let mut rows: Vec<DiskRow> = Vec::new();
        let mut i: usize = 0;
        assert(rows@.map_values(|d: DiskRow| d@) =~= all.take(0));
        while i < self.disks.len()
            invariant
                all == self@.disk_rows(),
                i <= self.disks@.len(),
                rows@.map_values(|d: DiskRow| d@) == all.take(i as int),
            decreases self.disks@.len() - i,
        {
            let d = &self.disks[i];
            let row = DiskRow {
                path: d.path.clone(),
                model: d.model.clone(),
                size: d.size_human(),
                removable: d.removable,
            };
            let ghost was = rows@;
            assert(row@ =~= all[i as int]);
            rows.push(row);
            assert(rows@.map_values(|d: DiskRow| d@) =~= was.map_values(|d: DiskRow| d@).push(
                all[i as int],
            ));
            assert(all.take(i + 1) =~= all.take(i as int).push(all[i as int]));
            i = i + 1;
        }
        assert(all.take(i as int) =~= all);
        rows
    }

    /// The rows that show the images.
    pub fn image_rows(&self) -> (r: Vec<ImageRow>)
        ensures
            r@.map_values(|m: ImageRow| m@) == self@.image_rows(),
    {
        let ghost all = self@.image_rows();
        let mut rows: Vec<ImageRow> = Vec::new();
        let mut i: usize = 0;
        assert(rows@.map_values(|m: ImageRow| m@) =~= all.take(0));
        while i < self.images.len()
            invariant
                all == self@.image_rows(),
                i <= self.images@.len(),
                rows@.map_values(|m: ImageRow| m@) == all.take(i as int),
            decreases self.images@.len() - i,
        {
            let m = &self.images[i];
            let row = ImageRow {
                path: m.path.clone(),
                filename: m.filename.clone(),
                size: m.size_human(),
                arch: m.arch.clone(),
                artifact: m.artifact.clone(),
                banner: m.banner.clone(),
                version: m.version.clone(),
                arch_match: m.arch_match,
                superfloppy_available: m.superfloppy_available(),
            };
            let ghost was = rows@;
            assert(row@ =~= all[i as int]);
            rows.push(row);
            assert(rows@.map_values(|m: ImageRow| m@) =~= was.map_values(|m: ImageRow| m@).push(
                all[i as int],
            ));
            assert(all.take(i + 1) =~= all.take(i as int).push(all[i as int]));
            i = i + 1;
        }
        assert(all.take(i as int) =~= all);
        rows
    }

    /// What to install, and how, for what is chosen and entered.
    pub fn options(&self, form: &Form) -> (r: Result<InstallOptions, String>)
        ensures
            match self@.asked_for(form@) {
                Ok(options) => r matches Ok(o) && o@ == options,
                Err(e) => r matches Err(t) && t@ == e,
            },
    {
        if self.disk < 0 || self.image < 0 || self.disk as usize >= self.disks.len()
            || self.image as usize >= self.images.len() {
            return Err("no disk/image selected".to_owned());
        }
        let disk = &self.disks[self.disk as usize];
        let image = &self.images[self.image as usize];
        let keys: String = if form.install_ssh_key {
            form.ssh_pubkey.clone()
        } else {
            "".to_owned()
        };
        Ok(
            InstallOptions {
                disk: disk.path.clone(),
                image: image.path.clone(),
                superfloppy: form.superfloppy,
                timezone: form.timezone.clone(),
                locale: form.locale.clone(),
                hostname: form.hostname.clone(),
                ssh_pubkey: keys,
            },
        )
    }
}

/// `n` times `mark`.
pub open spec fn repeated(mark: Seq<char>, n: nat) -> Seq<char>
    decreases n,
{
    if n == 0 {
        Seq::empty()
    } else {
        repeated(mark, (n - 1) as nat) + mark
    }
}

/// Appends `mark`, `n` times.
fn add_marks(out: &mut String, mark: &str, n: usize)
    ensures
        final(out)@ == old(out)@ + repeated(mark@, n as nat),
{
    let ghost was = out@;
    let mut i: usize = 0;
    assert(out@ =~= was + repeated(mark@, 0));
    while i < n
        invariant
            i <= n,
            out@ == was + repeated(mark@, i as nat),
        decreases n - i,
    {
        out.append(mark);
        assert(out@ =~= was + repeated(mark@, (i + 1) as nat));
        i = i + 1;
    }
}

/// A filled square for each step that has begun, an empty one for each that is to come.
pub open spec fn step_marks(step: nat, total: nat) -> Seq<char> {
    repeated("■"@, step) + repeated(
        "□"@,
        if total >= step {
            (total - step) as nat
        } else {
            0
        },
    )
}

/// The marks for `step` steps that have begun out of `total`.
pub fn step_indicator(step: usize, total: usize) -> (r: String)
    ensures
        r@ == step_marks(step as nat, total as nat),
{
    let mut out = "".to_owned();
    proof {
        reveal_strlit("");
    }
    add_marks(&mut out, "■", step);
    if total >= step {
        add_marks(&mut out, "□", total - step);
    }
    assert(out@ =~= step_marks(step as nat, total as nat));
    out
}

proof fn lemma_repeated_len(mark: Seq<char>, n: nat)
    requires
        mark.len() == 1,
    ensures
        repeated(mark, n).len() == n,
        forall|i: int| 0 <= i < n ==> #[trigger] repeated(mark, n)[i] == mark[0],
    decreases n,
{
    if n > 0 {
        lemma_repeated_len(mark, (n - 1) as nat);
    }
}

/// Of a step that is one of all steps, there is one mark for each step; of one beyond them, one
/// for each step up to it. The first ones, up to the step, are filled.
pub proof fn law_one_mark_for_each_step(step: nat, total: nat)
    ensures
        step <= total ==> step_marks(step, total).len() == total,
        step > total ==> step_marks(step, total).len() == step,
        forall|i: int|
            0 <= i < step_marks(step, total).len() ==> #[trigger] step_marks(step, total)[i] == (
            if i < step {
                '■'
            } else {
                '□'
            }),
{
    reveal_strlit("■");
    reveal_strlit("□");
    lemma_repeated_len("■"@, step);
    lemma_repeated_len("□"@, 0);
    if step <= total {
        lemma_repeated_len("□"@, (total - step) as nat);
    }
}

/// The pages that an installation leads through.
#[derive(Debug, Clone, Copy, PartialEq, Eq, Structural)]
pub enum Page {
    /// Before the installation.
    Options,
    /// While it is carried out.
    Installing,
    /// When it has ended.
    Done,
}

/// What is shown of an installation.
#[derive(Debug)]
pub struct InstallPage {
    page: Page,
    error: String,
    progress: Ratio,
    has_progress: bool,
    step: usize,
    total: usize,
    indicator: String,
    message: String,
}

/// The contents of an `InstallPage`.
#[verifier::ext_equal]
pub struct PageView {
    pub page: Page,
    /// Why the installation failed; empty if it did not.
    pub error: Seq<char>,
    /// How much of the step is done.
    pub progress: Ratio,
    /// How much of the step is done is shown.
    pub has_progress: bool,
    pub step: nat,
    pub total: nat,
    pub indicator: Seq<char>,
    pub message: Seq<char>,
}

impl View for InstallPage {
    type V = PageView;

    closed spec fn view(&self) -> PageView {
        PageView {
            page: self.page,
            error: self.error@,
            progress: self.progress,
            has_progress: self.has_progress,
            step: self.step as nat,
            total: self.total as nat,
            indicator: self.indicator@,
            message: self.message@,
        }
    }
}

impl PageView {
    /// Nothing has been shown yet.
    pub open spec fn start() -> PageView {
        PageView {
            page: Page::Options,
            error: ""@,
            progress: Ratio { done: 0, whole: 1 },
            has_progress: false,
            step: 0,
            total: 0,
            indicator: ""@,
            message: ""@,
        }
    }

    /// The installation cannot begin.
    pub open spec fn refused(self, e: Seq<char>) -> PageView {
        PageView { page: Page::Done, error: e, ..self }
    }

    /// The installation begins.
    pub open spec fn begun(self) -> PageView {
        PageView {
            page: Page::Installing,
            error: ""@,
            progress: Ratio { done: 0, whole: 1 },
            has_progress: false,
            step: 0,
            total: 0,
            indicator: self.indicator,
            message: ""@,
        }
    }

    /// A report arrives. How much is done is shown only where it can be told.
    pub open spec fn reported(self, p: ProgressView) -> PageView {
        PageView {
            step: p.step,
            total: p.total,
            indicator: step_marks(p.step, p.total),
            message: p.message,
            has_progress: p.fraction is Some,
            progress: match p.fraction {
                Some(f) => f,
                None => self.progress,
            },
            ..self
        }
    }

    /// The installation has ended.
    pub open spec fn ended(self, result: Result<(), Seq<char>>) -> PageView {
        match result {
            Ok(_) => PageView {
                page: Page::Done,
                error: ""@,
                progress: Ratio { done: 1, whole: 1 },
                ..self
            },
            Err(e) => PageView { page: Page::Done, error: e, ..self },
        }
    }

    /// Reports arrive, one after the other.
    pub open spec fn all_reported(self, reports: Seq<ProgressView>) -> PageView
        decreases reports.len(),
    {
        if reports.len() == 0 {
            self
        } else {
            self.all_reported(reports.drop_last()).reported(reports.last())
        }
    }
}

/// Whatever was shown before and was reported in between: an installation that succeeds ends
/// without an error and with all done, one that fails ends with its error.
pub proof fn law_end_tells_the_result(
    s: PageView,
    reports: Seq<ProgressView>,
    result: Result<(), Seq<char>>,
)
    ensures
        ({
            let end = s.begun().all_reported(reports).ended(result);
            &&& end.page == Page::Done
            &&& match result {
                Ok(_) => end.error == ""@ && end.progress == (Ratio { done: 1, whole: 1 }),
                Err(e) => end.error == e,
            }
        }),
{
}

/// A report is shown as it comes: the step, the number of steps, what the step does, and how
/// much of it is done where that is told.
pub proof fn law_reports_are_shown(s: PageView, p: ProgressView)
    ensures
        ({
            let t = s.reported(p);
            &&& t.step == p.step
            &&& t.total == p.total
            &&& t.message == p.message
            &&& t.indicator == step_marks(p.step, p.total)
            &&& t.has_progress <==> p.fraction is Some
            &&& p.fraction matches Some(f) ==> t.progress == f
            &&& p.fraction is None ==> t.progress == s.progress
            &&& t.page == s.page
            &&& t.error == s.error
        }),
{
}

/// An installation begins on its page, with nothing shown of an earlier one but the marks; one
/// that cannot begin is done at once, with its error, and shows nothing else.
pub proof fn law_beginning_shows_nothing_old(s: PageView, e: Seq<char>)
    ensures
        s.begun().page == Page::Installing,
        s.begun().error == ""@,
        s.begun().progress.done == 0,
        s.begun().progress.whole == 1,
        !s.begun().has_progress,
        s.begun().step == 0,
        s.begun().total == 0,
        s.begun().message == ""@,
        s.refused(e).page == Page::Done,
        s.refused(e).error == e,
        s.refused(e) == (PageView { page: Page::Done, error: e, ..s }),
        PageView::start().page == Page::Options,
        PageView::start().error == ""@,
        !PageView::start().has_progress,
        PageView::start().step == 0,
        PageView::start().indicator == ""@,
        PageView::start().message == ""@,
{
}

/// While an installation is carried out, its page stays and shows no error.
pub proof fn law_reports_keep_the_page(s: PageView, reports: Seq<ProgressView>)
    ensures
        s.begun().all_reported(reports).page == Page::Installing,
        s.begun().all_reported(reports).error == ""@,
        reports.len() > 0 ==> s.begun().all_reported(reports).has_progress == (
        reports.last().fraction is Some),
    decreases reports.len(),
{
    if reports.len() > 0 {
        law_reports_keep_the_page(s, reports.drop_last());
    }
}

impl InstallPage {
    /// Nothing has been shown yet.
    pub fn new() -> (r: InstallPage)
        ensures
            r@ == PageView::start(),
    {
        InstallPage {
            page: Page::Options,
            error: "".to_owned(),
            progress: Ratio { done: 0, whole: 1 },
            has_progress: false,
            step: 0,
            total: 0,
            indicator: "".to_owned(),
            message: "".to_owned(),
        }
    }

    /// The installation cannot begin.
    pub fn refuse(&mut self, e: &str)
        ensures
            final(self)@ == old(self)@.refused(e@),
    {
        self.page = Page::Done;
        self.error = e.to_owned();
    }

    /// The installation begins.
    pub fn begin(&mut self)
        ensures
            final(self)@ == old(self)@.begun(),
    {
        self.page = Page::Installing;
        self.error = "".to_owned();
        self.progress = Ratio { done: 0, whole: 1 };
        self.has_progress = false;
        self.step = 0;
        self.total = 0;
        self.message = "".to_owned();
    }

    /// A report arrives.
    pub fn report(&mut self, p: &Progress<'_>)
        ensures
            final(self)@ == old(self)@.reported(p@),
    {
        self.step = p.step;
        self.total = p.total;
        self.indicator = step_indicator(p.step, p.total);
        self.message = p.message.to_owned();
        match p.fraction {
            Some(f) => {
                self.has_progress = true;
                self.progress = f;
            },
            None => {
                self.has_progress = false;
            },
        }
    }

    /// The installation has ended.
    pub fn end(&mut self, result: Result<(), String>)
        ensures
            final(self)@ == old(self)@.ended(outcome_view(result)),
    {
        match result {
            Ok(_) => {
                self.progress = Ratio { done: 1, whole: 1 };
                self.error = "".to_owned();
            },
            Err(e) => {
                self.error = e;
            },
        }
        self.page = Page::Done;
    }

    /// The page that is shown.
    pub fn page(&self) -> (r: Page)
        ensures
            r == self@.page,
    {
        self.page
    }

    /// Why the installation failed; empty if it did not.
    pub fn error(&self) -> (r: &str)
        ensures
            r@ == self@.error,
    {
        self.error.as_str()
    }

    /// How much of the step is done.
    pub fn progress(&self) -> (r: Ratio)
        ensures
            r == self@.progress,
    {
        self.progress
    }

    /// Tells whether how much of the step is done is shown.
    pub fn has_progress(&self) -> (r: bool)
        ensures
            r == self@.has_progress,
    {
        self.has_progress
    }

    /// The number of the step, counted from one.
    pub fn step(&self) -> (r: usize)
        ensures
            r == self@.step,
    {
        self.step
    }

    /// The number of all steps.
    pub fn total(&self) -> (r: usize)
        ensures
            r == self@.total,
    {
        self.total
    }

    /// The marks of the steps.
    pub fn indicator(&self) -> (r: &str)
        ensures
            r@ == self@.indicator,
    {
        self.indicator.as_str()
    }

    /// What the step does.
    pub fn message(&self) -> (r: &str)
        ensures
            r@ == self@.message,
    {
        self.message.as_str()
    }
}

/// What is shown of the running system.
pub open spec fn system_text(info: SystemView) -> Seq<char> {
    "CPU:     "@ + info.cpu_model + "\nCores:   "@ + decimal(info.cpu_cores) + "\nMemory:  "@
        + readable_size(info.mem_total) + "\nArch:    "@ + info.arch + "\nKernel:  "@ + info.kernel
}

/// What is shown of the running system.
pub fn format_sysinfo(info: &SystemInfo) -> (r: String)
    ensures
        r@ == system_text(info@),
{
    let mut out = "CPU:     ".to_owned();
    out.append(info.cpu_model.as_str());
    out.append("\nCores:   ");
    out.append(decimal_text(info.cpu_cores as u128).as_str());
    out.append("\nMemory:  ");
    out.append(human_size(info.mem_total).as_str());
    out.append("\nArch:    ");
    out.append(info.arch.as_str());
    out.append("\nKernel:  ");
    out.append(info.kernel.as_str());
    out
}

/// The text shows the system in five lines, each with its name, and all of what is known.
pub proof fn law_system_is_shown_in_five_lines(info: SystemView)
    requires
        is_one_line(info.cpu_model),
        is_one_line(info.arch),
        is_one_line(info.kernel),
        info.cpu_model.len() > 0 ==> info.cpu_model.last() != '\r',
        info.arch.len() > 0 ==> info.arch.last() != '\r',
    ensures
        lines(system_text(info)) == seq![
            "CPU:     "@ + info.cpu_model,
            "Cores:   "@ + decimal(info.cpu_cores),
            "Memory:  "@ + readable_size(info.mem_total),
            "Arch:    "@ + info.arch,
            "Kernel:  "@ + info.kernel,
        ],
{
    reveal_strlit("CPU:     ");
    reveal_strlit("Cores:   ");
    reveal_strlit("Memory:  ");
    reveal_strlit("Arch:    ");
    reveal_strlit("Kernel:  ");
    lemma_digits_are_one_line(info.cpu_cores);
    lemma_size_is_one_line(info.mem_total);
    lemma_five_lines(
        "CPU:     "@ + info.cpu_model,
        "Cores:   "@ + decimal(info.cpu_cores),
        "Memory:  "@ + readable_size(info.mem_total),
        "Arch:    "@ + info.arch,
        "Kernel:  "@ + info.kernel,
    );
    lemma_system_text(info);
}

proof fn lemma_system_text(info: SystemView)
    ensures
        system_text(info) == ("CPU:     "@ + info.cpu_model) + "\n"@ + (("Cores:   "@ + decimal(
            info.cpu_cores,
        )) + "\n"@ + (("Memory:  "@ + readable_size(info.mem_total)) + "\n"@ + (("Arch:    "@
            + info.arch) + "\n"@ + ("Kernel:  "@ + info.kernel)))),
{
    reveal_strlit("Cores:   ");
    reveal_strlit("Memory:  ");
    reveal_strlit("Arch:    ");
    reveal_strlit("Kernel:  ");
    reveal_strlit("\n");
    reveal_strlit("\nCores:   ");
    reveal_strlit("\nMemory:  ");
    reveal_strlit("\nArch:    ");
    reveal_strlit("\nKernel:  ");
    assert("\nCores:   "@ =~= "\n"@ + "Cores:   "@);
    assert("\nMemory:  "@ =~= "\n"@ + "Memory:  "@);
    assert("\nArch:    "@ =~= "\n"@ + "Arch:    "@);
    assert("\nKernel:  "@ =~= "\n"@ + "Kernel:  "@);
    lemma_regrouped(
        "CPU:     "@ + info.cpu_model,
        "Cores:   "@,
        decimal(info.cpu_cores),
        "Memory:  "@,
        readable_size(info.mem_total),
        "Arch:    "@,
        info.arch,
        "Kernel:  "@,
        info.kernel,
    );
}

proof fn lemma_regrouped(
    a: Seq<char>,
    b: Seq<char>,
    x: Seq<char>,
    c: Seq<char>,
    y: Seq<char>,
    d: Seq<char>,
    z: Seq<char>,
    e: Seq<char>,
    w: Seq<char>,
)
    ensures
        a + ("\n"@ + b) + x + ("\n"@ + c) + y + ("\n"@ + d) + z + ("\n"@ + e) + w == a + "\n"@ + ((b
            + x) + "\n"@ + ((c + y) + "\n"@ + ((d + z) + "\n"@ + (e + w)))),
{
    assert(a + ("\n"@ + b) + x + ("\n"@ + c) + y + ("\n"@ + d) + z + ("\n"@ + e) + w =~= a + "\n"@
        + ((b + x) + "\n"@ + ((c + y) + "\n"@ + ((d + z) + "\n"@ + (e + w)))));
}

/// A text that makes one line: it has no line feed, and no carriage return at its end.
spec fn makes_a_line(s: Seq<char>) -> bool {
    is_one_line(s) && s.len() > 0 && s.last() != '\r'
}

proof fn lemma_five_lines(
    a: Seq<char>,
    b: Seq<char>,
    c: Seq<char>,
    d: Seq<char>,
    e: Seq<char>,
)
    requires
        makes_a_line(a),
        makes_a_line(b),
        makes_a_line(c),
        makes_a_line(d),
        is_one_line(e),
        e.len() > 0,
    ensures
        lines(a + "\n"@ + (b + "\n"@ + (c + "\n"@ + (d + "\n"@ + e)))) == seq![a, b, c, d, e],
{
    law_lines_come_apart(e, e);
    law_lines_come_apart(d, e);
    law_lines_come_apart(c, d + "\n"@ + e);
    law_lines_come_apart(b, c + "\n"@ + (d + "\n"@ + e));
    law_lines_come_apart(a, b + "\n"@ + (c + "\n"@ + (d + "\n"@ + e)));
    assert(seq![a] + (seq![b] + (seq![c] + (seq![d] + seq![e]))) =~= seq![a, b, c, d, e]);
}

proof fn lemma_digits_are_one_line(n: nat)
    ensures
        is_one_line(decimal(n)),
        decimal(n).len() > 0,
        decimal(n).last() != '\r',
{
    lemma_decimal(n);
    let s = decimal(n);
    assert forall|i: int| 0 <= i < s.len() implies s[i] != '\n' by {
        assert(is_digit(s[i]));
    }
    assert(is_digit(s[s.len() - 1]));
}

proof fn lemma_size_is_one_line(n: nat)
    ensures
        is_one_line(readable_size(n)),
        readable_size(n).len() > 0,
        readable_size(n).last() != '\r',
{
    reveal_strlit("B");
    reveal_strlit("KiB");
    reveal_strlit("MiB");
    reveal_strlit("GiB");
    reveal_strlit("TiB");
    reveal_strlit("PiB");
    reveal_strlit(" ");
    reveal_strlit(".");
    let t = size_tenths(n);
    lemma_digits_are_one_line(n);
    lemma_digits_are_one_line(t / 10);
    lemma_digits_are_one_line(t % 10);
}

/// What is shown when the running system was asked for.
pub open spec fn system_answer(info: Result<SystemView, Seq<char>>) -> Seq<char> {
    match info {
        Ok(i) => system_text(i),
        Err(e) => "failed to read system info: "@ + e,
    }
}

/// The error to show when the machine could not be `what`; none if it could.
pub open spec fn power_error(what: Seq<char>, result: Result<(), Seq<char>>) -> Option<Seq<char>> {
    match result {
        Ok(_) => None,
        Err(e) => Some(what + " failed: "@ + e),
    }
}

/// Whatever fails is told, whole, and what succeeds is no error.
pub proof fn law_failures_are_told_whole(e: Seq<char>, info: SystemView)
    ensures
        system_answer(Err(e)) == "failed to read system info: "@ + e,
        system_answer(Ok(info)) == system_text(info),
        power_error("reboot"@, Err(e)) == Some("reboot failed: "@ + e),
        power_error("poweroff"@, Err(e)) == Some("poweroff failed: "@ + e),
        power_error("reboot"@, Ok(())) is None,
        power_error("poweroff"@, Ok(())) is None,
{
    reveal_strlit("reboot");
    reveal_strlit("poweroff");
    reveal_strlit(" failed: ");
    reveal_strlit("reboot failed: ");
    reveal_strlit("poweroff failed: ");
    assert("reboot"@ + " failed: "@ =~= "reboot failed: "@);
    assert("poweroff"@ + " failed: "@ =~= "poweroff failed: "@);
}

/// The contents of what was told of the running system.
pub open spec fn system_view(r: Result<SystemInfo, String>) -> Result<SystemView, Seq<char>> {
    match r {
        Ok(i) => Ok(i@),
        Err(e) => Err(e@),
    }
}

/// What is shown when the running system was asked for, whatever came of it.
pub fn sysinfo_text(info: &Result<SystemInfo, String>) -> (r: String)
    ensures
        r@ == system_answer(system_view(*info)),
{
    match info {
        Ok(i) => format_sysinfo(i),
        Err(e) => {
            let mut out = "failed to read system info: ".to_owned();
            out.append(e.as_str());
            out
        },
    }
}

/// The error to show when the machine could not be started anew; none if it could.
pub fn reboot_error(result: &Result<(), String>) -> (r: Option<String>)
    ensures
        owned_view(r) == power_error("reboot"@, outcome_view(*result)),
{
    proof {
        reveal_strlit("reboot");
        reveal_strlit(" failed: ");
        reveal_strlit("reboot failed: ");
        assert("reboot"@ + " failed: "@ =~= "reboot failed: "@);
    }
    match result {
        Ok(_) => None,
        Err(e) => {
            let mut out = "reboot failed: ".to_owned();
            out.append(e.as_str());
            Some(out)
        },
    }
}

/// The error to show when the machine could not be switched off; none if it could.
pub fn poweroff_error(result: &Result<(), String>) -> (r: Option<String>)
    ensures
        owned_view(r) == power_error("poweroff"@, outcome_view(*result)),
{
    proof {
        reveal_strlit("poweroff");
        reveal_strlit(" failed: ");
        reveal_strlit("poweroff failed: ");
        assert("poweroff"@ + " failed: "@ =~= "poweroff failed: "@);
    }
    match result {
        Ok(_) => None,
        Err(e) => {
            let mut out = "poweroff failed: ".to_owned();
            out.append(e.as_str());
            Some(out)
        },
    }
}

} // verus!
