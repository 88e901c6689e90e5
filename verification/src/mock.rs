//! A backend that touches nothing, for working on what is shown.

use vstd::prelude::*;

use crate::backend::{
    DiskInfo, DiskView, ImageMetadata, ImageView, InstallOptions, Progress, ProgressView, Ratio,
    SystemInfo, SystemView,
};
use crate::disks::disk_views;
use crate::images::image_views;
use crate::install_laws::{step_messages, step_report};
use crate::path::{is_same_path, same_components};
use crate::text::same;

verus! {

/// The disks that are made up.
pub open spec fn mock_disks() -> Seq<DiskView> {
    seq![
        DiskView {
            path: "/dev/sda"@,
            model: "SanDisk Ultra USB 3.0"@,
            size: 34_359_738_368,
            removable: true,
        },
        DiskView {
            path: "/dev/nvme0n1"@,
            model: "KIOXIA-EXCERIA PRO SSD"@,
            size: 2_000_398_934_016,
            removable: false,
        },
        DiskView {
            path: "/dev/nvme1n1"@,
            model: "KIOXIA-EXCERIA PRO SSD"@,
            size: 2_000_398_934_016,
            removable: false,
        },
    ]
}

/// An architecture other than `arch`.
pub open spec fn other_arch(arch: Seq<char>) -> Seq<char> {
    if arch == "x86_64"@ {
        "aarch64"@
    } else {
        "x86_64"@
    }
}

/// The images that are made up: a small one, one too large for FAT32, and one for another
/// architecture.
pub open spec fn mock_images(arch: Seq<char>) -> Seq<ImageView> {
    seq![
        ImageView {
            path: "/run/initramfs/boot/genpack.squashfs"@,
            filename: "genpack.squashfs"@,
            size: 1_258_291_200,
            arch,
            artifact: "genpack"@,
            banner: "  __ _  ___ _ __  _ __   __ _  ___| | __\n / _` |/ _ \\ '_ \\| '_ \\ / _` |/ __| |/ /\n| (_| |  __/ | | | |_) | (_| | (__|   < \n \\__, |\\___|_| |_| .__/ \\__,_|\\___|_|\\_\\\n |___/           |_|"@,
            version: "commit a1b2c3d 2026-06-20 12:34:56"@,
            arch_match: true,
        },
        ImageView {
            path: "/run/initramfs/boot/walbrix.squashfs"@,
            filename: "walbrix.squashfs"@,
            size: 5_368_709_120,
            arch,
            artifact: "walbrix"@,
            banner: ""@,
            version: "commit deadbee 2026-06-25 09:00:00"@,
            arch_match: true,
        },
        ImageView {
            path: "/run/initramfs/boot/other-arch.squashfs"@,
            filename: "other-arch.squashfs"@,
            size: 838_860_800,
            arch: other_arch(arch),
            artifact: "genpack"@,
            banner: ""@,
            version: "commit 0000000 2026-01-01 00:00:00"@,
            arch_match: false,
        },
    ]
}

/// The first of some images with the path `path`, component by component.
pub open spec fn image_at(images: Seq<ImageView>, path: Seq<char>) -> Option<ImageView>
    decreases images.len(),
{
    if images.len() == 0 {
        None
    } else if same_components(images[0].path, path) {
        Some(images[0])
    } else {
        image_at(images.skip(1), path)
    }
}

/// Of the made-up images, those that tell the architecture of the machine fit it, whatever it
/// is, and the last one tells another. The first fits on FAT32, the second does not.
pub proof fn law_made_up_images_show_each_kind(arch: Seq<char>)
    ensures
        mock_images(arch).len() == 3,
        forall|i: int|
            0 <= i < 3 ==> ((#[trigger] mock_images(arch)[i]).arch_match <==> mock_images(
                arch,
            )[i].arch == arch),
        mock_images(arch)[0].arch == arch,
        mock_images(arch)[1].arch == arch,
        mock_images(arch)[2].arch != arch,
        mock_images(arch)[0].size < 4 * 1024 * 1024 * 1024,
        mock_images(arch)[1].size >= 4 * 1024 * 1024 * 1024,
        forall|i: int|
            0 <= i < mock_disks().len() ==> (#[trigger] mock_disks()[i]).size >= 4 * 1024 * 1024
                * 1024,
{
    reveal_strlit("x86_64");
    reveal_strlit("aarch64");
    assert("x86_64"@.len() == 6 && "aarch64"@.len() == 7);
}

/// The image at a path is the first of those whose path is the same, component by component;
/// there is none exactly where no path is.
pub proof fn law_image_is_found_by_its_path(images: Seq<ImageView>, path: Seq<char>)
    ensures
        match image_at(images, path) {
            Some(m) => exists|i: int|
                0 <= i < images.len() && (#[trigger] images[i]) == m && same_components(m.path, path)
                    && forall|j: int|
                    0 <= j < i ==> !same_components((#[trigger] images[j]).path, path),
            None => forall|j: int|
                0 <= j < images.len() ==> !same_components((#[trigger] images[j]).path, path),
        },
    decreases images.len(),
{
    if images.len() > 0 && !same_components(images[0].path, path) {
        let rest = images.skip(1);
        law_image_is_found_by_its_path(rest, path);
        match image_at(rest, path) {
            Some(m) => {
                let i = choose|i: int|
                    0 <= i < rest.len() && (#[trigger] rest[i]) == m && same_components(
                        m.path,
                        path,
                    ) && forall|j: int|
                        0 <= j < i ==> !same_components((#[trigger] rest[j]).path, path);
                assert(images[i + 1] == m);
                assert forall|j: int| 0 <= j < i + 1 implies !same_components(
                    (#[trigger] images[j]).path,
                    path,
                ) by {
                    if j > 0 {
                        assert(rest[j - 1] == images[j]);
                    }
                }
            },
            None => {
                assert forall|j: int| 0 <= j < images.len() implies !same_components(
                    (#[trigger] images[j]).path,
                    path,
                ) by {
                    if j > 0 {
                        assert(rest[j - 1] == images[j]);
                    }
                }
            },
        }
    } else if images.len() > 0 {
        assert(images[0] == images[0]);
    }
}

/// What is made up of the running system.
pub open spec fn mock_system(arch: Seq<char>) -> SystemView {
    SystemView {
        cpu_model: "Mock CPU @ 3.00GHz"@,
        cpu_cores: 8,
        mem_total: 17_179_869_184,
        arch,
        kernel: "mock"@,
    }
}

/// A step that is pretended: what it does, how many milliseconds it takes, and whether it is
/// told how far it is.
pub struct MockStep {
    pub message: Seq<char>,
    pub millis: nat,
    pub copies: bool,
}

/// The steps of an installation that is pretended.
pub open spec fn mock_steps(superfloppy: bool) -> Seq<MockStep> {
    let middle = if superfloppy {
        seq![MockStep { message: "Formatting disk (FAT32)"@, millis: 700, copies: false }]
    } else {
        seq![
            MockStep { message: "Creating partitions"@, millis: 700, copies: false },
            MockStep { message: "Formatting boot partition (FAT32)"@, millis: 500, copies: false },
            MockStep { message: "Formatting data partition (BTRFS)"@, millis: 500, copies: false },
        ]
    };
    seq![MockStep { message: "Checking system image"@, millis: 300, copies: false }] + middle
        + seq![
        MockStep { message: "Installing bootloader"@, millis: 600, copies: false },
        MockStep { message: "Copying system image"@, millis: 1500, copies: true },
        MockStep { message: "Writing configuration"@, millis: 300, copies: false },
        MockStep { message: "Syncing"@, millis: 400, copies: false },
    ]
}

/// A report, and how many milliseconds to wait after it.
#[derive(Debug, Clone, Copy)]
pub struct Beat {
    pub report: Progress<'static>,
    pub pause: u64,
}

/// The contents of a `Beat`.
#[verifier::ext_equal]
pub struct BeatView {
    pub report: ProgressView,
    pub pause: nat,
}

impl View for Beat {
    type V = BeatView;

    open spec fn view(&self) -> BeatView {
        BeatView { report: self.report@, pause: self.pause as nat }
    }
}

/// The contents of a list of beats.
pub open spec fn beat_views(v: Seq<Beat>) -> Seq<BeatView> {
    v.map_values(|b: Beat| b@)
}

/// What is reported of one step: that it begins; of a copy, each twentieth of it.
pub open spec fn step_beats(s: MockStep, step: nat, total: nat) -> Seq<BeatView> {
    if s.copies {
        Seq::new(
            21,
            |t: int|
                BeatView {
                    report: ProgressView {
                        step,
                        total,
                        message: s.message,
                        fraction: Some(Ratio { done: t as u64, whole: 20 }),
                    },
                    pause: s.millis / 20,
                },
        )
    } else {
        seq![
            BeatView {
                report: ProgressView { step, total, message: s.message, fraction: None },
                pause: s.millis,
            },
        ]
    }
}

/// What is reported of the first `n` steps.
pub open spec fn beats_of(steps: Seq<MockStep>, n: nat) -> Seq<BeatView>
    decreases n,
{
    if n == 0 {
        Seq::empty()
    } else {
        beats_of(steps, (n - 1) as nat) + step_beats(steps[n - 1], n, steps.len())
    }
}

/// A step that is pretended is told of once, and takes its time behind that; one that copies is
/// told of by its twentieths, from none to all, and its time is spread over them.
pub proof fn law_pretended_copies_are_told_by_twentieths(s: MockStep, step: nat, total: nat, k: int)
    ensures
        !s.copies ==> step_beats(s, step, total).len() == 1,
        s.copies ==> step_beats(s, step, total).len() == 21,
        0 <= k < step_beats(s, step, total).len() ==> {
            let b = step_beats(s, step, total)[k];
            &&& b.report.step == step
            &&& b.report.total == total
            &&& b.report.message == s.message
            &&& !s.copies ==> b.report.fraction is None && b.pause == s.millis
            &&& s.copies ==> b.report.fraction == Some(Ratio { done: k as u64, whole: 20 })
                && b.pause == s.millis / 20
        },
{
}

/// A report is that of the step of number `i` of an installation that is carried out, but
/// that it may tell a share.
pub open spec fn reports_step(p: ProgressView, superfloppy: bool, i: int) -> bool {
    &&& p == (ProgressView { fraction: p.fraction, ..step_report(superfloppy, i) })
    &&& p.fraction matches Some(f) ==> f.whole > 0 && 0 <= f.done <= f.whole
}

/// The reports of the first `n` steps go through these steps in their order.
pub open spec fn goes_through(beats: Seq<BeatView>, superfloppy: bool, n: nat) -> bool {
    &&& beats.len() > 0
    &&& beats[0].report.step == 1
    &&& beats.last().report.step == n
    &&& forall|k: int|
        0 <= k < beats.len() ==> 1 <= (#[trigger] beats[k]).report.step <= n && reports_step(
            beats[k].report,
            superfloppy,
            beats[k].report.step - 1,
        )
    &&& forall|k: int|
        0 < k < beats.len() ==> beats[k - 1].report.step <= (#[trigger] beats[k]).report.step
            <= beats[k - 1].report.step + 1
}

/// A pretended installation shows the steps of one that is carried out: each of its reports
/// has the number, the total and the message of such a step, from the first step to the
/// last, none left out and none before its turn. A share that is told is part of the whole.
pub proof fn law_pretended_steps_are_the_true_ones(superfloppy: bool)
    ensures
        mock_steps(superfloppy).map_values(|s: MockStep| s.message) == step_messages(superfloppy),
        goes_through(
            beats_of(mock_steps(superfloppy), mock_steps(superfloppy).len()),
            superfloppy,
            step_messages(superfloppy).len(),
        ),
{
    let messages = mock_steps(superfloppy).map_values(|s: MockStep| s.message);
    assert(messages =~= step_messages(superfloppy));
    lemma_goes_through(superfloppy, mock_steps(superfloppy).len());
}

proof fn lemma_goes_through(superfloppy: bool, n: nat)
    requires
        0 < n <= mock_steps(superfloppy).len(),
    ensures
        goes_through(beats_of(mock_steps(superfloppy), n), superfloppy, n),
    decreases n,
{
    let steps = mock_steps(superfloppy);
    let messages = steps.map_values(|s: MockStep| s.message);
    assert(messages =~= step_messages(superfloppy));
    assert(messages[n - 1] == steps[n - 1].message);
    let before = beats_of(steps, (n - 1) as nat);
    let last = step_beats(steps[n - 1], n, steps.len());
    let now = beats_of(steps, n);
    assert(now == before + last);
    assert(last.len() > 0);
    assert forall|k: int| 0 <= k < last.len() implies (#[trigger] last[k]).report.step == n
        && reports_step(last[k].report, superfloppy, n - 1) by {}
    if n > 1 {
        lemma_goes_through(superfloppy, (n - 1) as nat);
    } else {
        assert(before =~= Seq::empty());
    }
    assert(now.last() == last.last() && last.last() == last[last.len() - 1]);
    assert forall|k: int| 0 <= k < now.len() implies 1 <= (#[trigger] now[k]).report.step <= n
        && reports_step(now[k].report, superfloppy, now[k].report.step - 1) by {
        if k < before.len() {
            assert(now[k] == before[k]);
        } else {
            assert(now[k] == last[k - before.len()]);
        }
    }
    assert forall|k: int| 0 < k < now.len() implies now[k - 1].report.step <= (
    #[trigger] now[k]).report.step <= now[k - 1].report.step + 1 by {
        if k < before.len() {
            assert(now[k] == before[k] && now[k - 1] == before[k - 1]);
        } else {
            assert(now[k] == last[k - before.len()]);
            if k == before.len() {
                assert(now[k - 1] == before.last());
            } else {
                assert(now[k - 1] == last[k - 1 - before.len()]);
            }
        }
    }
}

/// The backend that touches nothing.
#[derive(Debug, Clone, Copy)]
pub struct MockBackend;

impl Default for MockBackend {
    fn default() -> (r: Self)
        ensures
            r == MockBackend,
    {
        MockBackend::new()
    }
}

/// Appends what is reported of one step.
fn add_beats(
    out: &mut Vec<Beat>,
    message: &'static str,
    millis: u64,
    copies: bool,
    step: usize,
    total: usize,
)
    ensures
        beat_views(final(out)@) == beat_views(old(out)@) + step_beats(
            MockStep { message: message@, millis: millis as nat, copies },
            step as nat,
            total as nat,
        ),
{
    let ghost was = beat_views(out@);
    let ghost s = MockStep { message: message@, millis: millis as nat, copies };
    let ghost all = step_beats(s, step as nat, total as nat);
    if copies {
        let mut t: u64 = 0;
        assert(beat_views(out@) =~= was + all.take(0));
        while t <= 20
            invariant
                t <= 21,
                s == (MockStep { message: message@, millis: millis as nat, copies }),
                copies,
                all == step_beats(s, step as nat, total as nat),
                beat_views(out@) == was + all.take(t as int),
            decreases 21 - t,
        {
            let ghost before = out@;
            let beat = Beat {
                report: Progress {
                    step,
                    total,
                    message,
                    fraction: Some(Ratio { done: t, whole: 20 }),
                },
                pause: millis / 20,
            };
            out.push(beat);
            assert(beat@ == all[t as int]);
            assert(all.take(t + 1) =~= all.take(t as int).push(all[t as int]));
            assert(beat_views(out@) =~= beat_views(before).push(beat@));
            assert(was + all.take(t as int).push(beat@) =~= (was + all.take(t as int)).push(beat@));
            t = t + 1;
        }
        assert(all.take(21) =~= all);
    } else {
        let ghost before = out@;
        let beat = Beat {
            report: Progress { step, total, message, fraction: None },
            pause: millis,
        };
        out.push(beat);
        assert(beat_views(out@) =~= was + all);
    }
}

/// The images that are made up.
fn made_up_images(host_arch: &str) -> (r: Vec<ImageMetadata>)
    ensures
        image_views(r@) == mock_images(host_arch@),
{
    let other: &str = if same(host_arch, "x86_64") {
        "aarch64"
    } else {
        "x86_64"
    };
    let mut out: Vec<ImageMetadata> = Vec::new();
    out.push(
        ImageMetadata {
            path: "/run/initramfs/boot/genpack.squashfs".to_owned(),
            filename: "genpack.squashfs".to_owned(),
            size: 1_258_291_200,
            arch: host_arch.to_owned(),
            artifact: "genpack".to_owned(),
            banner: "  __ _  ___ _ __  _ __   __ _  ___| | __\n / _` |/ _ \\ '_ \\| '_ \\ / _` |/ __| |/ /\n| (_| |  __/ | | | |_) | (_| | (__|   < \n \\__, |\\___|_| |_| .__/ \\__,_|\\___|_|\\_\\\n |___/           |_|".to_owned(),
            version: "commit a1b2c3d 2026-06-20 12:34:56".to_owned(),
            arch_match: true,
        },
    );
    out.push(
        ImageMetadata {
            path: "/run/initramfs/boot/walbrix.squashfs".to_owned(),
            filename: "walbrix.squashfs".to_owned(),
            size: 5_368_709_120,
            arch: host_arch.to_owned(),
            artifact: "walbrix".to_owned(),
            banner: "".to_owned(),
            version: "commit deadbee 2026-06-25 09:00:00".to_owned(),
            arch_match: true,
        },
    );
    out.push(
        ImageMetadata {
            path: "/run/initramfs/boot/other-arch.squashfs".to_owned(),
            filename: "other-arch.squashfs".to_owned(),
            size: 838_860_800,
            arch: other.to_owned(),
            artifact: "genpack".to_owned(),
            banner: "".to_owned(),
            version: "commit 0000000 2026-01-01 00:00:00".to_owned(),
            arch_match: false,
        },
    );
    assert(image_views(out@) =~= mock_images(host_arch@));
    out
}

impl MockBackend {
    /// The backend. It has no state of its own.
    pub fn new() -> (r: Self)
        ensures
            r == MockBackend,
    {
        MockBackend
    }

    /// The disks that are made up.
    pub fn list_disks(&self) -> (r: Result<Vec<DiskInfo>, String>)
        ensures
            r matches Ok(disks) && disk_views(disks@) == mock_disks(),
    {
        let mut out: Vec<DiskInfo> = Vec::new();
        out.push(
            DiskInfo {
                path: "/dev/sda".to_owned(),
                model: "SanDisk Ultra USB 3.0".to_owned(),
                size: 34_359_738_368,
                removable: true,
            },
        );
        out.push(
            DiskInfo {
                path: "/dev/nvme0n1".to_owned(),
                model: "KIOXIA-EXCERIA PRO SSD".to_owned(),
                size: 2_000_398_934_016,
                removable: false,
            },
        );
        out.push(
            DiskInfo {
                path: "/dev/nvme1n1".to_owned(),
                model: "KIOXIA-EXCERIA PRO SSD".to_owned(),
                size: 2_000_398_934_016,
                removable: false,
            },
        );
        assert(disk_views(out@) =~= mock_disks());
        Ok(out)
    }

    /// The images that are made up, for a machine of the architecture `host_arch`.
    pub fn scan_images(&self, host_arch: &str) -> (r: Result<Vec<ImageMetadata>, String>)
        ensures
            r matches Ok(images) && image_views(images@) == mock_images(host_arch@),
    {
        Ok(made_up_images(host_arch))
    }

    /// The made-up image with the path `path`.
    pub fn read_image_metadata(&self, path: &str, host_arch: &str) -> (r: Result<
        ImageMetadata,
        String,
    >)
        ensures
            match image_at(mock_images(host_arch@), path@) {
                Some(m) => r matches Ok(x) && x@ == m,
                None => r matches Err(t) && t@ == "no such image: "@ + path@,
            },
    {
        let images = made_up_images(host_arch);
        let ghost all = mock_images(host_arch@);
        proof {
            assert(all.skip(0) =~= all);
        }
        for m in it: images
            invariant
                image_views(it.seq()) == all,
                all == mock_images(host_arch@),
                image_at(all, path@) == image_at(all.skip(it.index() as int), path@),
        {
            let ghost i = it.index() as int;
            assert(all.skip(i)[0] == m@);
            assert(all.skip(i).skip(1) =~= all.skip(i + 1));
            if is_same_path(m.path.as_str(), path) {
                return Ok(m);
            }
        }
        let mut out = "no such image: ".to_owned();
        out.append(path);
        Err(out)
    }

    /// What the running system told of itself; where that could not be read, something made
    /// up.
    pub fn system_info(&self, told: Result<SystemInfo, String>, host_arch: &str) -> (r: Result<
        SystemInfo,
        String,
    >)
        ensures
            match told {
                Ok(info) => r == Ok::<SystemInfo, String>(info),
                Err(_) => r matches Ok(info) && info@ == mock_system(host_arch@),
            },
    {
        match told {
            Ok(info) => Ok(info),
            Err(_) => Ok(
                SystemInfo {
                    cpu_model: "Mock CPU @ 3.00GHz".to_owned(),
                    cpu_cores: 8,
                    mem_total: 17_179_869_184,
                    arch: host_arch.to_owned(),
                    kernel: "mock".to_owned(),
                },
            ),
        }
    }

    /// The reports of an installation that is pretended, each with the time to wait after
    /// it. It always succeeds.
    pub fn install(&self, opts: &InstallOptions) -> (r: Vec<Beat>)
        ensures
            beat_views(r@) == beats_of(
                mock_steps(opts.superfloppy),
                mock_steps(opts.superfloppy).len(),
            ),
    {
        let ghost steps = mock_steps(opts.superfloppy);
        proof {
            reveal_with_fuel(beats_of, 9);
        }
        let total: usize = if opts.superfloppy {
            6
        } else {
            8
        };
        let mut out: Vec<Beat> = Vec::new();
        assert(beat_views(out@) =~= Seq::empty());
        add_beats(&mut out, "Checking system image", 300, false, 1, total);
        if opts.superfloppy {
            add_beats(&mut out, "Formatting disk (FAT32)", 700, false, 2, total);
        } else {
            add_beats(&mut out, "Creating partitions", 700, false, 2, total);
            add_beats(&mut out, "Formatting boot partition (FAT32)", 500, false, 3, total);
            add_beats(&mut out, "Formatting data partition (BTRFS)", 500, false, 4, total);
        }
        assert(beat_views(out@) == beats_of(steps, (total - 4) as nat));
        add_beats(&mut out, "Installing bootloader", 600, false, total - 3, total);
        add_beats(&mut out, "Copying system image", 1500, true, total - 2, total);
        add_beats(&mut out, "Writing configuration", 300, false, total - 1, total);
        add_beats(&mut out, "Syncing", 400, false, total, total);
        out
    }

    /// Nothing is started anew, and that succeeds.
    pub fn reboot(&self) -> (r: Result<(), String>)
        ensures
            r is Ok,
    {
        Ok(())
    }

    /// Nothing is switched off, and that succeeds.
    pub fn poweroff(&self) -> (r: Result<(), String>)
        ensures
            r is Ok,
    {
        Ok(())
    }
}

} // verus!
