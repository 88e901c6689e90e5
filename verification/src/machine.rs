//! The backend that works on the machine it runs on.
//!
//! The methods take what was read from the machine and say what follows from it.

use vstd::prelude::*;

use crate::backend::{
    DiskInfo, DiskView, ImageMetadata, ImageView, InstallOptions, SystemInfo, SystemView,
};
use crate::command::{not_started, start_failure, systemctl_outcome, systemctl_result, Ran, RanView};
use crate::disks::{disk_views, installable_disks, offered_disks};
use crate::effects::{option_view, outcome_view};
use crate::images::{
    describe_image, image_known, image_views, is_sorting, sort_images, GenpackMeta,
    MetaView,
};
use crate::install::{InstallView, Installer};
use crate::number::{decimal, law_written_number_is_read_back, parse_u64, parsed};
use crate::split::{lines, lines_of, second_field, second_field_of, texts, words, words_of};
use crate::text::{starts_with, trim, trimmed, CharClass};
use crate::text_laws::{
    are_positions, law_second_field, law_trimming_gives_back, lemma_picked,
};

verus! {

/// The first of some lines that starts with `prefix`.
pub open spec fn first_with(all: Seq<Seq<char>>, prefix: Seq<char>) -> Option<Seq<char>>
    decreases all.len(),
{
    if all.len() == 0 {
        None
    } else if prefix.is_prefix_of(all[0]) {
        Some(all[0])
    } else {
        first_with(all.skip(1), prefix)
    }
}

/// The first of some lines that starts with `prefix`.
fn find_line<'a>(all: &Vec<&'a str>, prefix: &str) -> (r: Option<&'a str>)
    ensures
        option_view(r) == first_with(texts(all@), prefix@),
{
    let ghost every = texts(all@);
    let mut i: usize = 0;
    assert(every.skip(0) =~= every);
    while i < all.len()
        invariant
            every == texts(all@),
            i <= all@.len(),
            first_with(every, prefix@) == first_with(every.skip(i as int), prefix@),
        decreases all@.len() - i,
    {
        assert(every.skip(i as int)[0] == all@[i as int]@);
        assert(every.skip(i as int).skip(1) =~= every.skip(i + 1));
        if starts_with(all[i], prefix) {
            return Some(all[i]);
        }
        i = i + 1;
    }
    None
}

/// The model of the processor, as `/proc/cpuinfo` tells it.
pub open spec fn processor_model(cpuinfo: Seq<char>) -> Seq<char> {
    match first_with(lines(cpuinfo), "model name"@) {
        Some(line) => match second_field(line, ':') {
            Some(f) => trimmed(f),
            None => "(unknown)"@,
        },
        None => "(unknown)"@,
    }
}

/// The number of processors that `/proc/cpuinfo` lists; one if it lists none.
pub open spec fn processor_count(cpuinfo: Seq<char>) -> nat {
    let n = lines(cpuinfo).filter(|line: Seq<char>| "processor"@.is_prefix_of(line)).len();
    if n == 0 {
        1
    } else {
        n
    }
}

/// The memory of the machine in KiB, as `/proc/meminfo` tells it.
pub open spec fn memory_told(meminfo: Seq<char>) -> Option<nat> {
    match first_with(lines(meminfo), "MemTotal"@) {
        Some(line) => if words(line).len() > 1 {
            parsed(words(line)[1], u64::MAX as nat)
        } else {
            None
        },
        None => None,
    }
}

/// The memory of the machine in bytes; none if it is not told.
pub open spec fn memory_bytes(meminfo: Seq<char>) -> nat {
    match memory_told(meminfo) {
        Some(kib) => kib * 1024,
        None => 0,
    }
}

/// The release of the kernel.
pub open spec fn kernel_shown(release: Option<Seq<char>>) -> Seq<char> {
    match release {
        Some(t) => trimmed(t),
        None => "(unknown)"@,
    }
}

/// The model of the processor, as `/proc/cpuinfo` tells it.
pub fn cpu_model(cpuinfo: &str) -> (r: String)
    ensures
        r@ == processor_model(cpuinfo@),
{
    let all = lines_of(cpuinfo);
    match find_line(&all, "model name") {
        Some(line) => match second_field_of(line, ':') {
            Some(f) => trim(f).to_owned(),
            None => "(unknown)".to_owned(),
        },
        None => "(unknown)".to_owned(),
    }
}

/// The number of processors that `/proc/cpuinfo` lists; one if it lists none.
pub fn cpu_cores(cpuinfo: &str) -> (r: usize)
    ensures
        r == processor_count(cpuinfo@),
{
    let all = lines_of(cpuinfo);
    let ghost every = lines(cpuinfo@);
    let ghost listed = |line: Seq<char>| "processor"@.is_prefix_of(line);
    let mut n: usize = 0;
    let mut i: usize = 0;
    assert(every.take(0).filter(listed) =~= Seq::empty()) by {
        reveal(Seq::filter);
    }
    while i < all.len()
        invariant
            every == texts(all@),
            listed == (|line: Seq<char>| "processor"@.is_prefix_of(line)),
            n <= i <= all@.len(),
            n == every.take(i as int).filter(listed).len(),
        decreases all@.len() - i,
    {
        proof {
            assert(every.take(i + 1) =~= every.take(i as int).push(every[i as int]));
            every.take(i as int).lemma_filter_push(every[i as int], listed);
            assert(every[i as int] == all@[i as int]@);
        }
        if starts_with(all[i], "processor") {
            n = n + 1;
        }
        i = i + 1;
    }
    assert(every.take(i as int) =~= every);
    if n == 0 {
        1
    } else {
        n
    }
}

/// The memory of the machine in KiB, as `/proc/meminfo` tells it.
pub fn memory_kib(meminfo: &str) -> (r: Option<u64>)
    ensures
        r is Some <==> memory_told(meminfo@) is Some,
        r matches Some(n) ==> memory_told(meminfo@) == Some(n as nat),
{
    let all = lines_of(meminfo);
    match find_line(&all, "MemTotal") {
        Some(line) => {
            let parts = words_of(line);
            if parts.len() > 1 {
                assert(texts(parts@)[1] == parts@[1]@);
                parse_u64(parts[1])
            } else {
                None
            }
        },
        None => None,
    }
}

/// What the running system tells of itself.
pub open spec fn system_told(
    cpuinfo: Seq<char>,
    meminfo: Seq<char>,
    release: Option<Seq<char>>,
    host_arch: Seq<char>,
) -> SystemView {
    SystemView {
        cpu_model: processor_model(cpuinfo),
        cpu_cores: processor_count(cpuinfo),
        mem_total: memory_bytes(meminfo),
        arch: host_arch,
        kernel: kernel_shown(release),
    }
}

/// The images that could be read.
pub open spec fn readable_images(read: Seq<Result<ImageMetadata, String>>) -> Seq<ImageMetadata> {
    read.filter_map(
        |m: Result<ImageMetadata, String>|
            match m {
                Ok(x) => Some(x),
                Err(_) => None,
            },
    )
}

/// The disks that a run of `lsblk` shows, or why it shows none.
pub open spec fn disks_told(lsblk: RanView) -> Result<Seq<DiskView>, Seq<char>> {
    match lsblk {
        RanView::NotStarted(e) => Err(not_started("lsblk"@, e)),
        RanView::Ended { success, status, stdout, stderr } => if success {
            Ok(offered_disks(stdout))
        } else {
            Err("lsblk failed"@)
        },
    }
}

/// What is known of an image whose size was asked for, or why it is not known.
pub open spec fn image_told(
    path: Seq<char>,
    size: Result<u64, Seq<char>>,
    meta: MetaView,
    host_arch: Seq<char>,
) -> Result<ImageView, Seq<char>> {
    match size {
        Ok(n) => Ok(image_known(path, n, meta, host_arch)),
        Err(e) => Err("stat failed: "@ + e),
    }
}

/// Disks are listed exactly where `lsblk` ended with success, from all that it wrote, and
/// images are described exactly where their sizes are known. Else the failure is told.
pub proof fn law_listing_fails_only_by_its_sources(
    ran: RanView,
    path: Seq<char>,
    size: Result<u64, Seq<char>>,
    meta: MetaView,
    host_arch: Seq<char>,
)
    ensures
        match ran {
            RanView::Ended { success: true, stdout, .. } => disks_told(ran) == Ok::<
                Seq<DiskView>,
                Seq<char>,
            >(offered_disks(stdout)),
            RanView::Ended { success: false, .. } => disks_told(ran) == Err::<
                Seq<DiskView>,
                Seq<char>,
            >("lsblk failed"@),
            RanView::NotStarted(e) => disks_told(ran) == Err::<Seq<DiskView>, Seq<char>>(
                "failed to run lsblk: "@ + e,
            ),
        },
        size matches Ok(n) ==> (image_told(path, size, meta, host_arch) matches Ok(m) && m.size == n
            && m.path == path),
        size matches Err(e) ==> image_told(path, size, meta, host_arch) == Err::<
            ImageView,
            Seq<char>,
        >("stat failed: "@ + e),
{
    reveal_strlit("failed to run ");
    reveal_strlit("lsblk");
    reveal_strlit(": ");
    reveal_strlit("failed to run lsblk: ");
    assert("failed to run "@ + "lsblk"@ + ": "@ =~= "failed to run lsblk: "@);
}

/// Every image that could be read is kept, in its order.
pub proof fn law_readable_images_are_kept(read: Seq<Result<ImageMetadata, String>>) -> (at: Seq<
    int,
>)
    ensures
        are_positions(at, read.len()),
        at.len() == readable_images(read).len(),
        forall|k: int| 0 <= k < at.len() ==> read[#[trigger] at[k]] == Ok::<ImageMetadata, String>(
            readable_images(read)[k],
        ),
        forall|i: int| 0 <= i < read.len() ==> (#[trigger] at.contains(i) <==> read[i] is Ok),
{
    lemma_picked(
        read,
        |m: Result<ImageMetadata, String>|
            match m {
                Ok(x) => Some(x),
                Err(_) => None,
            },
    )
}

proof fn lemma_first_with(all: Seq<Seq<char>>, prefix: Seq<char>, k: int)
    requires
        0 <= k <= all.len(),
        forall|j: int| 0 <= j < k ==> !prefix.is_prefix_of(#[trigger] all[j]),
        k < all.len() ==> prefix.is_prefix_of(all[k]),
    ensures
        first_with(all, prefix) == (if k < all.len() {
            Some(all[k])
        } else {
            None
        }),
    decreases k,
{
    if k > 0 {
        assert(!prefix.is_prefix_of(all[0]));
        let rest = all.skip(1);
        assert forall|j: int| 0 <= j < k - 1 implies !prefix.is_prefix_of(#[trigger] rest[j]) by {
            assert(rest[j] == all[j + 1]);
        }
        lemma_first_with(rest, prefix, k - 1);
    }
}

/// The model of the processor is what stands between the first and the second colon of the
/// first line that starts with `model name`, without the white space around it, of whatever
/// length.
pub proof fn law_processor_model_is_read(
    cpuinfo: Seq<char>,
    k: int,
    a: Seq<char>,
    b: Seq<char>,
    x: Seq<char>,
    c: Seq<char>,
)
    requires
        0 <= k < lines(cpuinfo).len(),
        forall|j: int| 0 <= j < k ==> !"model name"@.is_prefix_of(#[trigger] lines(cpuinfo)[j]),
        lines(cpuinfo)[k] == "model name"@ + a + ":"@ + (b + x + c),
        forall|i: int| 0 <= i < a.len() ==> a[i] != ':',
        forall|i: int| 0 <= i < x.len() ==> x[i] != ':',
        forall|i: int| 0 <= i < b.len() ==> CharClass::Whitespace.has(#[trigger] b[i]),
        forall|i: int| 0 <= i < c.len() ==> CharClass::Whitespace.has(#[trigger] c[i]),
        x.len() > 0 ==> !CharClass::Whitespace.has(x[0]) && !CharClass::Whitespace.has(x.last()),
    ensures
        processor_model(cpuinfo) == x,
{
    reveal_strlit("model name");
    reveal_strlit(":");
    let line = lines(cpuinfo)[k];
    assert(line.subrange(0, 10) =~= "model name"@);
    assert("model name"@.is_prefix_of(line));
    lemma_first_with(lines(cpuinfo), "model name"@, k);
    let front = "model name"@ + a;
    let field = b + x + c;
    assert forall|i: int| 0 <= i < front.len() implies front[i] != ':' by {
        if i >= 10 {
            assert(front[i] == a[i - 10]);
        }
    }
    assert forall|i: int| 0 <= i < field.len() implies field[i] != ':' by {
        if i < b.len() {
            assert(CharClass::Whitespace.has(b[i]));
            assert(field[i] == b[i]);
        } else if i < b.len() + x.len() {
            assert(field[i] == x[i - b.len()]);
        } else {
            assert(CharClass::Whitespace.has(c[i - b.len() - x.len()]));
            assert(field[i] == c[i - b.len() - x.len()]);
        }
    }
    assert(line =~= front + seq![':'] + field);
    law_second_field(front, field, field, ':');
    law_trimming_gives_back(b, x, c, CharClass::Whitespace);
}

/// The model and the release of the kernel are unknown where they are not told; a release that
/// is told is shown without the white space around it.
pub proof fn law_what_is_not_told_is_unknown(
    cpuinfo: Seq<char>,
    a: Seq<char>,
    x: Seq<char>,
    b: Seq<char>,
)
    requires
        forall|i: int| 0 <= i < a.len() ==> CharClass::Whitespace.has(#[trigger] a[i]),
        forall|i: int| 0 <= i < b.len() ==> CharClass::Whitespace.has(#[trigger] b[i]),
        x.len() > 0 ==> !CharClass::Whitespace.has(x[0]) && !CharClass::Whitespace.has(x.last()),
    ensures
        (forall|j: int|
            0 <= j < lines(cpuinfo).len() ==> !"model name"@.is_prefix_of(
                #[trigger] lines(cpuinfo)[j],
            )) ==> processor_model(cpuinfo) == "(unknown)"@,
        kernel_shown(None) == "(unknown)"@,
        kernel_shown(Some(a + x + b)) == x,
{
    if forall|j: int|
        0 <= j < lines(cpuinfo).len() ==> !"model name"@.is_prefix_of(
            #[trigger] lines(cpuinfo)[j],
        ) {
        lemma_first_with(lines(cpuinfo), "model name"@, lines(cpuinfo).len() as int);
    }
    law_trimming_gives_back(a, x, b, CharClass::Whitespace);
}

/// One processor more in the list is one more that is counted, however many there are; a line
/// of another kind changes nothing. Where none is listed, one is counted.
pub proof fn law_processors_are_counted(cpuinfo: Seq<char>, more: Seq<char>, line: Seq<char>)
    requires
        lines(more) == lines(cpuinfo).push(line),
    ensures
        "processor"@.is_prefix_of(line) && (exists|j: int|
            0 <= j < lines(cpuinfo).len() && "processor"@.is_prefix_of(
                #[trigger] lines(cpuinfo)[j],
            )) ==> processor_count(more) == processor_count(cpuinfo) + 1,
        "processor"@.is_prefix_of(line) && !(exists|j: int|
            0 <= j < lines(cpuinfo).len() && "processor"@.is_prefix_of(
                #[trigger] lines(cpuinfo)[j],
            )) ==> processor_count(more) == 1 && processor_count(cpuinfo) == 1,
        !"processor"@.is_prefix_of(line) ==> processor_count(more) == processor_count(cpuinfo),
{
    let all = lines(cpuinfo);
    let listed = |line: Seq<char>| "processor"@.is_prefix_of(line);
    all.lemma_filter_push(line, listed);
    if exists|j: int| 0 <= j < all.len() && "processor"@.is_prefix_of(#[trigger] all[j]) {
        let j = choose|j: int| 0 <= j < all.len() && "processor"@.is_prefix_of(#[trigger] all[j]);
        all.lemma_filter_contains(listed, j);
        assert(all.filter(listed).len() > 0);
    } else {
        if all.filter(listed).len() > 0 {
            let x = all.filter(listed)[0];
            assert(all.filter(listed).contains(x));
            all.lemma_filter_contains_rev(listed, x);
            let j = choose|j: int| 0 <= j < all.len() && all[j] == x;
            lemma_filtered(all, listed, 0);
            assert("processor"@.is_prefix_of(all[j]));
        }
    }
}

proof fn lemma_filtered(all: Seq<Seq<char>>, f: spec_fn(Seq<char>) -> bool, i: int)
    requires
        0 <= i < all.filter(f).len(),
    ensures
        f(all.filter(f)[i]),
    decreases all.len(),
{
    reveal(Seq::filter);
    if all.len() > 0 {
        let less = all.drop_last();
        if i < less.filter(f).len() {
            lemma_filtered(less, f, i);
        }
    }
}

/// The memory is 1024 times the number that is the second word of the first line that starts
/// with `MemTotal`.
pub proof fn law_memory_is_read(meminfo: Seq<char>, k: int, n: nat)
    requires
        0 <= k < lines(meminfo).len(),
        forall|j: int| 0 <= j < k ==> !"MemTotal"@.is_prefix_of(#[trigger] lines(meminfo)[j]),
        "MemTotal"@.is_prefix_of(lines(meminfo)[k]),
        words(lines(meminfo)[k]).len() > 1,
        words(lines(meminfo)[k])[1] == decimal(n),
        n <= u64::MAX,
    ensures
        memory_told(meminfo) == Some(n),
        memory_bytes(meminfo) == 1024 * n,
{
    lemma_first_with(lines(meminfo), "MemTotal"@, k);
    law_written_number_is_read_back(n, u64::MAX as nat);
}

/// No memory is told of where no line starts with `MemTotal`.
pub proof fn law_memory_may_not_be_told(meminfo: Seq<char>)
    requires
        forall|j: int|
            0 <= j < lines(meminfo).len() ==> !"MemTotal"@.is_prefix_of(
                #[trigger] lines(meminfo)[j],
            ),
    ensures
        memory_told(meminfo) is None,
        memory_bytes(meminfo) == 0,
{
    lemma_first_with(lines(meminfo), "MemTotal"@, lines(meminfo).len() as int);
}

/// The contents of a result with a borrowed text.
pub open spec fn read_view(r: Result<&str, &str>) -> Result<Seq<char>, Seq<char>> {
    match r {
        Ok(t) => Ok(t@),
        Err(e) => Err(e@),
    }
}

/// What the running system tells of itself, or which of the two files could not be read.
pub open spec fn system_asked(
    cpuinfo: Result<Seq<char>, Seq<char>>,
    meminfo: Result<Seq<char>, Seq<char>>,
    release: Option<Seq<char>>,
    host_arch: Seq<char>,
) -> Result<SystemView, Seq<char>> {
    match (cpuinfo, meminfo) {
        (Err(e), _) => Err("read /proc/cpuinfo: "@ + e),
        (Ok(_), Err(e)) => Err("read /proc/meminfo: "@ + e),
        (Ok(c), Ok(m)) => Ok(system_told(c, m, release, host_arch)),
    }
}

/// The system is told of exactly where both files could be read, even where the release of
/// the kernel could not; else the first failure is told.
pub proof fn law_system_fails_only_by_its_files(
    cpuinfo: Result<Seq<char>, Seq<char>>,
    meminfo: Result<Seq<char>, Seq<char>>,
    release: Option<Seq<char>>,
    host_arch: Seq<char>,
)
    ensures
        ({
            let r = system_asked(cpuinfo, meminfo, release, host_arch);
            &&& r is Ok <==> cpuinfo is Ok && meminfo is Ok
            &&& cpuinfo matches Err(e) ==> r == Err::<SystemView, Seq<char>>(
                "read /proc/cpuinfo: "@ + e,
            )
            &&& cpuinfo is Ok && meminfo is Err ==> r == Err::<SystemView, Seq<char>>(
                "read /proc/meminfo: "@ + meminfo->Err_0,
            )
            &&& r matches Ok(s) ==> s.arch == host_arch && s.cpu_model == processor_model(
                cpuinfo->Ok_0,
            ) && s.cpu_cores == processor_count(cpuinfo->Ok_0) && s.mem_total == memory_bytes(
                meminfo->Ok_0,
            ) && s.kernel == kernel_shown(release)
        }),
{
}

/// The contents of a result with a size.
pub open spec fn size_result(r: Result<u64, String>) -> Result<u64, Seq<char>> {
    match r {
        Ok(n) => Ok(n),
        Err(e) => Err(e@),
    }
}

/// The backend that works on the machine it runs on.
#[derive(Debug, Clone, Copy)]
pub struct RealBackend;

impl Default for RealBackend {
    fn default() -> (r: Self)
        ensures
            r == RealBackend,
    {
        RealBackend::new()
    }
}

impl RealBackend {
    /// The backend. It has no state of its own.
    pub fn new() -> (r: Self)
        ensures
            r == RealBackend,
    {
        RealBackend
    }

    /// The disks that can be installed on, from how `lsblk` went.
    pub fn list_disks(&self, lsblk: &Ran) -> (r: Result<Vec<DiskInfo>, String>)
        ensures
            match disks_told(lsblk@) {
                Ok(disks) => r matches Ok(v) && disk_views(v@) == disks,
                Err(e) => r matches Err(t) && t@ == e,
            },
    {
        match lsblk {
            Ran::NotStarted(e) => Err(start_failure("lsblk", e.as_str())),
            Ran::Ended { success, status, stdout, stderr } => {
                if *success {
                    Ok(installable_disks(stdout.as_str()))
                } else {
                    Err("lsblk failed".to_owned())
                }
            },
        }
    }

    /// The images to list, from what reading each gave: those that could be read, in the
    /// order of their file names.
    pub fn scan_images(&self, read: Vec<Result<ImageMetadata, String>>) -> (r: Result<
        Vec<ImageMetadata>,
        String,
    >)
        ensures
            r matches Ok(images) && is_sorting(
                image_views(images@),
                image_views(readable_images(read@)),
            ),
    {
        let ghost all = read@;
        let ghost pick = |m: Result<ImageMetadata, String>|
            match m {
                Ok(x) => Some(x),
                Err(_) => None,
            };
        let mut out: Vec<ImageMetadata> = Vec::new();
        assert(all.take(0).filter_map(pick) =~= Seq::empty());
        for m in it: read
            invariant
                it.seq() == all,
                pick == (|m: Result<ImageMetadata, String>|
                    match m {
                        Ok(x) => Some(x),
                        Err(_) => None,
                    }),
                out@ == all.take(it.index() as int).filter_map(pick),
        {
            proof {
                all.lemma_filter_map_take_succ(pick, it.index() as int);
            }
            match m {
                Ok(x) => {
                    out.push(x);
                },
                Err(_) => {},
            }
        }
        assert(all.take(all.len() as int) =~= all);
        Ok(sort_images(out))
    }

    /// What is known of an image: its size, as far as it could be told, and what it says of
    /// itself.
    pub fn read_image_metadata(
        &self,
        path: &str,
        size: Result<u64, String>,
        meta: GenpackMeta,
        host_arch: &str,
    ) -> (r: Result<ImageMetadata, String>)
        ensures
            match image_told(path@, size_result(size), meta@, host_arch@) {
                Ok(m) => r matches Ok(x) && x@ == m,
                Err(e) => r matches Err(t) && t@ == e,
            },
    {
        match size {
            Ok(n) => Ok(describe_image(path, n, meta, host_arch)),
            Err(e) => {
                let mut out = "stat failed: ".to_owned();
                out.append(e.as_str());
                Err(out)
            },
        }
    }

    /// What the running system tells of itself in `/proc/cpuinfo`, `/proc/meminfo` and the
    /// release of its kernel, as far as these could be read.
    pub fn system_info(
        &self,
        cpuinfo: Result<&str, &str>,
        meminfo: Result<&str, &str>,
        release: Option<&str>,
        host_arch: &str,
    ) -> (r: Result<SystemInfo, String>)
        requires
            cpuinfo is Ok && meminfo is Ok ==> memory_bytes(meminfo->Ok_0@) <= u64::MAX,
        ensures
            match system_asked(
                read_view(cpuinfo),
                read_view(meminfo),
                option_view(release),
                host_arch@,
            ) {
                Ok(s) => r matches Ok(info) && info@ == s,
                Err(e) => r matches Err(t) && t@ == e,
            },
    {
        let cpu = match cpuinfo {
            Ok(t) => t,
            Err(e) => {
                let mut out = "read /proc/cpuinfo: ".to_owned();
                out.append(e);
                return Err(out);
            },
        };
        let mem = match meminfo {
            Ok(t) => t,
            Err(e) => {
                let mut out = "read /proc/meminfo: ".to_owned();
                out.append(e);
                return Err(out);
            },
        };
        let mem_total: u64 = match memory_kib(mem) {
            Some(kib) => kib * 1024,
            None => 0,
        };
        let kernel: String = match release {
            Some(t) => trim(t).to_owned(),
            None => "(unknown)".to_owned(),
        };
        Ok(
            SystemInfo {
                cpu_model: cpu_model(cpu),
                cpu_cores: cpu_cores(cpu),
                mem_total,
                arch: host_arch.to_owned(),
                kernel,
            },
        )
    }

    /// An installation that is about to begin.
    pub fn install(&self, opts: &InstallOptions) -> (r: Installer)
        ensures
            r@.wf(),
            r@ == InstallView::start(opts@),
    {
        Installer::new(opts)
    }

    /// The result of starting the machine anew, from how `systemctl reboot` went.
    pub fn reboot(&self, ran: &Ran) -> (r: Result<(), String>)
        ensures
            outcome_view(r) == systemctl_result("reboot"@, ran@),
    {
        systemctl_outcome("reboot", ran)
    }

    /// The result of switching the machine off, from how `systemctl poweroff` went.
    pub fn poweroff(&self, ran: &Ran) -> (r: Result<(), String>)
        ensures
            outcome_view(r) == systemctl_result("poweroff"@, ran@),
    {
        systemctl_outcome("poweroff", ran)
    }
}

} // verus!
