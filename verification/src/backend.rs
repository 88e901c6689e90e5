//! What the installer speaks about: disks, images, options, the system, progress.

use vstd::prelude::*;

use crate::number::{
    decimal, decimal_text, divide_half_even, double_spacing, law_doubles_are_near,
    lemma_round_half_even, nearest_double,
    nearest_double_of, round_half_even,
};

verus! {

/// One GiB in bytes.
pub const GIB: u64 = 0x4000_0000;

/// The size from which on a file does not fit on FAT32, in bytes.
pub const FAT32_LIMIT: u64 = 0x1_0000_0000;

/// A block device that the system may be installed on.
#[derive(Debug, Clone)]
pub struct DiskInfo {
    /// Device path, such as `/dev/nvme0n1`.
    pub path: String,
    /// Model name.
    pub model: String,
    /// Capacity in bytes.
    pub size: u64,
    /// Whether the device is removable.
    pub removable: bool,
}

/// The contents of a `DiskInfo`.
#[verifier::ext_equal]
pub struct DiskView {
    pub path: Seq<char>,
    pub model: Seq<char>,
    pub size: u64,
    pub removable: bool,
}

impl View for DiskInfo {
    type V = DiskView;

    open spec fn view(&self) -> DiskView {
        DiskView {
            path: self.path@,
            model: self.model@,
            size: self.size,
            removable: self.removable,
        }
    }
}

impl DiskInfo {
    /// The capacity for people to read, such as `1.8 TiB`.
    pub fn size_human(&self) -> (r: String)
        ensures
            r@ == readable_size(self@.size as nat),
    {
        human_size(self.size)
    }
}

/// What is known of a squashfs image.
#[derive(Debug, Clone)]
pub struct ImageMetadata {
    /// Path of the image file.
    pub path: String,
    /// File name, for display.
    pub filename: String,
    /// File size in bytes.
    pub size: u64,
    /// Architecture that the image is for, such as `x86_64`; empty if unknown.
    pub arch: String,
    /// Artifact name, the candidate for a host name.
    pub artifact: String,
    /// Banner, empty if there is none.
    pub banner: String,
    /// Version, empty if there is none.
    pub version: String,
    /// Whether the architecture is that of the running system, or unknown.
    pub arch_match: bool,
}

/// The contents of an `ImageMetadata`.
#[verifier::ext_equal]
pub struct ImageView {
    pub path: Seq<char>,
    pub filename: Seq<char>,
    pub size: u64,
    pub arch: Seq<char>,
    pub artifact: Seq<char>,
    pub banner: Seq<char>,
    pub version: Seq<char>,
    pub arch_match: bool,
}

impl View for ImageMetadata {
    type V = ImageView;

    open spec fn view(&self) -> ImageView {
        ImageView {
            path: self.path@,
            filename: self.filename@,
            size: self.size,
            arch: self.arch@,
            artifact: self.artifact@,
            banner: self.banner@,
            version: self.version@,
            arch_match: self.arch_match,
        }
    }
}

impl ImageMetadata {
    /// The file size for people to read.
    pub fn size_human(&self) -> (r: String)
        ensures
            r@ == readable_size(self@.size as nat),
    {
        human_size(self.size)
    }

    /// Tells whether the whole disk can be one FAT32 file system that holds the image.
    pub fn superfloppy_available(&self) -> (r: bool)
        ensures
            r == fits_fat32(self@.size as nat),
    {
        self.size < FAT32_LIMIT
    }
}

/// A file of `size` bytes fits on FAT32.
pub open spec fn fits_fat32(size: nat) -> bool {
    size < 4 * GIB
}

/// What an installation is asked to do.
#[derive(Debug, Clone)]
pub struct InstallOptions {
    /// The disk to install on.
    pub disk: String,
    /// The image to install.
    pub image: String,
    /// Make the whole disk one FAT32 file system, without partitions.
    pub superfloppy: bool,
    pub timezone: String,
    pub locale: String,
    pub hostname: String,
    /// The public keys that were entered; empty where none are wanted. An installation writes
    /// nothing for them.
    pub ssh_pubkey: String,
}

/// The contents of an `InstallOptions`.
#[verifier::ext_equal]
pub struct OptionsView {
    pub disk: Seq<char>,
    pub image: Seq<char>,
    pub superfloppy: bool,
    pub timezone: Seq<char>,
    pub locale: Seq<char>,
    pub hostname: Seq<char>,
    pub ssh_pubkey: Seq<char>,
}

impl View for InstallOptions {
    type V = OptionsView;

    open spec fn view(&self) -> OptionsView {
        OptionsView {
            disk: self.disk@,
            image: self.image@,
            superfloppy: self.superfloppy,
            timezone: self.timezone@,
            locale: self.locale@,
            hostname: self.hostname@,
            ssh_pubkey: self.ssh_pubkey@,
        }
    }
}

/// What is known of the running system.
#[derive(Debug, Clone)]
pub struct SystemInfo {
    pub cpu_model: String,
    pub cpu_cores: usize,
    pub mem_total: u64,
    pub arch: String,
    pub kernel: String,
}

/// The contents of a `SystemInfo`.
#[verifier::ext_equal]
pub struct SystemView {
    pub cpu_model: Seq<char>,
    pub cpu_cores: nat,
    pub mem_total: nat,
    pub arch: Seq<char>,
    pub kernel: Seq<char>,
}

impl View for SystemInfo {
    type V = SystemView;

    open spec fn view(&self) -> SystemView {
        SystemView {
            cpu_model: self.cpu_model@,
            cpu_cores: self.cpu_cores as nat,
            mem_total: self.mem_total as nat,
            arch: self.arch@,
            kernel: self.kernel@,
        }
    }
}

/// A share of a whole: `done` out of `whole`.
#[derive(Debug, Clone, Copy, PartialEq, Eq, Structural)]
pub struct Ratio {
    pub done: u64,
    pub whole: u64,
}

/// One report on a running installation.
#[derive(Debug, Clone, Copy)]
pub struct Progress<'a> {
    /// Number of the current step, counted from one.
    pub step: usize,
    /// Number of all steps.
    pub total: usize,
    /// What the current step does.
    pub message: &'a str,
    /// How much of the step is done, where that can be told.
    pub fraction: Option<Ratio>,
}

/// The contents of a `Progress`.
#[verifier::ext_equal]
pub struct ProgressView {
    pub step: nat,
    pub total: nat,
    pub message: Seq<char>,
    pub fraction: Option<Ratio>,
}

impl<'a> View for Progress<'a> {
    type V = ProgressView;

    open spec fn view(&self) -> ProgressView {
        ProgressView {
            step: self.step as nat,
            total: self.total as nat,
            message: self.message@,
            fraction: self.fraction,
        }
    }
}

/// The unit in which a size is written: the largest of six that the size reaches.
pub open spec fn size_unit(n: nat) -> nat {
    if n < 0x400 {
        0
    } else if n < 0x10_0000 {
        1
    } else if n < 0x4000_0000 {
        2
    } else if n < 0x100_0000_0000 {
        3
    } else if n < 0x4_0000_0000_0000 {
        4
    } else {
        5
    }
}

/// The bytes in one of the unit `u`.
pub open spec fn unit_bytes(u: nat) -> nat {
    if u == 0 {
        1
    } else if u == 1 {
        0x400
    } else if u == 2 {
        0x10_0000
    } else if u == 3 {
        0x4000_0000
    } else if u == 4 {
        0x100_0000_0000
    } else {
        0x4_0000_0000_0000
    }
}

/// The name of the unit `u`.
pub open spec fn unit_name(u: nat) -> Seq<char> {
    if u == 0 {
        "B"@
    } else if u == 1 {
        "KiB"@
    } else if u == 2 {
        "MiB"@
    } else if u == 3 {
        "GiB"@
    } else if u == 4 {
        "TiB"@
    } else {
        "PiB"@
    }
}

/// The tenths of its unit that a size of `bytes` is written with. The size is taken in
/// double precision and the tenths are rounded to the nearest, ties to even.
pub open spec fn size_tenths(bytes: nat) -> nat {
    let n = nearest_double(bytes);
    round_half_even(n * 10, unit_bytes(size_unit(n)))
}

/// A number of bytes as people read it.
pub open spec fn readable_size(bytes: nat) -> Seq<char> {
    let u = size_unit(nearest_double(bytes));
    if u == 0 {
        decimal(bytes) + " "@ + unit_name(0)
    } else {
        let t = size_tenths(bytes);
        decimal(t / 10) + "."@ + decimal(t % 10) + " "@ + unit_name(u)
    }
}

/// The bytes in the unit in which `n` bytes are written, and the unit's name.
fn unit_of(n: u128) -> (r: (u128, &'static str))
    ensures
        r.0 == unit_bytes(size_unit(n as nat)),
        r.1@ == unit_name(size_unit(n as nat)),
{
    if n < 0x400 {
        (1, "B")
    } else if n < 0x10_0000 {
        (0x400, "KiB")
    } else if n < 0x4000_0000 {
        (0x10_0000, "MiB")
    } else if n < 0x100_0000_0000 {
        (0x4000_0000, "GiB")
    } else if n < 0x4_0000_0000_0000 {
        (0x100_0000_0000, "TiB")
    } else {
        (0x4_0000_0000_0000, "PiB")
    }
}

/// Writes a number of bytes for people to read.
pub fn human_size(bytes: u64) -> (r: String)
    ensures
        r@ == readable_size(bytes as nat),
{
    let n = nearest_double_of(bytes);
    let (unit, name) = unit_of(n);
    if n < 0x400 {
        let mut out = decimal_text(bytes as u128);
        out.append(" ");
        out.append(name);
        out
    } else {
        let tenths: u128 = divide_half_even(n * 10, unit);
        let mut out = decimal_text(tenths / 10);
        out.append(".");
        out.append(decimal_text(tenths % 10).as_str());
        out.append(" ");
        out.append(name);
        out
    }
}

/// A number below 2^53 has an exact double-precision number.
pub proof fn lemma_exact_double(n: nat)
    requires
        n < 0x20_0000_0000_0000,
    ensures
        nearest_double(n) == n,
{
    assert(double_spacing(n) == 1);
    assert(n / 1 == n && n % 1 == 0);
}

/// A written size is off by at most one twentieth of its unit, as long as the size has an
/// exact double-precision number.
pub proof fn law_readable_size_is_near(bytes: nat)
    requires
        bytes < 0x20_0000_0000_0000,
    ensures
        ({
            let unit = unit_bytes(size_unit(bytes)) as int;
            -unit <= 2 * (size_tenths(bytes) * unit - 10 * bytes) <= unit
        }),
{
    lemma_exact_double(bytes);
    let unit = unit_bytes(size_unit(bytes));
    lemma_round_half_even(bytes * 10, unit);
    assert(unit * size_tenths(bytes) == size_tenths(bytes) * unit) by (nonlinear_arith);
}

/// The number of bytes that a unit stands for.
pub open spec fn bytes_of_unit(unit: Seq<char>, bytes: nat) -> bool {
    ||| unit == "KiB"@ && bytes == 1024
    ||| unit == "MiB"@ && bytes == 1024 * 1024
    ||| unit == "GiB"@ && bytes == 1024 * 1024 * 1024
    ||| unit == "TiB"@ && bytes == 1024 * 1024 * 1024 * 1024
    ||| unit == "PiB"@ && bytes == 1024 * 1024 * 1024 * 1024 * 1024
}

/// A size below 1024 bytes is written as it is. Any other is written in the largest unit that
/// it reaches, up to PiB, with one decimal place, to the nearest tenth; as long as the size has
/// an exact double-precision number.
pub proof fn law_size_is_written_in_its_unit(bytes: nat, unit: Seq<char>, of: nat)
    requires
        bytes < 0x20_0000_0000_0000,
    ensures
        bytes < 1024 ==> readable_size(bytes) == decimal(bytes) + " B"@,
        bytes_of_unit(unit, of) && of <= bytes && (bytes < 1024 * of || unit == "PiB"@)
            ==> exists|t: nat| #[trigger]
            is_tenths(bytes, of, t) && readable_size(bytes) == decimal(t / 10) + "."@ + decimal(
                t % 10,
            ) + " "@ + unit,
{
    lemma_exact_double(bytes);
    reveal_strlit(" ");
    reveal_strlit("B");
    reveal_strlit(" B");
    assert(" "@ + "B"@ =~= " B"@);
    if bytes < 1024 {
        assert(readable_size(bytes) =~= decimal(bytes) + " B"@);
    }
    if bytes_of_unit(unit, of) && of <= bytes && (bytes < 1024 * of || unit == "PiB"@) {
        reveal_strlit("KiB");
        reveal_strlit("MiB");
        reveal_strlit("GiB");
        reveal_strlit("TiB");
        reveal_strlit("PiB");
        assert("KiB"@[0] == 'K' && "MiB"@[0] == 'M' && "GiB"@[0] == 'G' && "TiB"@[0] == 'T'
            && "PiB"@[0] == 'P');
        law_readable_size_is_near(bytes);
        let t = size_tenths(bytes);
        assert(unit_bytes(size_unit(bytes)) == of);
        assert(is_tenths(bytes, of, t));
    }
}

/// A size of 2^53 bytes or more is written in PiB, with one decimal place, to the nearest tenth
/// but for the few bytes that a double-precision number is off.
pub proof fn law_huge_size_is_written_in_pib(bytes: nat) -> (t: nat)
    requires
        0x20_0000_0000_0000 <= bytes <= u64::MAX,
    ensures
        readable_size(bytes) == decimal(t / 10) + "."@ + decimal(t % 10) + " PiB"@,
        ({
            let pib: int = 0x4_0000_0000_0000;
            -pib - 40960 < 2 * (t * pib - 10 * bytes) < pib + 40960
        }),
{
    let n = nearest_double(bytes);
    let t = size_tenths(bytes);
    law_doubles_are_near(bytes);
    lemma_round_half_even(n * 10, 0x4_0000_0000_0000);
    assert(size_unit(n) == 5);
    reveal_strlit(" ");
    reveal_strlit("PiB");
    reveal_strlit(" PiB");
    assert(" "@ + "PiB"@ =~= " PiB"@);
    assert(readable_size(bytes) =~= decimal(t / 10) + "."@ + decimal(t % 10) + " PiB"@);
    t
}

/// `t` tenths of a unit of `of` bytes are the nearest to `bytes` bytes.
pub open spec fn is_tenths(bytes: nat, of: nat, t: nat) -> bool {
    -(of as int) <= 2 * (t * of - 10 * bytes) <= of
}

/// An image can go onto a disk that is one file system exactly where it is smaller than 4 GiB.
pub proof fn law_fat32_holds_less_than_four_gib(size: nat)
    ensures
        fits_fat32(size) <==> size < 4 * 1024 * 1024 * 1024,
{
}

} // verus!
