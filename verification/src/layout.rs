//! How a disk is partitioned and formatted.

use vstd::prelude::*;

use crate::backend::GIB;
use crate::effects::option_view;
use crate::number::{
    decimal, decimal_text, law_written_number_is_read_back, lemma_decimal, parse_u64, parsed,
};
use crate::split::strings;
use crate::text::{is_digit, trim, trimmed, CharClass};
use crate::text_laws::law_trimming_gives_back;

verus! {

/// The largest disk, in bytes, that can be started by BIOS.
pub const BIOS_LIMIT: u64 = 0x200_0000_0000;

/// The smaller of `n` and the largest 64-bit number.
pub open spec fn saturated(n: nat) -> nat {
    if n > u64::MAX {
        u64::MAX as nat
    } else {
        n
    }
}

/// The capacity, in GiB, that a system image of `size` bytes needs: four at least, else
/// three times its size.
pub open spec fn least_capacity(size: nat) -> nat {
    let n = saturated(size * 3) / (GIB as nat) + 1;
    if n < 4 {
        4
    } else {
        n
    }
}

/// The capacity, in GiB, that a system image of `image_size` bytes needs.
pub fn least_capacity_gib(image_size: u64) -> (r: u64)
    ensures
        r == least_capacity(image_size as nat),
{
    let tripled: u64 = if image_size > u64::MAX / 3 {
        u64::MAX
    } else {
        image_size * 3
    };
    let n: u64 = tripled / GIB + 1;
    if n < 4 {
        4
    } else {
        n
    }
}

/// The number in an attribute file, or `otherwise`.
pub open spec fn attribute(text: Option<Seq<char>>, otherwise: nat) -> nat {
    match text {
        Some(t) => match parsed(trimmed(t), u64::MAX as nat) {
            Some(n) => n,
            None => otherwise,
        },
        None => otherwise,
    }
}

/// The number in an attribute file, or `otherwise`.
fn attribute_value(text: Option<&str>, otherwise: u64) -> (r: u64)
    ensures
        r == attribute(option_view(text), otherwise as nat),
{
    match text {
        Some(t) => match parse_u64(trim(t)) {
            Some(n) => n,
            None => otherwise,
        },
        None => otherwise,
    }
}

/// The bytes of a disk whose size attribute, in sectors of 512 bytes, is `sectors`.
pub open spec fn disk_bytes(sectors: Option<Seq<char>>) -> nat {
    saturated(attribute(sectors, 0) * 512)
}

/// The logical sector length of a disk.
pub open spec fn sector_length(block: Option<Seq<char>>) -> nat {
    attribute(block, 512)
}

/// The bytes of a disk and its logical sector length, from the texts of its two attributes.
pub fn disk_geometry(sectors: Option<&str>, block: Option<&str>) -> (r: (u64, u64))
    ensures
        r.0 == disk_bytes(option_view(sectors)),
        r.1 == sector_length(option_view(block)),
{
    let n: u64 = attribute_value(sectors, 0);
    let bytes: u64 = if n > u64::MAX / 512 {
        u64::MAX
    } else {
        n * 512
    };
    (bytes, attribute_value(block, 512))
}

/// A disk can be started by BIOS: it has 2 TiB at most and sectors of 512 bytes.
pub open spec fn starts_by_bios(bytes: nat, sector: nat) -> bool {
    bytes <= 2048 * GIB && sector == 512
}

/// Tells whether a disk can be started by BIOS.
pub fn bios_compatible(bytes: u64, sector: u64) -> (r: bool)
    ensures
        r == starts_by_bios(bytes as nat, sector as nat),
{
    bytes <= BIOS_LIMIT && sector == 512
}

/// The GiB of the boot partition: what the image needs where it goes there, else one.
pub open spec fn boot_gib(size: nat) -> nat {
    if crate::backend::fits_fat32(size) {
        least_capacity(size)
    } else {
        1
    }
}

/// The arguments of `parted` that partition a disk.
///
/// On an MBR label, `boot` is the flag for BIOS and `esp` the type for UEFI; on GPT, `boot`
/// alone gives the type for UEFI.
pub open spec fn parted_args(
    disk: Seq<char>,
    gib: nat,
    bios: bool,
    mark_esp: bool,
) -> Seq<Seq<char>> {
    let end = decimal(gib) + "GiB"@;
    let label = if bios {
        "msdos"@
    } else {
        "gpt"@
    };
    let common = seq![
        "--script"@,
        disk,
        "mklabel "@ + label,
        "mkpart primary fat32 1MiB "@ + end,
        "mkpart primary btrfs "@ + end + " -1"@,
        "set 1 boot on"@,
    ];
    if bios && mark_esp {
        common.push("set 1 esp on"@)
    } else {
        common
    }
}

/// The arguments of `parted` that partition a disk.
pub fn partition_commands(disk: &str, gib: u64, bios: bool, mark_esp: bool) -> (r: Vec<String>)
    ensures
        strings(r@) == parted_args(disk@, gib as nat, bios, mark_esp),
{
    let mut end = decimal_text(gib as u128);
    end.append("GiB");
    let mut label = "mklabel ".to_owned();
    label.append(
        if bios {
            "msdos"
        } else {
            "gpt"
        },
    );
    let mut boot = "mkpart primary fat32 1MiB ".to_owned();
    boot.append(end.as_str());
    let mut data = "mkpart primary btrfs ".to_owned();
    data.append(end.as_str());
    data.append(" -1");
    let mut args: Vec<String> = vec![
        "--script".to_owned(),
        disk.to_owned(),
        label,
        boot,
        data,
        "set 1 boot on".to_owned(),
    ];
    let ghost plain = parted_args(disk@, gib as nat, bios, false);
    assert(strings(args@) =~= plain);
    if bios && mark_esp {
        args.push("set 1 esp on".to_owned());
        assert(strings(args@) =~= plain.push("set 1 esp on"@));
    }
    args
}

/// The arguments of `mkfs.vfat` that format `device`. A whole disk needs a flag.
pub open spec fn vfat_args(device: Seq<char>, whole: bool) -> Seq<Seq<char>> {
    if whole {
        seq!["-F"@, "32"@, "-s"@, "32"@, "-I"@, "-n"@, "BOOT"@, device]
    } else {
        seq!["-F"@, "32"@, "-s"@, "32"@, "-n"@, "BOOT"@, device]
    }
}

/// The arguments of `mkfs.vfat` that format `device`.
pub fn vfat_arguments(device: &str, whole: bool) -> (r: Vec<String>)
    ensures
        strings(r@) == vfat_args(device@, whole),
{
    if whole {
        let args: Vec<String> = vec![
            "-F".to_owned(),
            "32".to_owned(),
            "-s".to_owned(),
            "32".to_owned(),
            "-I".to_owned(),
            "-n".to_owned(),
            "BOOT".to_owned(),
            device.to_owned(),
        ];
        assert(strings(args@) =~= vfat_args(device@, whole));
        args
    } else {
        let args: Vec<String> = vec![
            "-F".to_owned(),
            "32".to_owned(),
            "-s".to_owned(),
            "32".to_owned(),
            "-n".to_owned(),
            "BOOT".to_owned(),
            device.to_owned(),
        ];
        assert(strings(args@) =~= vfat_args(device@, whole));
        args
    }
}

/// The arguments of `mkfs.btrfs` that format the data partition. Its label holds the UUID
/// of the boot partition.
pub open spec fn btrfs_args(device: Seq<char>, boot_uuid: Seq<char>) -> Seq<Seq<char>> {
    seq!["-q"@, "-L"@, "data-"@ + boot_uuid, "-f"@, device]
}

/// The arguments of `mkfs.btrfs` that format the data partition.
pub fn btrfs_arguments(device: &str, boot_uuid: &str) -> (r: Vec<String>)
    ensures
        strings(r@) == btrfs_args(device@, boot_uuid@),
{
    let mut label = "data-".to_owned();
    label.append(boot_uuid);
    let args: Vec<String> = vec![
        "-q".to_owned(),
        "-L".to_owned(),
        label,
        "-f".to_owned(),
        device.to_owned(),
    ];
    assert(strings(args@) =~= btrfs_args(device@, boot_uuid@));
    args
}

/// The boot partition has four GiB at least where the image goes there, and room for three of
/// it, and no GiB more than that takes. Where the image does not go there, it has one GiB. The
/// image goes there where it is smaller than 4 GiB.
pub proof fn law_boot_partition_holds_the_image(size: nat)
    ensures
        size < 4 * 1024 * 1024 * 1024 ==> {
            &&& boot_gib(size) >= 4
            &&& 3 * size < boot_gib(size) * 1024 * 1024 * 1024
            &&& boot_gib(size) > 4 ==> (boot_gib(size) - 1) * 1024 * 1024 * 1024 <= 3 * size
        },
        size >= 4 * 1024 * 1024 * 1024 ==> boot_gib(size) == 1,
{
}

proof fn lemma_attribute(n: nat, white: Seq<char>)
    requires
        n <= u64::MAX,
        forall|i: int| 0 <= i < white.len() ==> CharClass::Whitespace.has(#[trigger] white[i]),
    ensures
        parsed(trimmed(decimal(n) + white), u64::MAX as nat) == Some(n),
{
    lemma_decimal(n);
    law_written_number_is_read_back(n, u64::MAX as nat);
    let x = decimal(n);
    assert(is_digit(x[0]) && is_digit(x[x.len() - 1]));
    law_trimming_gives_back(Seq::empty(), x, white, CharClass::Whitespace);
    assert(Seq::empty() + x + white =~= x + white);
}

/// A disk can be started by BIOS exactly where its sectors, 512 bytes each as they are counted
/// there, are 2 TiB at most, and its logical block has 512 bytes. A block length that is not
/// told counts as 512, a size that is not told as nothing.
pub proof fn law_bios_needs_a_small_disk(sectors: nat, block: nat, white: Seq<char>)
    requires
        sectors <= u64::MAX,
        block <= u64::MAX,
        forall|i: int| 0 <= i < white.len() ==> CharClass::Whitespace.has(#[trigger] white[i]),
    ensures
        ({
            let a = Some(decimal(sectors) + white);
            let b = Some(decimal(block) + white);
            let small = sectors * 512 <= 2 * 1024 * 1024 * 1024 * 1024;
            &&& starts_by_bios(disk_bytes(a), sector_length(b)) <==> small && block == 512
            &&& starts_by_bios(disk_bytes(a), sector_length(None)) <==> small
            &&& starts_by_bios(disk_bytes(None), sector_length(b)) <==> block == 512
            &&& starts_by_bios(disk_bytes(None), sector_length(None))
        }),
{
    lemma_attribute(sectors, white);
    lemma_attribute(block, white);
}

/// An attribute that is no number counts as one that is not told.
pub proof fn law_attributes_must_be_numbers(text: Seq<char>)
    requires
        parsed(trimmed(text), 0xffff_ffff_ffff_ffff) is None,
    ensures
        disk_bytes(Some(text)) == 0,
        sector_length(Some(text)) == 512,
{
}

/// A disk is given an MBR label where it is to start by BIOS, else a GPT label. The boot
/// partition reaches from 1 MiB to the GiB given, and the data partition from there to the end
/// of the disk. The first partition gets the flag for booting, and on an MBR label the type of
/// an EFI system partition, unless that is not wanted.
pub proof fn law_partitions_of_a_disk(disk: Seq<char>, gib: nat, bios: bool, mark_esp: bool)
    ensures
        ({
            let args = parted_args(disk, gib, bios, mark_esp);
            &&& args.len() == if bios && mark_esp {
                7int
            } else {
                6
            }
            &&& args[0] == "--script"@
            &&& args[1] == disk
            &&& bios ==> args[2] == "mklabel msdos"@
            &&& !bios ==> args[2] == "mklabel gpt"@
            &&& args[3] == "mkpart primary fat32 1MiB "@ + decimal(gib) + "GiB"@
            &&& args[4] == "mkpart primary btrfs "@ + decimal(gib) + "GiB -1"@
            &&& args[5] == "set 1 boot on"@
            &&& bios && mark_esp ==> args[6] == "set 1 esp on"@
        }),
{
    reveal_strlit("mklabel ");
    reveal_strlit("msdos");
    reveal_strlit("gpt");
    reveal_strlit("mklabel msdos");
    reveal_strlit("mklabel gpt");
    reveal_strlit("GiB");
    reveal_strlit(" -1");
    reveal_strlit("GiB -1");
    let args = parted_args(disk, gib, bios, mark_esp);
    assert("mklabel "@ + "msdos"@ =~= "mklabel msdos"@);
    assert("mklabel "@ + "gpt"@ =~= "mklabel gpt"@);
    assert("GiB"@ + " -1"@ =~= "GiB -1"@);
    assert(args[3] =~= "mkpart primary fat32 1MiB "@ + decimal(gib) + "GiB"@);
    assert(args[4] =~= "mkpart primary btrfs "@ + decimal(gib) + "GiB -1"@);
}

} // verus!
