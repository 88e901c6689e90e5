//! Laws on images: which are offered, in which order, and what is said of each.

use vstd::prelude::*;
use vstd::seq_lib::group_to_multiset_ensures;

use crate::backend::ImageView;
use crate::images::{
    artifact_of, banner_value, image_known, images_among, installable, is_sorting,
    is_squashfs_head, is_system_name, line_value, meta_told, name_le, named, ordinary_images,
    BootFileView, MetaView,
};
use crate::path::file_name_or_empty;
use crate::text::{trim_back, CharClass};
use crate::text_laws::{are_positions, law_trimming_gives_back, lemma_picked};

verus! {

/// An image fits the machine exactly where it tells no architecture or tells that of the
/// machine, whatever that is.
pub proof fn law_architecture_must_match(
    path: Seq<char>,
    size: u64,
    meta: MetaView,
    host_arch: Seq<char>,
)
    ensures
        meta.arch matches Some(a) && a.len() > 0 ==> (image_known(
            path,
            size,
            meta,
            host_arch,
        ).arch_match <==> meta.arch == Some(host_arch)),
        meta.arch == Some(""@) || meta.arch is None ==> image_known(
            path,
            size,
            meta,
            host_arch,
        ).arch_match,
{
    reveal_strlit("");
}

/// What an image says of itself is shown as it says it, with the path and the size of its
/// file.
pub proof fn law_image_speaks_for_itself(
    path: Seq<char>,
    size: u64,
    meta: MetaView,
    host_arch: Seq<char>,
)
    ensures
        ({
            let m = image_known(path, size, meta, host_arch);
            &&& m.path == path
            &&& m.size == size
            &&& m.filename == file_name_or_empty(path)
            &&& meta.arch matches Some(a) ==> m.arch == a
            &&& meta.arch is None ==> m.arch == ""@
            &&& meta.version matches Some(v) ==> m.version == v
            &&& meta.version is None ==> m.version == ""@
            &&& meta.banner matches Some(b) ==> m.banner == b
            &&& meta.banner is None ==> m.banner == ""@
            &&& (meta.artifact matches Some(a) && a.len() > 0) ==> m.artifact == meta.artifact->0
        }),
{
}

/// An image that tells no artifact is called by its file name, without `.squashfs` where it
/// ends so.
pub proof fn law_artifact_from_file_name(said: Option<Seq<char>>, name: Seq<char>)
    requires
        said is None || said == Some(""@),
    ensures
        artifact_of(said, name + ".squashfs"@) == name,
        !".squashfs"@.is_suffix_of(name) ==> artifact_of(said, name) == name,
{
    reveal_strlit("");
    reveal_strlit(".squashfs");
    let full = name + ".squashfs"@;
    assert(full.subrange(name.len() as int, full.len() as int) =~= ".squashfs"@);
    assert(".squashfs"@.is_suffix_of(full));
    assert(full.take(name.len() as int) =~= name);
}

/// A value that a file of one line gives is read without the white space around it, of
/// whatever length it is; what is blank gives none. A banner keeps its blanks and loses the
/// line ends behind it.
pub proof fn law_metadata_is_read(a: Seq<char>, x: Seq<char>, b: Seq<char>)
    requires
        forall|i: int| 0 <= i < a.len() ==> CharClass::Whitespace.has(#[trigger] a[i]),
        forall|i: int| 0 <= i < b.len() ==> CharClass::Whitespace.has(#[trigger] b[i]),
        x.len() > 0 ==> !CharClass::Whitespace.has(x[0]) && !CharClass::Whitespace.has(x.last()),
    ensures
        x.len() > 0 ==> line_value(Some(a + x + b)) == Some(x),
        x.len() == 0 ==> line_value(Some(a + x + b)) is None,
        line_value(None) is None,
{
    law_trimming_gives_back(a, x, b, CharClass::Whitespace);
}

/// Each of the four files gives what it is for, whatever the others say.
pub proof fn law_each_file_gives_its_own(
    arch: Option<Seq<char>>,
    artifact: Option<Seq<char>>,
    banner: Option<Seq<char>>,
    version: Option<Seq<char>>,
)
    ensures
        meta_told(arch, artifact, banner, version).arch == line_value(arch),
        meta_told(arch, artifact, banner, version).artifact == line_value(artifact),
        meta_told(arch, artifact, banner, version).banner == banner_value(banner),
        meta_told(arch, artifact, banner, version).version == line_value(version),
{
}

/// A banner is read whole but for the line ends behind it.
pub proof fn law_banner_is_read(x: Seq<char>, b: Seq<char>)
    requires
        forall|i: int| 0 <= i < b.len() ==> #[trigger] b[i] == '\n' || b[i] == '\r',
        x.len() > 0 ==> x.last() != '\n' && x.last() != '\r',
    ensures
        x.len() > 0 ==> banner_value(Some(x + b)) == Some(x),
        x.len() == 0 ==> banner_value(Some(x + b)) is None,
        banner_value(None) is None,
{
    lemma_line_ends(x, b);
}

proof fn lemma_line_ends(x: Seq<char>, b: Seq<char>)
    requires
        forall|i: int| 0 <= i < b.len() ==> #[trigger] b[i] == '\n' || b[i] == '\r',
        x.len() > 0 ==> x.last() != '\n' && x.last() != '\r',
    ensures
        trim_back(x + b, CharClass::LineEnd) == x,
    decreases b.len(),
{
    if b.len() == 0 {
        assert(x + b =~= x);
    } else {
        lemma_line_ends(x, b.drop_last());
        assert((x + b).drop_last() =~= x + b.drop_last());
        assert((x + b).last() == b[b.len() - 1]);
    }
}

/// Four bytes make an image: `hsqs`.
pub proof fn law_image_magic(head: Seq<u8>)
    ensures
        is_squashfs_head(Some(head)) <==> head.len() == 4 && head[0] == 'h' as u8 && head[1]
            == 's' as u8 && head[2] == 'q' as u8 && head[3] == 's' as u8,
        !is_squashfs_head(None),
{
    if head.len() == 4 && head[0] == 'h' as u8 && head[1] == 's' as u8 && head[2] == 'q' as u8
        && head[3] == 's' as u8 {
        assert(head =~= seq![0x68u8, 0x73u8, 0x71u8, 0x73u8]);
    }
}

/// One of the names does not start with `system.`.
pub open spec fn some_other_name<T>(items: Seq<(Seq<char>, T)>) -> bool {
    exists|i: int| 0 <= i < items.len() && !"system."@.is_prefix_of((#[trigger] items[i]).0)
}

/// What can be installed, whatever it is called and however much there is: where some name
/// does not start with `system.`, all with such names and no others; else all that are called
/// `system.img` and no others. They stay in their order.
pub proof fn law_what_can_be_installed<T>(items: Seq<(Seq<char>, T)>) -> (at: Seq<int>)
    ensures
        are_positions(at, items.len()),
        at.len() == installable(items).len(),
        forall|k: int| 0 <= k < at.len() ==> installable(items)[k] == items[#[trigger] at[k]].1,
        forall|i: int|
            0 <= i < items.len() ==> (#[trigger] at.contains(i) <==> if some_other_name(items) {
                !"system."@.is_prefix_of(items[i].0)
            } else {
                items[i].0 == "system.img"@
            }),
{
    let keep = |p: (Seq<char>, T)|
        if is_system_name(p.0) {
            None
        } else {
            Some(p.1)
        };
    let rescue = |p: (Seq<char>, T)|
        if p.0 == "system.img"@ {
            Some(p.1)
        } else {
            None
        };
    let at = lemma_picked(items, keep);
    if some_other_name(items) {
        let i = choose|i: int|
            0 <= i < items.len() && !"system."@.is_prefix_of((#[trigger] items[i]).0);
        assert(at.contains(i));
        assert(ordinary_images(items).len() > 0);
        at
    } else {
        if ordinary_images(items).len() > 0 {
            assert(at.contains(at[0]));
            assert(!"system."@.is_prefix_of(items[at[0]].0));
        }
        lemma_picked(items, rescue)
    }
}

/// The images among some files: the regular files that start with the bytes of an image, all
/// of them, in their order, each with its file name.
pub proof fn law_images_are_found(files: Seq<BootFileView>) -> (at: Seq<int>)
    ensures
        are_positions(at, files.len()),
        at.len() == images_among(files).len(),
        forall|k: int|
            0 <= k < at.len() ==> images_among(files)[k].1 == files[#[trigger] at[k]].path
                && images_among(files)[k].0 == file_name_or_empty(files[at[k]].path),
        forall|i: int|
            0 <= i < files.len() ==> (#[trigger] at.contains(i) <==> files[i].regular
                && files[i].head == Some(
                seq!['h' as u8, 's' as u8, 'q' as u8, 's' as u8],
            )),
{
    let f = |f: BootFileView|
        if f.regular && is_squashfs_head(f.head) {
            Some((file_name_or_empty(f.path), f.path))
        } else {
            None
        };
    assert(seq!['h' as u8, 's' as u8, 'q' as u8, 's' as u8] =~= seq![
        0x68u8,
        0x73u8,
        0x71u8,
        0x73u8,
    ]);
    lemma_picked(files, f)
}

/// Names are in order by the first character in which they differ; a name comes before those
/// that it starts.
pub proof fn law_names_compare(front: Seq<char>, a: Seq<char>, b: Seq<char>, x: char, y: char)
    ensures
        name_le(front, front + b),
        b.len() > 0 ==> !name_le(front + b, front),
        (x as int) < y as int ==> name_le(front + seq![x] + a, front + seq![y] + b) && !name_le(
            front + seq![y] + b,
            front + seq![x] + a,
        ),
    decreases front.len(),
{
    let p = front + seq![x] + a;
    let q = front + seq![y] + b;
    if front.len() > 0 {
        let less = front.skip(1);
        law_names_compare(less, a, b, x, y);
        assert((front + b).skip(1) =~= less + b);
        assert(p.skip(1) =~= less + seq![x] + a);
        assert(q.skip(1) =~= less + seq![y] + b);
    }
}

/// The list of images holds what was read, each as often as it was read, in the order of the
/// file names; those with the same name stay in their order.
pub proof fn law_sorting_loses_nothing(
    sorted: Seq<ImageView>,
    v: Seq<ImageView>,
    name: Seq<char>,
)
    requires
        is_sorting(sorted, v),
    ensures
        sorted.to_multiset() == v.to_multiset(),
        forall|i: int, j: int|
            0 <= i < j < sorted.len() ==> name_le(
                (#[trigger] sorted[i]).filename,
                (#[trigger] sorted[j]).filename,
            ),
        named(sorted, name) == v.filter(|m: ImageView| m.filename == name),
        named(sorted, name) == sorted.filter(|m: ImageView| m.filename == name),
{
    broadcast use group_to_multiset_ensures;

    assert forall|m: ImageView| #[trigger] sorted.to_multiset().count(m) == v.to_multiset().count(
        m,
    ) by {
        lemma_count_named(sorted, m);
        lemma_count_named(v, m);
        assert(named(sorted, m.filename) == named(v, m.filename));
    }
    assert(sorted.to_multiset() =~= v.to_multiset());
    assert(named(sorted, name) == named(v, name));
}

proof fn lemma_count_named(v: Seq<ImageView>, m: ImageView)
    ensures
        named(v, m.filename).to_multiset().count(m) == v.to_multiset().count(m),
    decreases v.len(),
{
    broadcast use group_to_multiset_ensures;

    let pred = |x: ImageView| x.filename == m.filename;
    reveal(Seq::filter);
    if v.len() > 0 {
        let rest = v.drop_last();
        lemma_count_named(rest, m);
        assert(v =~= rest.push(v.last()));
        if pred(v.last()) {
            assert(v.filter(pred) == rest.filter(pred).push(v.last()));
        } else {
            assert(v.filter(pred) == rest.filter(pred));
        }
    } else {
        assert(v.filter(pred) =~= v);
    }
}

} // verus!
