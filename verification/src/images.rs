//! The images that can be installed: telling them, choosing among them, describing them.

use vstd::prelude::*;

use crate::backend::{ImageMetadata, ImageView};
use crate::effects::{option_view, owned_view};
use crate::image_laws::law_architecture_must_match;
use crate::path::{file_name_or_empty, file_name_text};
use crate::split::strings;
use crate::text::{before, chars_of, ends_with, same, starts_with, trim, trim_back, trim_end_of, trimmed, CharClass};

verus! {

/// The first bytes of a file are those of a squashfs image.
pub open spec fn is_squashfs_head(head: Option<Seq<u8>>) -> bool {
    head == Some(seq![0x68u8, 0x73u8, 0x71u8, 0x73u8])
}

/// The contents of optional bytes.
pub open spec fn bytes_view(o: Option<Vec<u8>>) -> Option<Seq<u8>> {
    match o {
        Some(b) => Some(b@),
        None => None,
    }
}

/// Tells whether the first four bytes of a file, where they could be read, are those of a
/// squashfs image.
pub fn has_squashfs_magic(head: &Option<Vec<u8>>) -> (r: bool)
    ensures
        r == is_squashfs_head(bytes_view(*head)),
{
    match head {
        Some(b) => {
            let yes = b.len() == 4 && b[0] == 0x68 && b[1] == 0x73 && b[2] == 0x71 && b[3] == 0x73;
            proof {
                if yes {
                    assert(b@ =~= seq![0x68u8, 0x73u8, 0x71u8, 0x73u8]);
                }
            }
            yes
        },
        None => false,
    }
}

/// A file of that name belongs to the running system, not to what can be installed.
pub open spec fn is_system_name(name: Seq<char>) -> bool {
    "system."@.is_prefix_of(name)
}

/// The values of the files that do not belong to the running system.
pub open spec fn ordinary_images<T>(items: Seq<(Seq<char>, T)>) -> Seq<T> {
    items.filter_map(
        |p: (Seq<char>, T)|
            if is_system_name(p.0) {
                None
            } else {
                Some(p.1)
            },
    )
}

/// The values of the files called `system.img`.
pub open spec fn rescue_images<T>(items: Seq<(Seq<char>, T)>) -> Seq<T> {
    items.filter_map(
        |p: (Seq<char>, T)|
            if p.0 == "system.img"@ {
                Some(p.1)
            } else {
                None
            },
    )
}

/// What can be installed out of the images found, each with its file name: those that do
/// not belong to the running system; where there are none, those called `system.img`.
pub open spec fn installable<T>(items: Seq<(Seq<char>, T)>) -> Seq<T> {
    if ordinary_images(items).len() > 0 {
        ordinary_images(items)
    } else {
        rescue_images(items)
    }
}

/// Values with the contents of their names.
pub open spec fn named_values<T>(items: Seq<(String, T)>) -> Seq<(Seq<char>, T)> {
    items.map_values(|p: (String, T)| (p.0@, p.1))
}

/// What can be installed out of the images found, each with its file name.
///
/// Files called `system.` and something belong to the running system and are left out. Only
/// where nothing else is there, `system.img` is kept.
pub fn filter_installable_images<T>(items: Vec<(String, T)>) -> (r: Vec<T>)
    ensures
        r@ == installable(named_values(items@)),
{
    let ghost all = named_values(items@);
    let ghost keep = |p: (Seq<char>, T)|
        if is_system_name(p.0) {
            None
        } else {
            Some(p.1)
        };
    let ghost rescue = |p: (Seq<char>, T)|
        if p.0 == "system.img"@ {
            Some(p.1)
        } else {
            None
        };
    let mut others: Vec<T> = Vec::new();
    let mut rescued: Vec<T> = Vec::new();
    proof {
        assert(all.take(0).filter_map(keep) =~= Seq::empty());
        assert(all.take(0).filter_map(rescue) =~= Seq::empty());
        lemma_rescue_is_system();
    }
    for p in it: items
        invariant
            named_values(it.seq()) == all,
            is_system_name("system.img"@),
            keep == (|p: (Seq<char>, T)|
                if is_system_name(p.0) {
                    None
                } else {
                    Some(p.1)
                }),
            rescue == (|p: (Seq<char>, T)|
                if p.0 == "system.img"@ {
                    Some(p.1)
                } else {
                    None
                }),
            others@ == all.take(it.index() as int).filter_map(keep),
            rescued@ == all.take(it.index() as int).filter_map(rescue),
    {
        proof {
            all.lemma_filter_map_take_succ(keep, it.index() as int);
            all.lemma_filter_map_take_succ(rescue, it.index() as int);
        }
        let (name, value) = p;
        if !starts_with(name.as_str(), "system.") {
            others.push(value);
        } else if same(name.as_str(), "system.img") {
            rescued.push(value);
        }
    }
    assert(all.take(all.len() as int) =~= all);
    if others.len() > 0 {
        others
    } else {
        rescued
    }
}

proof fn lemma_rescue_is_system()
    ensures
        is_system_name("system.img"@),
{
    reveal_strlit("system.");
    reveal_strlit("system.img");
    assert("system.img"@.subrange(0, 7) =~= "system."@);
}

/// A system image is installable only for want of anything else: then every value has a
/// file name that belongs to the running system.
pub proof fn law_system_images_are_the_last_resort<T>(items: Seq<(Seq<char>, T)>)
    ensures
        (exists|i: int| 0 <= i < items.len() && !is_system_name((#[trigger] items[i]).0)) ==> (
        installable(items) == ordinary_images(items) && installable(items).len() > 0),
        (forall|i: int| 0 <= i < items.len() ==> is_system_name((#[trigger] items[i]).0)) ==> (
        installable(items) == rescue_images(items)),
{
    lemma_ordinary(items);
}

/// Beside an image that does not belong to the running system, those that do change nothing.
pub proof fn law_system_images_change_nothing<T>(items: Seq<(Seq<char>, T)>)
    requires
        exists|i: int| 0 <= i < items.len() && !is_system_name((#[trigger] items[i]).0),
    ensures
        installable(items.filter(|p: (Seq<char>, T)| !is_system_name(p.0))) == installable(items),
{
    lemma_ordinary(items);
    lemma_without_system(items);
}

proof fn lemma_without_system<T>(items: Seq<(Seq<char>, T)>)
    ensures
        ordinary_images(items.filter(|p: (Seq<char>, T)| !is_system_name(p.0))) == ordinary_images(
            items,
        ),
    decreases items.len(),
{
    reveal(Seq::filter);
    let kept = |p: (Seq<char>, T)| !is_system_name(p.0);
    if items.len() > 0 {
        let rest = items.drop_last();
        lemma_without_system(rest);
        if kept(items.last()) {
            assert(items.filter(kept) == rest.filter(kept).push(items.last()));
            assert(items.filter(kept).drop_last() =~= rest.filter(kept));
        }
    }
}

/// What is installable has a file name with it that says so.
proof fn lemma_installable_has_name<T>(items: Seq<(Seq<char>, T)>, value: T)
    requires
        installable(items).contains(value),
    ensures
        exists|i: int|
            0 <= i < items.len() && (#[trigger] items[i]).1 == value && if ordinary_images(
                items,
            ).len() > 0 {
                !is_system_name(items[i].0)
            } else {
                items[i].0 == "system.img"@
            },
{
    let keep = |p: (Seq<char>, T)|
        if is_system_name(p.0) {
            None
        } else {
            Some(p.1)
        };
    let rescue = |p: (Seq<char>, T)|
        if p.0 == "system.img"@ {
            Some(p.1)
        } else {
            None
        };
    if ordinary_images(items).len() > 0 {
        items.lemma_filter_map_contains(keep, value);
        let p = choose|p: (Seq<char>, T)| #[trigger] items.contains(p) && keep(p) == Some(value);
        let i = choose|i: int| 0 <= i < items.len() && items[i] == p;
        assert(items[i].1 == value);
    } else {
        items.lemma_filter_map_contains(rescue, value);
        let p = choose|p: (Seq<char>, T)| #[trigger] items.contains(p) && rescue(p) == Some(value);
        let i = choose|i: int| 0 <= i < items.len() && items[i] == p;
        assert(items[i].1 == value);
    }
}

proof fn lemma_ordinary<T>(items: Seq<(Seq<char>, T)>)
    ensures
        ordinary_images(items).len() > 0 <==> exists|i: int|
            0 <= i < items.len() && !is_system_name((#[trigger] items[i]).0),
    decreases items.len(),
{
    if items.len() > 0 {
        let rest = items.drop_last();
        lemma_ordinary(rest);
        assert(items.last() == items[items.len() - 1]);
        if exists|i: int| 0 <= i < items.len() && !is_system_name((#[trigger] items[i]).0) {
            let k = choose|i: int|
                0 <= i < items.len() && !is_system_name((#[trigger] items[i]).0);
            if k < items.len() - 1 {
                assert(rest[k] == items[k]);
            }
        } else {
            assert(forall|i: int| 0 <= i < rest.len() ==> (#[trigger] rest[i]) == items[i]);
        }
    }
}

/// A file where images are looked for.
#[derive(Debug)]
pub struct BootFile {
    /// Path of the file.
    pub path: String,
    /// Whether it is a regular file, or a link to one.
    pub regular: bool,
    /// Its first four bytes, where they could be read.
    pub head: Option<Vec<u8>>,
}

/// The contents of a `BootFile`.
pub struct BootFileView {
    pub path: Seq<char>,
    pub regular: bool,
    pub head: Option<Seq<u8>>,
}

impl View for BootFile {
    type V = BootFileView;

    open spec fn view(&self) -> BootFileView {
        BootFileView { path: self.path@, regular: self.regular, head: bytes_view(self.head) }
    }
}

/// The paths of the images among some files, each with its file name.
pub open spec fn images_among(files: Seq<BootFileView>) -> Seq<(Seq<char>, Seq<char>)> {
    files.filter_map(
        |f: BootFileView|
            if f.regular && is_squashfs_head(f.head) {
                Some((file_name_or_empty(f.path), f.path))
            } else {
                None
            },
    )
}

/// Values with the contents of their names and their own.
spec fn named_texts(items: Seq<(String, String)>) -> Seq<(Seq<char>, Seq<char>)> {
    items.map_values(|p: (String, String)| (p.0@, p.1@))
}

proof fn lemma_installable_texts(items: Seq<(String, String)>)
    ensures
        strings(ordinary_images(named_values(items))) == ordinary_images(named_texts(items)),
        strings(rescue_images(named_values(items))) == rescue_images(named_texts(items)),
    decreases items.len(),
{
    if items.len() > 0 {
        let rest = items.drop_last();
        lemma_installable_texts(rest);
        assert(named_values(items).drop_last() =~= named_values(rest));
        assert(named_texts(items).drop_last() =~= named_texts(rest));
    }
    assert(strings(ordinary_images(named_values(items))) =~= ordinary_images(named_texts(items)));
    assert(strings(rescue_images(named_values(items))) =~= rescue_images(named_texts(items)));
}

/// The contents of the files where images are looked for; none where they cannot be listed.
pub open spec fn found_files(files: Option<Vec<BootFile>>) -> Seq<BootFileView> {
    match files {
        Some(v) => v@.map_values(|f: BootFile| f@),
        None => Seq::empty(),
    }
}

/// The paths of the images that can be installed, among the files where they are looked for.
pub fn image_candidates(files: Option<Vec<BootFile>>) -> (r: Vec<String>)
    ensures
        strings(r@) == installable(images_among(found_files(files))),
{
    let ghost all = found_files(files);
    let ghost pick = |f: BootFileView|
        if f.regular && is_squashfs_head(f.head) {
            Some((file_name_or_empty(f.path), f.path))
        } else {
            None
        };
    let every = match files {
        Some(v) => v,
        None => Vec::new(),
    };
    let mut found: Vec<(String, String)> = Vec::new();
    assert(every@.map_values(|f: BootFile| f@) =~= all);
    assert(all.take(0).filter_map(pick) =~= named_texts(found@));
    for f in it: every
        invariant
            it.seq().map_values(|f: BootFile| f@) == all,
            pick == (|f: BootFileView|
                if f.regular && is_squashfs_head(f.head) {
                    Some((file_name_or_empty(f.path), f.path))
                } else {
                    None
                }),
            named_texts(found@) == all.take(it.index() as int).filter_map(pick),
    {
        let ghost seen = f@;
        proof {
            all.lemma_filter_map_take_succ(pick, it.index() as int);
            assert(all[it.index() as int] == seen);
        }
        if f.regular && has_squashfs_magic(&f.head) {
            let ghost was = found@;
            let name = file_name_text(f.path.as_str()).to_owned();
            found.push((name, f.path));
            assert(named_texts(found@) =~= named_texts(was).push(
                (file_name_or_empty(seen.path), seen.path),
            ));
        }
    }
    assert(all.take(all.len() as int) =~= all);
    proof {
        lemma_installable_texts(found@);
    }
    filter_installable_images(found)
}

/// The order of names: that of their first characters that differ, the shorter first where
/// none does.
pub open spec fn name_le(a: Seq<char>, b: Seq<char>) -> bool
    decreases a.len(),
{
    if a.len() == 0 {
        true
    } else if b.len() == 0 {
        false
    } else if a[0] == b[0] {
        name_le(a.skip(1), b.skip(1))
    } else {
        (a[0] as int) < b[0] as int
    }
}

proof fn lemma_name_le_trans(a: Seq<char>, b: Seq<char>, c: Seq<char>)
    requires
        name_le(a, b),
        name_le(b, c),
    ensures
        name_le(a, c),
    decreases a.len(),
{
    if a.len() > 0 && a[0] == b[0] && b[0] == c[0] {
        lemma_name_le_trans(a.skip(1), b.skip(1), c.skip(1));
    }
}

proof fn lemma_name_le_total(a: Seq<char>, b: Seq<char>)
    ensures
        name_le(a, b) || name_le(b, a),
        name_le(a, b) && name_le(b, a) ==> a == b,
    decreases a.len(),
{
    if a.len() > 0 && b.len() > 0 && a[0] == b[0] {
        lemma_name_le_total(a.skip(1), b.skip(1));
        if name_le(a, b) && name_le(b, a) {
            assert(a =~= seq![a[0]] + a.skip(1));
            assert(b =~= seq![b[0]] + b.skip(1));
        }
    } else if a.len() == 0 && b.len() == 0 {
        assert(a =~= b);
    }
}

/// The order of names is one: each name is not above itself, two that are not above each
/// other are the same, and it carries over.
pub proof fn law_names_are_ordered(a: Seq<char>, b: Seq<char>, c: Seq<char>)
    ensures
        name_le(a, a),
        name_le(a, b) || name_le(b, a),
        name_le(a, b) && name_le(b, a) ==> a == b,
        name_le(a, b) && name_le(b, c) ==> name_le(a, c),
{
    lemma_name_le_total(a, a);
    lemma_name_le_total(a, b);
    if name_le(a, b) && name_le(b, c) {
        lemma_name_le_trans(a, b, c);
    }
}

/// Tells whether `x` comes before `y` among all characters.
fn char_below(x: char, y: char) -> (r: bool)
    ensures
        r == ((x as int) < y as int),
{
    (x as u32) < y as u32
}

/// Tells whether `a` is not above `b` in the order of names.
fn name_not_above(a: &str, b: &str) -> (r: bool)
    ensures
        r == name_le(a@, b@),
{
    let v = chars_of(a);
    let w = chars_of(b);
    let mut i: usize = 0;
    assert(a@.skip(0) =~= a@);
    assert(b@.skip(0) =~= b@);
    while i < v.len()
        invariant
            v@ == a@,
            w@ == b@,
            i <= v@.len(),
            i <= w@.len(),
            name_le(a@, b@) == name_le(a@.skip(i as int), b@.skip(i as int)),
        decreases v@.len() - i,
    {
        if i >= w.len() {
            return false;
        }
        if v[i] != w[i] {
            return char_below(v[i], w[i]);
        }
        assert(a@.skip(i as int).skip(1) =~= a@.skip(i + 1));
        assert(b@.skip(i as int).skip(1) =~= b@.skip(i + 1));
        i = i + 1;
    }
    true
}

/// The contents of a list of images.
pub open spec fn image_views(v: Seq<ImageMetadata>) -> Seq<ImageView> {
    v.map_values(|m: ImageMetadata| m@)
}

/// The images with the file name `name`, in their order.
pub open spec fn named(v: Seq<ImageView>, name: Seq<char>) -> Seq<ImageView> {
    v.filter(|m: ImageView| m.filename == name)
}

/// The images are in the order of their file names.
pub open spec fn in_name_order(v: Seq<ImageView>) -> bool {
    forall|i: int, j: int|
        0 <= i < j < v.len() ==> name_le((#[trigger] v[i]).filename, (#[trigger] v[j]).filename)
}

/// `sorted` is `v` in the order of file names. Those with the same name stay in their order.
pub open spec fn is_sorting(sorted: Seq<ImageView>, v: Seq<ImageView>) -> bool {
    &&& in_name_order(sorted)
    &&& sorted.len() == v.len()
    &&& forall|name: Seq<char>| #[trigger] named(sorted, name) == named(v, name)
}

/// What is inserted behind all that are not above it keeps the order, and comes last of
/// those with its name.
proof fn lemma_inserted(v: Seq<ImageView>, x: ImageView, p: int)
    requires
        in_name_order(v),
        0 <= p <= v.len(),
        p > 0 ==> name_le(v[p - 1].filename, x.filename),
        p < v.len() ==> !name_le(v[p].filename, x.filename),
    ensures
        in_name_order(v.insert(p, x)),
        forall|name: Seq<char>| #[trigger]
            named(v.insert(p, x), name) == named(v.push(x), name),
{
    let w = v.insert(p, x);
    assert forall|i: int| p <= i < v.len() implies !name_le(
        (#[trigger] v[i]).filename,
        x.filename,
    ) && name_le(x.filename, v[i].filename) by {
        if i > p {
            assert(name_le(v[p].filename, v[i].filename));
            if name_le(v[i].filename, x.filename) {
                lemma_name_le_trans(v[p].filename, v[i].filename, x.filename);
            }
        }
        lemma_name_le_total(v[i].filename, x.filename);
    }
    assert forall|i: int| 0 <= i < p implies name_le((#[trigger] v[i]).filename, x.filename) by {
        if i < p - 1 {
            assert(name_le(v[i].filename, v[p - 1].filename));
            lemma_name_le_trans(v[i].filename, v[p - 1].filename, x.filename);
        }
    }
    assert forall|i: int, j: int| 0 <= i < j < w.len() implies name_le(
        (#[trigger] w[i]).filename,
        (#[trigger] w[j]).filename,
    ) by {
        let a = if i < p {
            i
        } else {
            i - 1
        };
        let b = if j < p {
            j
        } else {
            j - 1
        };
        if i == p {
            assert(w[j] == v[j - 1]);
        } else if j == p {
            assert(w[i] == v[i]);
        } else {
            assert(w[i] == v[a] && w[j] == v[b]);
            assert(name_le(v[a].filename, v[b].filename));
        }
    }
    assert forall|name: Seq<char>| #[trigger] named(w, name) == named(v.push(x), name) by {
        let pred = |m: ImageView| m.filename == name;
        let front = v.take(p);
        let back = v.skip(p);
        let one = seq![x];
        assert(w =~= front + (one + back));
        assert(v.push(x) =~= front + (back + one));
        Seq::filter_distributes_over_add(front, one + back, pred);
        Seq::filter_distributes_over_add(one, back, pred);
        Seq::filter_distributes_over_add(front, back + one, pred);
        Seq::filter_distributes_over_add(back, one, pred);
        if x.filename == name {
            lemma_none_named(back, name);
        } else {
            lemma_none_named(one, name);
        }
        assert(one.filter(pred) + back.filter(pred) =~= back.filter(pred) + one.filter(pred));
    }
}

proof fn lemma_none_named(v: Seq<ImageView>, name: Seq<char>)
    requires
        forall|i: int| 0 <= i < v.len() ==> (#[trigger] v[i]).filename != name,
    ensures
        named(v, name) == Seq::<ImageView>::empty(),
    decreases v.len(),
{
    reveal(Seq::filter);
    if v.len() > 0 {
        let less = v.drop_last();
        assert forall|i: int| 0 <= i < less.len() implies (#[trigger] less[i]).filename != name by {
            assert(v[i].filename != name);
        }
        lemma_none_named(less, name);
        assert(v[v.len() - 1].filename != name);
    }
}

/// What is sorted is among what was there.
proof fn lemma_sorted_was_there(sorted: Seq<ImageView>, v: Seq<ImageView>, i: int)
    requires
        is_sorting(sorted, v),
        0 <= i < sorted.len(),
    ensures
        v.contains(sorted[i]),
{
    let m = sorted[i];
    let pred = |x: ImageView| x.filename == m.filename;
    sorted.lemma_filter_contains(pred, i);
    assert(named(sorted, m.filename).contains(m));
    assert(named(v, m.filename).contains(m));
    v.lemma_filter_contains_rev(pred, m);
}

/// There is a regular file at the path `path`, and it is an image.
pub open spec fn is_image_file(files: Seq<BootFileView>, path: Seq<char>) -> bool {
    exists|i: int|
        0 <= i < files.len() && (#[trigger] files[i]).path == path && files[i].regular
            && is_squashfs_head(files[i].head)
}

/// There is an image that does not belong to the running system.
pub open spec fn has_ordinary_image(files: Seq<BootFileView>) -> bool {
    exists|i: int|
        0 <= i < files.len() && (#[trigger] files[i]).regular && is_squashfs_head(files[i].head)
            && !is_system_name(file_name_or_empty(files[i].path))
}

/// What is listed, where each image that was read is one of the candidates under its file
/// name: each image listed is a regular file with the first bytes of an image. Where there is
/// an image that does not belong to the running system, none that does is listed; where there
/// is none, all that are listed are called `system.img`.
pub proof fn law_listed_images_can_be_installed(
    files: Seq<BootFileView>,
    read: Seq<ImageView>,
    listed: Seq<ImageView>,
    i: int,
)
    requires
        forall|k: int|
            0 <= k < read.len() ==> installable(images_among(files)).contains(
                (#[trigger] read[k]).path,
            ) && read[k].filename == file_name_or_empty(read[k].path),
        is_sorting(listed, read),
        0 <= i < listed.len(),
    ensures
        is_image_file(files, listed[i].path),
        if has_ordinary_image(files) {
            !is_system_name(listed[i].filename)
        } else {
            listed[i].filename == "system.img"@
        },
{
    let items = images_among(files);
    let m = listed[i];
    lemma_sorted_was_there(listed, read, i);
    let k = choose|k: int| 0 <= k < read.len() && read[k] == m;
    assert(installable(items).contains(read[k].path));
    lemma_installable_has_name(items, m.path);
    lemma_ordinary(items);
    let j = choose|j: int|
        0 <= j < items.len() && (#[trigger] items[j]).1 == m.path && if ordinary_images(
            items,
        ).len() > 0 {
            !is_system_name(items[j].0)
        } else {
            items[j].0 == "system.img"@
        };
    lemma_image_among(files, items[j]);
    assert(items.contains(items[j]));
    if has_ordinary_image(files) {
        let f = choose|f: int|
            0 <= f < files.len() && (#[trigger] files[f]).regular && is_squashfs_head(
                files[f].head,
            ) && !is_system_name(file_name_or_empty(files[f].path));
        lemma_among_images(files, f);
    } else {
        assert forall|l: int| 0 <= l < items.len() implies is_system_name(
            (#[trigger] items[l]).0,
        ) by {
            lemma_image_among(files, items[l]);
        }
    }
}

/// What is among the images comes from an image file.
proof fn lemma_image_among(files: Seq<BootFileView>, item: (Seq<char>, Seq<char>))
    requires
        images_among(files).contains(item),
    ensures
        item.0 == file_name_or_empty(item.1),
        is_image_file(files, item.1),
        !is_system_name(item.0) ==> has_ordinary_image(files),
{
    let pick = |f: BootFileView|
        if f.regular && is_squashfs_head(f.head) {
            Some((file_name_or_empty(f.path), f.path))
        } else {
            None
        };
    files.lemma_filter_map_contains(pick, item);
    let f = choose|f: BootFileView| #[trigger] files.contains(f) && pick(f) == Some(item);
    let i = choose|i: int| 0 <= i < files.len() && files[i] == f;
    assert(files[i].path == item.1);
    assert(files[i].regular);
}

/// An image file is among the images.
proof fn lemma_among_images(files: Seq<BootFileView>, i: int)
    requires
        0 <= i < files.len(),
        files[i].regular,
        is_squashfs_head(files[i].head),
    ensures
        exists|k: int|
            0 <= k < images_among(files).len() && (#[trigger] images_among(files)[k]).0
                == file_name_or_empty(files[i].path),
    decreases files.len(),
{
    let rest = files.drop_last();
    let now = images_among(files);
    let before = images_among(rest);
    if i < files.len() - 1 {
        assert(rest[i] == files[i]);
        lemma_among_images(rest, i);
        let k = choose|k: int|
            0 <= k < before.len() && (#[trigger] before[k]).0 == file_name_or_empty(files[i].path);
        assert(now[k] == before[k]);
    } else {
        assert(files.last() == files[i]);
        assert(now[now.len() - 1].0 == file_name_or_empty(files[i].path));
    }
}

/// Puts images in the order of their file names.
pub fn sort_images(images: Vec<ImageMetadata>) -> (r: Vec<ImageMetadata>)
    ensures
        is_sorting(image_views(r@), image_views(images@)),
{
    let ghost all = image_views(images@);
    let mut out: Vec<ImageMetadata> = Vec::new();
    proof {
        assert(all.take(0) =~= image_views(out@));
    }
    for x in it: images
        invariant
            all == image_views(it.seq()),
            is_sorting(image_views(out@), all.take(it.index() as int)),
    {
        let ghost n = it.index() as int;
        let ghost was = image_views(out@);
        let ghost seen = x@;
        let mut p: usize = out.len();
        while p > 0 && !name_not_above(out[p - 1].filename.as_str(), x.filename.as_str())
            invariant
                p <= out@.len(),
                was == image_views(out@),
                seen == x@,
                p < out@.len() ==> !name_le(was[p as int].filename, seen.filename),
            decreases p,
        {
            assert(was[p - 1] == out@[p - 1]@);
            p = p - 1;
        }
        proof {
            if p > 0 {
                assert(was[p - 1] == out@[p - 1]@);
            }
            lemma_inserted(was, seen, p as int);
            assert(all[n] == seen);
            assert(all.take(n + 1) =~= all.take(n).push(seen));
            assert forall|name: Seq<char>| #[trigger]
                named(was.insert(p as int, seen), name) == named(all.take(n + 1), name) by {
                let pred = |m: ImageView| m.filename == name;
                assert(named(was, name) == named(all.take(n), name));
                was.lemma_filter_push(seen, pred);
                all.take(n).lemma_filter_push(seen, pred);
            }
        }
        out.insert(p, x);
        assert(image_views(out@) =~= was.insert(p as int, seen));
    }
    assert(all.take(all.len() as int) =~= all);
    out
}

/// What an image says of itself; nothing where it does not say it.
#[derive(Debug)]
pub struct GenpackMeta {
    pub arch: Option<String>,
    pub artifact: Option<String>,
    pub banner: Option<String>,
    pub version: Option<String>,
}

/// The contents of a `GenpackMeta`.
#[verifier::ext_equal]
pub struct MetaView {
    pub arch: Option<Seq<char>>,
    pub artifact: Option<Seq<char>>,
    pub banner: Option<Seq<char>>,
    pub version: Option<Seq<char>>,
}

impl View for GenpackMeta {
    type V = MetaView;

    open spec fn view(&self) -> MetaView {
        MetaView {
            arch: owned_view(self.arch),
            artifact: owned_view(self.artifact),
            banner: owned_view(self.banner),
            version: owned_view(self.version),
        }
    }
}

/// `t`, if it is not empty.
pub open spec fn unless_empty(t: Seq<char>) -> Option<Seq<char>> {
    if t.len() == 0 {
        None
    } else {
        Some(t)
    }
}

/// The value in a file of one line: its text without white space around it.
pub open spec fn line_value(text: Option<Seq<char>>) -> Option<Seq<char>> {
    match text {
        Some(t) => unless_empty(trimmed(t)),
        None => None,
    }
}

/// The banner in a file: its text without the line ends behind it. Blanks belong to it.
pub open spec fn banner_value(text: Option<Seq<char>>) -> Option<Seq<char>> {
    match text {
        Some(t) => unless_empty(trim_back(t, CharClass::LineEnd)),
        None => None,
    }
}

/// The value in a file of one line, if there is one.
pub fn read_meta_line(text: Option<&str>) -> (r: Option<String>)
    ensures
        owned_view(r) == line_value(option_view(text)),
{
    match text {
        Some(t) => {
            let v = trim(t);
            if v.is_empty() {
                None
            } else {
                Some(v.to_owned())
            }
        },
        None => None,
    }
}

/// The banner in a file, if there is one.
pub fn read_banner(text: Option<&str>) -> (r: Option<String>)
    ensures
        owned_view(r) == banner_value(option_view(text)),
{
    match text {
        Some(t) => {
            let v = trim_end_of(t, CharClass::LineEnd);
            if v.is_empty() {
                None
            } else {
                Some(v.to_owned())
            }
        },
        None => None,
    }
}

/// What an image says of itself in its four files.
pub open spec fn meta_told(
    arch: Option<Seq<char>>,
    artifact: Option<Seq<char>>,
    banner: Option<Seq<char>>,
    version: Option<Seq<char>>,
) -> MetaView {
    MetaView {
        arch: line_value(arch),
        artifact: line_value(artifact),
        banner: banner_value(banner),
        version: line_value(version),
    }
}

/// What an image says of itself, from the texts of its four files, as far as they could be
/// read.
pub fn read_genpack_metadata(
    arch: Option<&str>,
    artifact: Option<&str>,
    banner: Option<&str>,
    version: Option<&str>,
) -> (r: GenpackMeta)
    ensures
        r@ == meta_told(
            option_view(arch),
            option_view(artifact),
            option_view(banner),
            option_view(version),
        ),
{
    GenpackMeta {
        arch: read_meta_line(arch),
        artifact: read_meta_line(artifact),
        banner: read_banner(banner),
        version: read_meta_line(version),
    }
}

/// A text that is there, else an empty one.
pub open spec fn or_empty(t: Option<Seq<char>>) -> Seq<char> {
    match t {
        Some(v) => v,
        None => ""@,
    }
}

/// A file name without the suffix of squashfs images.
pub open spec fn without_suffix(name: Seq<char>) -> Seq<char> {
    if ".squashfs"@.is_suffix_of(name) {
        name.take(name.len() - ".squashfs"@.len())
    } else {
        name
    }
}

/// The artifact of an image: what it says, else what its file name suggests.
pub open spec fn artifact_of(said: Option<Seq<char>>, filename: Seq<char>) -> Seq<char> {
    if said matches Some(a) && a.len() > 0 {
        said->0
    } else {
        without_suffix(filename)
    }
}

/// What is known of an image. An architecture that the image does not tell counts as that
/// of the running system.
pub open spec fn image_known(
    path: Seq<char>,
    size: u64,
    meta: MetaView,
    host_arch: Seq<char>,
) -> ImageView {
    let filename = file_name_or_empty(path);
    let arch = or_empty(meta.arch);
    ImageView {
        path,
        filename,
        size,
        arch,
        artifact: artifact_of(meta.artifact, filename),
        banner: or_empty(meta.banner),
        version: or_empty(meta.version),
        arch_match: arch.len() == 0 || arch == host_arch,
    }
}

/// A text that is there, else an empty one.
fn text_or_empty(t: Option<String>) -> (r: String)
    ensures
        r@ == or_empty(owned_view(t)),
{
    match t {
        Some(v) => v,
        None => "".to_owned(),
    }
}

/// A file name without the suffix of squashfs images.
fn stem<'a>(name: &'a str) -> (r: &'a str)
    ensures
        r@ == without_suffix(name@),
{
    if ends_with(name, ".squashfs") {
        proof {
            reveal_strlit(".squashfs");
        }
        before(name, name.unicode_len() - 9)
    } else {
        name
    }
}

/// Puts together what is known of an image.
pub fn describe_image(path: &str, size: u64, meta: GenpackMeta, host_arch: &str) -> (r:
    ImageMetadata)
    ensures
        r@ == image_known(path@, size, meta@, host_arch@),
        meta@.arch matches Some(a) && a.len() > 0 ==> (r.arch_match <==> meta@.arch == Some(
            host_arch@,
        )),
        meta@.arch is None ==> r.arch_match,
{
    proof {
        law_architecture_must_match(path@, size, meta@, host_arch@);
    }
    let filename = file_name_text(path);
    let arch = text_or_empty(meta.arch);
    let arch_match = arch.as_str().is_empty() || same(arch.as_str(), host_arch);
    let artifact: String = match meta.artifact {
        Some(a) => {
            if a.as_str().is_empty() {
                stem(filename).to_owned()
            } else {
                a
            }
        },
        None => stem(filename).to_owned(),
    };
    ImageMetadata {
        path: path.to_owned(),
        filename: filename.to_owned(),
        size,
        arch,
        artifact,
        banner: text_or_empty(meta.banner),
        version: text_or_empty(meta.version),
        arch_match,
    }
}

} // verus!
