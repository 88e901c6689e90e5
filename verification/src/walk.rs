//! Walking through a directory, in the order in which directories list their entries.

use vstd::prelude::*;

use crate::effects::{entry_views, Entry, EntryKind, EntryView};
use crate::path::{join_path, joined_path};
use crate::split::strings;

verus! {

/// A path that the walk has still to look at.
#[derive(Debug)]
struct Item {
    path: String,
    directory: bool,
}

/// The contents of an item: its path, and whether it is a directory.
#[verifier::ext_equal]
pub struct ItemView {
    pub path: Seq<char>,
    pub directory: bool,
}

impl View for Item {
    type V = ItemView;

    closed spec fn view(&self) -> ItemView {
        ItemView { path: self.path@, directory: self.directory }
    }
}

spec fn item_views(v: Seq<Item>) -> Seq<ItemView> {
    v.map_values(|i: Item| i@)
}

/// The contents of a `FileWalk`.
#[verifier::ext_equal]
pub struct WalkView {
    /// What is still to be looked at, the next at the end.
    pub stack: Seq<ItemView>,
    /// The files found.
    pub files: Seq<Seq<char>>,
}

/// What an entry of the directory `dir` adds to a walk. Links and special files add
/// nothing.
pub open spec fn item_of(dir: Seq<char>, e: EntryView) -> Option<ItemView> {
    match e.kind {
        EntryKind::File => Some(ItemView { path: joined_path(dir, e.name), directory: false }),
        EntryKind::Directory => Some(ItemView { path: joined_path(dir, e.name), directory: true }),
        EntryKind::Other => None,
    }
}

/// What the entries of the directory `dir` add to a walk.
pub open spec fn items_of(dir: Seq<char>, entries: Seq<EntryView>) -> Seq<ItemView> {
    entries.filter_map(|e: EntryView| item_of(dir, e))
}

impl WalkView {
    /// The walk at its start, before the directory `root`.
    pub open spec fn start(root: Seq<char>) -> WalkView {
        WalkView { stack: seq![ItemView { path: root, directory: true }], files: Seq::empty() }
    }

    /// The walk up to the next directory: the files before it are found.
    pub open spec fn settled(self) -> WalkView
        decreases self.stack.len(),
    {
        if self.stack.len() > 0 && !self.stack.last().directory {
            WalkView {
                stack: self.stack.drop_last(),
                files: self.files.push(self.stack.last().path),
            }.settled()
        } else {
            self
        }
    }

    /// The walk waits for the entries of a directory, or is complete.
    pub open spec fn wf(self) -> bool {
        self.stack.len() > 0 ==> self.stack.last().directory
    }

    /// The directory whose entries the walk waits for.
    pub open spec fn directory(self) -> Option<Seq<char>> {
        if self.stack.len() > 0 {
            Some(self.stack.last().path)
        } else {
            None
        }
    }

    /// The walk with the entries of the directory that it waited for.
    pub open spec fn entered(self, entries: Seq<EntryView>) -> WalkView {
        let inside = items_of(self.stack.last().path, entries);
        WalkView { stack: self.stack.drop_last() + inside.reverse(), files: self.files }.settled()
    }
}

/// What a path leads to.
pub enum Node {
    /// A file.
    File,
    /// A directory, with the names in it and what each leads to.
    Directory(Seq<(Seq<char>, Node)>),
    /// A link, or a special file.
    Other,
}

impl Node {
    /// What the entry of a directory that leads here is.
    pub open spec fn kind(self) -> EntryKind {
        match self {
            Node::File => EntryKind::File,
            Node::Directory(_) => EntryKind::Directory,
            Node::Other => EntryKind::Other,
        }
    }

    /// The files at the path `path` and below it, in the order of the directories that hold
    /// them.
    pub open spec fn files(self, path: Seq<char>) -> Seq<Seq<char>>
        decreases self,
    {
        match self {
            Node::File => seq![path],
            Node::Directory(inside) => files_inside(path, inside),
            Node::Other => Seq::empty(),
        }
    }

    /// The number of directories at a path and below it.
    pub open spec fn directories(self) -> nat
        decreases self,
    {
        match self {
            Node::Directory(inside) => 1 + directories_inside(inside),
            _ => 0,
        }
    }

    /// `listing` tells of each directory at the path `path` and below it what it holds.
    pub open spec fn is_told_by(
        self,
        path: Seq<char>,
        listing: spec_fn(Seq<char>) -> Seq<EntryView>,
    ) -> bool
        decreases self,
    {
        match self {
            Node::Directory(inside) => lists(listing(path), inside) && are_told_by(
                inside,
                path,
                listing,
            ),
            _ => true,
        }
    }
}

/// The files in a directory.
pub open spec fn files_inside(dir: Seq<char>, inside: Seq<(Seq<char>, Node)>) -> Seq<Seq<char>>
    decreases inside,
{
    if inside.len() == 0 {
        Seq::empty()
    } else {
        inside[0].1.files(joined_path(dir, inside[0].0)) + files_inside(dir, inside.skip(1))
    }
}

/// The number of directories in a directory.
pub open spec fn directories_inside(inside: Seq<(Seq<char>, Node)>) -> nat
    decreases inside,
{
    if inside.len() == 0 {
        0
    } else {
        inside[0].1.directories() + directories_inside(inside.skip(1))
    }
}

/// `listing` tells of each directory in the directory `dir` what it holds.
pub open spec fn are_told_by(
    inside: Seq<(Seq<char>, Node)>,
    dir: Seq<char>,
    listing: spec_fn(Seq<char>) -> Seq<EntryView>,
) -> bool
    decreases inside,
{
    inside.len() > 0 ==> inside[0].1.is_told_by(joined_path(dir, inside[0].0), listing)
        && are_told_by(inside.skip(1), dir, listing)
}

/// The entries are those of a directory that holds `inside`.
pub open spec fn lists(entries: Seq<EntryView>, inside: Seq<(Seq<char>, Node)>) -> bool {
    &&& entries.len() == inside.len()
    &&& forall|i: int|
        0 <= i < inside.len() ==> (#[trigger] entries[i]).name == inside[i].0 && entries[i].kind
            == inside[i].1.kind()
}

impl WalkView {
    /// The walk after the entries of `n` directories, as `listing` tells them.
    pub open spec fn told(self, listing: spec_fn(Seq<char>) -> Seq<EntryView>, n: nat) -> WalkView
        decreases n,
    {
        if n == 0 || self.stack.len() == 0 {
            self
        } else {
            self.entered(listing(self.stack.last().path)).told(listing, (n - 1) as nat)
        }
    }
}

/// A walk that is told what the directories hold is complete after as many listings as there
/// are directories. It has then found all files, in their order, and nothing else.
pub proof fn law_walk_finds_all_files(
    root: Seq<char>,
    tree: Node,
    listing: spec_fn(Seq<char>) -> Seq<EntryView>,
)
    requires
        tree is Directory,
        tree.is_told_by(root, listing),
    ensures
        ({
            let end = WalkView::start(root).told(listing, tree.directories());
            end.directory() is None && end.files == tree.files(root)
        }),
{
    let below = Seq::<ItemView>::empty();
    let w = WalkView::start(root);
    assert(w.stack =~= below.push(item_at(root, true)));
    lemma_told_directory(below, Seq::empty(), root, tree, listing);
    assert(Seq::<Seq<char>>::empty() + tree.files(root) =~= tree.files(root));
}

spec fn walk_at(stack: Seq<ItemView>, files: Seq<Seq<char>>) -> WalkView {
    WalkView { stack, files }
}

spec fn item_at(path: Seq<char>, directory: bool) -> ItemView {
    ItemView { path, directory }
}

/// A walk that is told of `m` and then of `n` directories has been told of both.
pub proof fn lemma_told_further(
    w: WalkView,
    listing: spec_fn(Seq<char>) -> Seq<EntryView>,
    m: nat,
    n: nat,
)
    ensures
        w.told(listing, m + n) == w.told(listing, m).told(listing, n),
    decreases m,
{
    if m > 0 && w.stack.len() > 0 {
        lemma_told_further(
            w.entered(listing(w.stack.last().path)),
            listing,
            (m - 1) as nat,
            n,
        );
    }
}

proof fn lemma_told_directory(
    below: Seq<ItemView>,
    files: Seq<Seq<char>>,
    path: Seq<char>,
    node: Node,
    listing: spec_fn(Seq<char>) -> Seq<EntryView>,
)
    requires
        node is Directory,
        node.is_told_by(path, listing),
    ensures
        walk_at(below.push(item_at(path, true)), files).told(listing, node.directories())
            == walk_at(below, files + node.files(path)).settled(),
    decreases node,
{
    let w = walk_at(below.push(item_at(path, true)), files);
    let entries = listing(path);
    match node {
        Node::Directory(inside) => {
            assert(w.stack.drop_last() =~= below);
            lemma_told_inside(below, files, path, inside, entries, listing);
        },
        _ => {},
    }
}

proof fn lemma_first_item(dir: Seq<char>, entries: Seq<EntryView>)
    requires
        entries.len() > 0,
    ensures
        items_of(dir, entries) == (match item_of(dir, entries[0]) {
            Some(item) => seq![item],
            None => Seq::empty(),
        }) + items_of(dir, entries.skip(1)),
    decreases entries.len(),
{
    let first = match item_of(dir, entries[0]) {
        Some(item) => seq![item],
        None => Seq::empty(),
    };
    if entries.len() == 1 {
        assert(entries.drop_last() =~= Seq::empty());
        assert(entries.skip(1) =~= Seq::empty());
        assert(items_of(dir, entries) =~= first + items_of(dir, entries.skip(1))) by {
            reveal_with_fuel(Seq::filter_map, 2);
        }
    } else {
        let less = entries.drop_last();
        lemma_first_item(dir, less);
        assert(less.skip(1) =~= entries.skip(1).drop_last());
        assert(items_of(dir, entries) =~= first + items_of(dir, entries.skip(1)));
    }
}

proof fn lemma_told_inside(
    below: Seq<ItemView>,
    files: Seq<Seq<char>>,
    dir: Seq<char>,
    inside: Seq<(Seq<char>, Node)>,
    entries: Seq<EntryView>,
    listing: spec_fn(Seq<char>) -> Seq<EntryView>,
)
    requires
        lists(entries, inside),
        are_told_by(inside, dir, listing),
    ensures
        walk_at(below + items_of(dir, entries).reverse(), files).settled().told(
            listing,
            directories_inside(inside),
        ) == walk_at(below, files + files_inside(dir, inside)).settled(),
    decreases inside,
{
    let w = walk_at(below + items_of(dir, entries).reverse(), files);
    if inside.len() == 0 {
        assert(items_of(dir, entries) =~= Seq::empty());
        assert(w.stack =~= below);
        assert(files + files_inside(dir, inside) =~= files);
    } else {
        let (name, node) = inside[0];
        let path = joined_path(dir, name);
        let rest = inside.skip(1);
        let others = entries.skip(1);
        assert(entries[0].name == name && entries[0].kind == node.kind());
        assert(lists(others, rest)) by {
            assert forall|i: int| 0 <= i < rest.len() implies (#[trigger] others[i]).name
                == rest[i].0 && others[i].kind == rest[i].1.kind() by {
                assert(others[i] == entries[i + 1]);
            }
        }
        lemma_first_item(dir, entries);
        let later = below + items_of(dir, others).reverse();
        let now = files + node.files(path);
        assert(now + files_inside(dir, rest) =~= files + files_inside(dir, inside));
        assert(directories_inside(inside) == node.directories() + directories_inside(rest));
        lemma_told_inside(below, now, dir, rest, others, listing);
        let end = walk_at(below, files + files_inside(dir, inside)).settled();
        assert(walk_at(later, now).settled().told(listing, directories_inside(rest)) == end);
        match node {
            Node::File => {
                let item = item_at(path, false);
                assert(w.stack =~= later.push(item));
                assert(w.stack.drop_last() =~= later);
                assert(files.push(path) =~= now);
                assert(w.settled() == walk_at(later, now).settled());
            },
            Node::Directory(_) => {
                let item = item_at(path, true);
                assert(w.stack =~= later.push(item));
                lemma_told_directory(later, files, path, node, listing);
                lemma_told_further(w, listing, node.directories(), directories_inside(rest));
                assert(w.settled() == w);
                assert(w.told(listing, node.directories()) == walk_at(later, now).settled());
            },
            Node::Other => {
                assert(w.stack =~= later);
                assert(files =~= now);
                assert(w == walk_at(later, now));
            },
        }
    }
}

/// A walk through a directory that collects the paths of the files in it.
#[derive(Debug)]
pub struct FileWalk {
    stack: Vec<Item>,
    files: Vec<String>,
}

impl View for FileWalk {
    type V = WalkView;

    closed spec fn view(&self) -> WalkView {
        WalkView { stack: item_views(self.stack@), files: strings(self.files@) }
    }
}

/// What the entries of the directory `dir` add to a walk.
fn inside(dir: &str, entries: &Vec<Entry>) -> (r: Vec<Item>)
    ensures
        item_views(r@) == items_of(dir@, entry_views(entries@)),
{
    let ghost all = entry_views(entries@);
    let ghost pick = |e: EntryView| item_of(dir@, e);
    let mut out: Vec<Item> = Vec::new();
    let mut i: usize = 0;
    assert(all.take(0).filter_map(pick) =~= Seq::empty()) by {
        reveal(Seq::filter_map);
    }
    while i < entries.len()
        invariant
            i <= entries@.len(),
            all == entry_views(entries@),
            pick == (|e: EntryView| item_of(dir@, e)),
            item_views(out@) == all.take(i as int).filter_map(pick),
        decreases entries@.len() - i,
    {
        let ghost was = out@;
        assert(all[i as int] == entries@[i as int]@);
        proof {
            all.lemma_filter_map_take_succ(pick, i as int);
        }
        let e = &entries[i];
        match e.kind {
            EntryKind::Other => {},
            _ => {
                let item = Item {
                    path: join_path(dir, e.name.as_str()),
                    directory: e.kind == EntryKind::Directory,
                };
                let ghost seen = item@;
                out.push(item);
                assert(item_views(out@) =~= item_views(was).push(seen));
            },
        }
        i = i + 1;
    }
    assert(all.take(i as int) =~= all);
    out
}

impl FileWalk {
    /// Starts a walk through the directory `root`.
    pub fn new(root: &str) -> (r: FileWalk)
        ensures
            r@ == WalkView::start(root@),
            r@.wf(),
    {
        let stack: Vec<Item> = vec![Item { path: root.to_owned(), directory: true }];
        let r = FileWalk { stack, files: Vec::new() };
        assert(r@.stack =~= seq![ItemView { path: root@, directory: true }]);
        assert(r@.files =~= Seq::empty());
        r
    }

    /// The directory whose entries the walk waits for; none once it is complete.
    pub fn directory(&self) -> (r: Option<&str>)
        ensures
            r is Some <==> self@.directory() is Some,
            r matches Some(d) ==> self@.directory() == Some(d@),
    {
        let n: usize = self.stack.len();
        if n == 0 {
            None
        } else {
            assert(item_views(self.stack@)[n - 1] == self.stack@[n - 1]@);
            Some(self.stack[n - 1].path.as_str())
        }
    }

    /// Takes the entries of the directory that the walk waited for.
    pub fn enter(&mut self, entries: &Vec<Entry>)
        requires
            old(self)@.directory() is Some,
        ensures
            final(self)@ == old(self)@.entered(entry_views(entries@)),
            final(self)@.wf(),
    {
        let ghost start = self@;
        match self.stack.pop() {
            Some(top) => {
                assert(item_views(self.stack@) =~= start.stack.drop_last());
                let mut items = inside(top.path.as_str(), entries);
                let ghost found = item_views(items@);
                let ghost below = item_views(self.stack@);
                while items.len() > 0
                    invariant
                        items@.len() <= found.len(),
                        item_views(items@) == found.take(items@.len() as int),
                        item_views(self.stack@) == below + found.skip(
                            items@.len() as int,
                        ).reverse(),
                        strings(self.files@) == start.files,
                    decreases items@.len(),
                {
                    let ghost n = items@.len() as int;
                    let ghost on_stack = self.stack@;
                    match items.pop() {
                        Some(item) => {
                            assert(item@ == found[n - 1]) by {
                                assert(found.take(n)[n - 1] == item@);
                            }
                            assert(item_views(items@) =~= found.take(n - 1));
                            let ghost seen = item@;
                            self.stack.push(item);
                            assert(item_views(self.stack@) =~= item_views(on_stack).push(seen));
                            assert(found.skip(n - 1).reverse() =~= found.skip(n).reverse().push(
                                found[n - 1],
                            ));
                        },
                        None => {},
                    }
                }
                assert(found.skip(0) =~= found);
            },
            None => {},
        }
        self.settle();
    }

    /// Moves the files up to the next directory to the files found.
    fn settle(&mut self)
        ensures
            final(self)@ == old(self)@.settled(),
            final(self)@.wf(),
    {
        let ghost start = self@;
        while self.stack.len() > 0 && !self.stack[self.stack.len() - 1].directory
            invariant
                start.settled() == self@.settled(),
            decreases self.stack@.len(),
        {
            let ghost was = self@;
            assert(was.stack.last() == self.stack@.last()@);
            match self.stack.pop() {
                Some(item) => {
                    self.files.push(item.path);
                    assert(item_views(self.stack@) =~= was.stack.drop_last());
                    assert(strings(self.files@) =~= was.files.push(item.path@));
                },
                None => {},
            }
        }
        assert(self.stack@.len() > 0 ==> self@.stack.last() == self.stack@.last()@);
    }

    /// The number of files found.
    pub fn count(&self) -> (r: usize)
        ensures
            r == self@.files.len(),
    {
        self.files.len()
    }

    /// The file of number `i`.
    pub fn file(&self, i: usize) -> (r: &str)
        requires
            i < self@.files.len(),
        ensures
            r@ == self@.files[i as int],
    {
        assert(strings(self.files@)[i as int] == self.files@[i as int]@);
        self.files[i].as_str()
    }
}

} // verus!
