//! Image files: which are taken, how they are found, and what became of them.

use std::path::PathBuf;
use vstd::prelude::*;

verus! {

/// `std::path::PathBuf`. A path is handed on as it is.
#[verifier::external_type_specification]
#[verifier::external_body]
pub struct ExPathBuf(std::path::PathBuf);

/// The file extensions of images that can be compressed.
pub const SUPPORTED: [&'static str; 5] = ["png", "jpg", "jpeg", "webp", "avif"];

/// The extension in a file name: what follows its last dot, unless nothing comes before that dot.
pub open spec fn extension(name: Seq<u8>) -> Option<Seq<u8>> {
    match name.index_of_last(46u8) {
        Some(i) => if i > 0 && name != seq![46u8, 46u8] {
            Some(name.skip(i + 1))
        } else {
            None
        },
        None => None,
    }
}

/// A byte with an ASCII letter in lower case.
pub open spec fn ascii_lower(b: u8) -> u8 {
    if 65 <= b <= 90 {
        (b + 32) as u8
    } else {
        b
    }
}

/// The bytes as characters, with ASCII letters in lower case.
pub open spec fn lowered(s: Seq<u8>) -> Seq<char> {
    s.map_values(|b: u8| ascii_lower(b) as char)
}

/// The name of a file that can be compressed.
pub open spec fn is_supported_name(name: Seq<u8>) -> bool {
    match extension(name) {
        Some(e) => exists|i: int| 0 <= i < SUPPORTED@.len() && (#[trigger] SUPPORTED@[i])@ == lowered(e),
        None => false,
    }
}

/// Tells by its name, whose bytes are given, whether a file can be compressed.
pub fn is_supported(file_name: &[u8]) -> (r: bool)
    ensures
        r == is_supported_name(file_name@),
{
    let ghost name = file_name@;
    proof {
        name.index_of_last_ensures(46u8);
    }
    let mut dot: usize = file_name.len();
    while dot > 0 && file_name[dot - 1] != 46
        invariant
            dot <= file_name.len(),
            name == file_name@,
            forall|j: int| dot <= j < name.len() ==> name[j] != 46u8,
        decreases dot,
    {
        dot = dot - 1;
    }
    if dot <= 1 {
        return false;
    }
    assert(name.contains(46u8)) by {
        assert(name[dot - 1] == 46u8);
    }
    assert(name.index_of_last(46u8) == Some(dot - 1));
    if file_name.len() == 2 && file_name[0] == 46 && file_name[1] == 46 {
        assert(name =~= seq![46u8, 46u8]);
        return false;
    }
    assert(name != seq![46u8, 46u8]) by {
        if name == seq![46u8, 46u8] {
            assert(name.len() == 2 && name[0] == 46u8 && name[1] == 46u8);
        }
    }
    let ghost ext = name.skip(dot as int);
    let mut lower = String::new();
    let mut i: usize = dot;
    while i < file_name.len()
        invariant
            dot <= i <= file_name.len(),
            name == file_name@,
            ext == name.skip(dot as int),
            lower@ =~= lowered(ext.take(i - dot)),
        decreases file_name.len() - i,
    {
        let b = file_name[i];
        let c = if 65 <= b && b <= 90 {
            b + 32
        } else {
            b
        };
        assert(ext.take(i - dot + 1) =~= ext.take(i - dot).push(b));
        lower.push(c as char);
        i = i + 1;
    }
    assert(ext.take(i - dot) =~= ext);
    let mut k: usize = 0;
    while k < SUPPORTED.len()
        invariant
            k <= SUPPORTED@.len(),
            lower@ == lowered(ext),
            extension(name) == Some(ext),
            name == file_name@,
            forall|j: int| 0 <= j < k ==> (#[trigger] SUPPORTED@[j])@ != lowered(ext),
        decreases SUPPORTED@.len() - k,
    {
        if lower == SUPPORTED[k].to_owned() {
            assert(SUPPORTED@[k as int]@ == lowered(ext));
            return true;
        }
        k = k + 1;
    }
    false
}

/// Whether a file is taken does not depend on the case of the letters in its name.
pub proof fn law_case_does_not_matter(a: Seq<u8>, b: Seq<u8>)
    requires
        a.len() == b.len(),
        forall|i: int| 0 <= i < a.len() ==> ascii_lower(#[trigger] a[i]) == ascii_lower(b[i]),
    ensures
        is_supported_name(a) == is_supported_name(b),
{
    a.index_of_last_ensures(46u8);
    b.index_of_last_ensures(46u8);
    assert forall|i: int| 0 <= i < a.len() implies (#[trigger] a[i] == 46u8 <==> b[i] == 46u8) by {
        assert(ascii_lower(a[i]) == ascii_lower(b[i]));
    }
    if a.contains(46u8) {
        let i = choose|i: int| 0 <= i < a.len() && a[i] == 46u8;
        assert(b[i] == 46u8);
    }
    if b.contains(46u8) {
        let i = choose|i: int| 0 <= i < b.len() && b[i] == 46u8;
        assert(a[i] == 46u8);
    }
    if a.contains(46u8) {
        let i = a.index_of_last(46u8)->0;
        let j = b.index_of_last(46u8)->0;
        assert(b[i] == 46u8);
        assert(a[j] == 46u8);
        assert(i == j);
        let dots = seq![46u8, 46u8];
        assert(a =~= dots <==> b =~= dots);
        let x = a.skip(i + 1);
        let y = b.skip(i + 1);
        assert forall|n: int| 0 <= n < x.len() implies #[trigger] lowered(x)[n] == lowered(y)[n] by {
            assert(x[n] == a[i + 1 + n] && y[n] == b[i + 1 + n]);
        }
        assert(lowered(x) =~= lowered(y));
    }
}

/// What became of an image.
pub struct ImageResult {
    pub path: PathBuf,
    pub ok: bool,
    pub msg: String,
    pub original_size: u64,
    pub compressed_size: u64,
}

impl ImageResult {
    pub fn new(
        path: PathBuf,
        ok: bool,
        msg: String,
        original_size: u64,
        compressed_size: u64,
    ) -> (r: ImageResult)
        ensures
            r.path == path,
            r.ok == ok,
            r.msg == msg,
            r.original_size == original_size,
            r.compressed_size == compressed_size,
    {
        ImageResult { path, ok, msg, original_size, compressed_size }
    }
}

/// A search for images in a directory, and below it if it is recursive.
pub struct ImageSearch {
    pub recursive: bool,
    /// The directories that are still to be read.
    pub pending: Vec<PathBuf>,
    /// The images found so far.
    pub images: Vec<PathBuf>,
}

/// What a directory holds under one name.
pub struct DirEntry {
    pub path: PathBuf,
    pub is_dir: bool,
    /// The bytes of the name within the directory.
    pub file_name: Vec<u8>,
}

/// An entry that is an image to compress.
pub open spec fn is_image(entry: DirEntry) -> bool {
    !entry.is_dir && is_supported_name(entry.file_name@)
}

/// The directories to read once an entry was seen.
pub open spec fn pending_after(
    recursive: bool,
    pending: Seq<PathBuf>,
    entry: DirEntry,
) -> Seq<PathBuf> {
    if entry.is_dir && recursive {
        pending.push(entry.path)
    } else {
        pending
    }
}

/// The images found once an entry was seen.
pub open spec fn images_after(images: Seq<PathBuf>, entry: DirEntry) -> Seq<PathBuf> {
    if is_image(entry) {
        images.push(entry.path)
    } else {
        images
    }
}

impl ImageSearch {
    /// A search that starts at `root`.
    pub fn new(root: PathBuf, recursive: bool) -> (search: ImageSearch)
        ensures
            search.recursive == recursive,
            search.pending@ == seq![root],
            search.images@ == Seq::<PathBuf>::empty(),
    {
        let mut pending: Vec<PathBuf> = Vec::new();
        pending.push(root);
        assert(pending@ =~= seq![root]);
        ImageSearch { recursive, pending, images: Vec::new() }
    }

    /// The directory to read next: the one that was found last.
    pub fn next_directory(&mut self) -> (dir: Option<PathBuf>)
        ensures
            final(self).recursive == old(self).recursive,
            final(self).images == old(self).images,
            match dir {
                Some(d) => old(self).pending@.len() > 0 && d == old(self).pending@.last()
                    && final(self).pending@ == old(self).pending@.drop_last(),
                None => old(self).pending@.len() == 0 && final(self).pending@
                    == old(self).pending@,
            },
    {
        self.pending.pop()
    }

    /// Takes account of an entry of the directory that is being read.
    pub fn add_entry(&mut self, entry: DirEntry)
        ensures
            final(self).recursive == old(self).recursive,
            final(self).pending@ == pending_after(old(self).recursive, old(self).pending@, entry),
            final(self).images@ == images_after(old(self).images@, entry),
    {
        if entry.is_dir {
            if self.recursive {
                self.pending.push(entry.path);
            }
        } else if is_supported(entry.file_name.as_slice()) {
            self.images.push(entry.path);
        }
    }

    /// The images that were found, in the order in which they were seen.
    pub fn into_images(self) -> (images: Vec<PathBuf>)
        ensures
            images == self.images,
    {
        self.images
    }
}

/// The directories to read once a whole listing was seen.
pub open spec fn pending_after_listing(
    recursive: bool,
    pending: Seq<PathBuf>,
    listing: Seq<DirEntry>,
) -> Seq<PathBuf>
    decreases listing.len(),
{
    if listing.len() == 0 {
        pending
    } else {
        pending_after(
            recursive,
            pending_after_listing(recursive, pending, listing.drop_last()),
            listing.last(),
        )
    }
}

/// The images found once a whole listing was seen.
pub open spec fn images_after_listing(images: Seq<PathBuf>, listing: Seq<DirEntry>) -> Seq<PathBuf>
    decreases listing.len(),
{
    if listing.len() == 0 {
        images
    } else {
        images_after(images_after_listing(images, listing.drop_last()), listing.last())
    }
}

/// The paths of the image files in a listing, in its order.
pub open spec fn images_of(listing: Seq<DirEntry>) -> Seq<PathBuf> {
    listing.filter(|e: DirEntry| is_image(e)).map_values(|e: DirEntry| e.path)
}

/// The paths of the directories in a listing, in its order.
pub open spec fn directories_of(listing: Seq<DirEntry>) -> Seq<PathBuf> {
    listing.filter(|e: DirEntry| e.is_dir).map_values(|e: DirEntry| e.path)
}

/// One entry more in a listing.
proof fn lemma_listing_push(listing: Seq<DirEntry>)
    requires
        listing.len() > 0,
    ensures
        images_of(listing) == images_after(images_of(listing.drop_last()), listing.last()),
        directories_of(listing) == pending_after(
            true,
            directories_of(listing.drop_last()),
            listing.last(),
        ),
{
    reveal(Seq::filter);
    let rest = listing.drop_last();
    let last = listing.last();
    let image = |e: DirEntry| is_image(e);
    let dir = |e: DirEntry| e.is_dir;
    let path_of = |e: DirEntry| e.path;
    assert(images_of(listing) == listing.filter(image).map_values(path_of));
    assert(images_of(rest) == rest.filter(image).map_values(path_of));
    assert(directories_of(listing) == listing.filter(dir).map_values(path_of));
    assert(directories_of(rest) == rest.filter(dir).map_values(path_of));
    assert(rest.filter(image).push(last).map_values(path_of) =~= rest.filter(image).map_values(
        path_of,
    ).push(last.path));
    assert(rest.filter(dir).push(last).map_values(path_of) =~= rest.filter(dir).map_values(
        path_of,
    ).push(last.path));
}

/// Nothing is in an empty listing.
proof fn lemma_listing_empty(listing: Seq<DirEntry>)
    requires
        listing.len() == 0,
    ensures
        images_of(listing) == Seq::<PathBuf>::empty(),
        directories_of(listing) == Seq::<PathBuf>::empty(),
{
    reveal(Seq::filter);
    assert(images_of(listing) =~= Seq::empty());
    assert(directories_of(listing) =~= Seq::empty());
}

/// Reading a directory adds exactly its image files to what was found, in their order, and, in a
/// recursive search only, its subdirectories to what is to be read.
pub proof fn law_listing(
    recursive: bool,
    pending: Seq<PathBuf>,
    images: Seq<PathBuf>,
    listing: Seq<DirEntry>,
)
    ensures
        images_after_listing(images, listing) == images + images_of(listing),
        pending_after_listing(recursive, pending, listing) == if recursive {
            pending + directories_of(listing)
        } else {
            pending
        },
    decreases listing.len(),
{
    if listing.len() == 0 {
        lemma_listing_empty(listing);
    } else {
        lemma_listing_push(listing);
        law_listing(recursive, pending, images, listing.drop_last());
        assert(images_after_listing(images, listing) =~= images + images_of(listing));
        if recursive {
            assert(pending_after_listing(recursive, pending, listing) =~= pending
                + directories_of(listing));
        }
    }
}

/// A directory, with the trees of the directories that its listing shows.
pub struct Tree {
    pub path: PathBuf,
    pub below: Seq<Tree>,
}

/// The paths at the roots of some trees.
pub open spec fn roots(trees: Seq<Tree>) -> Seq<PathBuf> {
    trees.map_values(|t: Tree| t.path)
}

/// A tree holds exactly the directories that reading from its root on leads to, where `list` gives
/// what a directory holds.
pub open spec fn is_tree(list: spec_fn(PathBuf) -> Seq<DirEntry>, tree: Tree) -> bool
    decreases tree,
{
    &&& roots(tree.below) == directories_of(list(tree.path))
    &&& forall|i: int| 0 <= i < tree.below.len() ==> is_tree(list, #[trigger] tree.below[i])
}

/// The directories of a tree: its root, and those below it.
pub open spec fn directories_in(tree: Tree) -> Seq<PathBuf>
    decreases tree,
{
    seq![tree.path] + directories_in_all(tree.below)
}

/// The directories of some trees, those of the last tree first.
pub open spec fn directories_in_all(trees: Seq<Tree>) -> Seq<PathBuf>
    decreases trees,
{
    if trees.len() == 0 {
        seq![]
    } else {
        directories_in(trees[trees.len() - 1]) + directories_in_all(
            trees.subrange(0, trees.len() - 1),
        )
    }
}

/// The images of some directories, one directory after the other.
pub open spec fn images_in(
    list: spec_fn(PathBuf) -> Seq<DirEntry>,
    dirs: Seq<PathBuf>,
) -> Seq<PathBuf>
    decreases dirs.len(),
{
    if dirs.len() == 0 {
        seq![]
    } else {
        images_of(list(dirs.first())) + images_in(list, dirs.drop_first())
    }
}

/// What is still to be read, and what was found, after up to `n` directories were read.
pub open spec fn search_after(
    list: spec_fn(PathBuf) -> Seq<DirEntry>,
    recursive: bool,
    pending: Seq<PathBuf>,
    images: Seq<PathBuf>,
    n: nat,
) -> (Seq<PathBuf>, Seq<PathBuf>)
    decreases n,
{
    if n == 0 || pending.len() == 0 {
        (pending, images)
    } else {
        search_after(
            list,
            recursive,
            pending_after_listing(recursive, pending.drop_last(), list(pending.last())),
            images_after_listing(images, list(pending.last())),
            (n - 1) as nat,
        )
    }
}

/// Trees put on top of others come first.
proof fn lemma_directories_on_top(trees: Seq<Tree>, top: Seq<Tree>)
    ensures
        directories_in_all(trees + top) == directories_in_all(top) + directories_in_all(trees),
    decreases top.len(),
{
    let all = trees + top;
    if top.len() == 0 {
        assert(all =~= trees);
        assert(directories_in_all(all) =~= directories_in_all(top) + directories_in_all(trees));
    } else {
        let rest = top.subrange(0, top.len() - 1);
        lemma_directories_on_top(trees, rest);
        assert(all.subrange(0, all.len() - 1) =~= trees + rest);
        assert(all[all.len() - 1] == top[top.len() - 1]);
        assert(directories_in_all(all) =~= directories_in_all(top) + directories_in_all(trees));
    }
}

/// A recursive search with the roots of some trees still to be read.
proof fn lemma_search(
    list: spec_fn(PathBuf) -> Seq<DirEntry>,
    trees: Seq<Tree>,
    images: Seq<PathBuf>,
    n: nat,
)
    requires
        forall|i: int| 0 <= i < trees.len() ==> is_tree(list, #[trigger] trees[i]),
    ensures
        ({
            let (pending, found) = search_after(list, true, roots(trees), images, n);
            let dirs = directories_in_all(trees);
            &&& pending.len() == 0 <==> n >= dirs.len()
            &&& pending.len() == 0 ==> found == images + images_in(list, dirs)
        }),
    decreases n,
{
    let dirs = directories_in_all(trees);
    if trees.len() == 0 {
        assert(images + images_in(list, dirs) =~= images);
    } else {
        let tree = trees[trees.len() - 1];
        let rest = trees.subrange(0, trees.len() - 1);
        let next = rest + tree.below;
        assert(directories_in(tree) == seq![tree.path] + directories_in_all(tree.below));
        assert(dirs =~= seq![tree.path] + (directories_in_all(tree.below) + directories_in_all(
            rest,
        )));
        if n > 0 {
            let listing = list(tree.path);
            assert(roots(trees).last() == tree.path);
            assert(roots(trees).drop_last() =~= roots(rest));
            law_listing(true, roots(rest), images, listing);
            assert(is_tree(list, tree));
            assert(roots(next) =~= roots(rest) + roots(tree.below));
            assert forall|i: int| 0 <= i < next.len() implies is_tree(list, #[trigger] next[i]) by {
                if i < rest.len() {
                    assert(next[i] == trees[i]);
                } else {
                    assert(next[i] == tree.below[i - rest.len()]);
                }
            }
            lemma_directories_on_top(rest, tree.below);
            lemma_search(list, next, images + images_of(listing), (n - 1) as nat);
            assert(dirs.first() == tree.path);
            assert(dirs.drop_first() =~= directories_in_all(next));
            assert(images + images_of(listing) + images_in(list, directories_in_all(next))
                =~= images + images_in(list, dirs));
        }
    }
}

/// A search comes to an end when it has read every directory it should, and not before: the root
/// alone, or, in a recursive search, all directories of the tree. It has then found each image
/// file of each of these directories once, and nothing else.
pub proof fn law_search_finds_all_images(
    list: spec_fn(PathBuf) -> Seq<DirEntry>,
    recursive: bool,
    tree: Tree,
    n: nat,
)
    requires
        recursive ==> is_tree(list, tree),
    ensures
        ({
            let (pending, found) = search_after(list, recursive, seq![tree.path], seq![], n);
            let dirs = if recursive {
                directories_in(tree)
            } else {
                seq![tree.path]
            };
            &&& pending.len() == 0 <==> n >= dirs.len()
            &&& pending.len() == 0 ==> found == images_in(list, dirs)
        }),
{
    let start = seq![tree.path];
    if recursive {
        let trees = seq![tree];
        assert(roots(trees) =~= start);
        assert(trees.subrange(0, 0) =~= Seq::empty());
        assert(directories_in_all(trees) =~= directories_in(tree)) by {
            reveal_with_fuel(directories_in_all, 2);
        }
        lemma_search(list, trees, seq![], n);
        assert(seq![] + images_in(list, directories_in(tree)) =~= images_in(
            list,
            directories_in(tree),
        ));
    } else {
        reveal_with_fuel(images_in, 2);
        reveal_with_fuel(search_after, 2);
        assert(images_in(list, start) =~= images_of(list(tree.path)));
        if n > 0 {
            law_listing(false, seq![], seq![], list(tree.path));
            assert(start.drop_last() =~= seq![]);
            assert(seq![] + images_of(list(tree.path)) =~= images_of(list(tree.path)));
        }
    }
}

/// The directories of a tree are closed: with a directory, each directory in its listing is there.
pub proof fn law_subdirectories_are_in_the_tree(
    list: spec_fn(PathBuf) -> Seq<DirEntry>,
    tree: Tree,
    dir: PathBuf,
    sub: PathBuf,
)
    requires
        is_tree(list, tree),
        directories_in(tree).contains(dir),
        directories_of(list(dir)).contains(sub),
    ensures
        directories_in(tree).contains(sub),
    decreases tree,
{
    let all = directories_in(tree);
    let below = directories_in_all(tree.below);
    if dir == tree.path {
        let i = directories_of(list(dir)).index_of(sub);
        assert(roots(tree.below)[i] == sub);
        assert(directories_in(tree.below[i])[0] == sub);
        lemma_directories_of_one(tree.below, i, sub);
    } else {
        let j = choose|j: int| 0 <= j < all.len() && all[j] == dir;
        assert(below[j - 1] == dir);
        let i = lemma_directories_of_some(tree.below, dir);
        law_subdirectories_are_in_the_tree(list, tree.below[i], dir, sub);
        lemma_directories_of_one(tree.below, i, sub);
    }
    let k = choose|k: int| 0 <= k < below.len() && below[k] == sub;
    assert(all[k + 1] == sub);
}

/// A directory of one of some trees is among the directories of all.
proof fn lemma_directories_of_one(trees: Seq<Tree>, i: int, dir: PathBuf)
    requires
        0 <= i < trees.len(),
        directories_in(trees[i]).contains(dir),
    ensures
        directories_in_all(trees).contains(dir),
    decreases trees.len(),
{
    let last = directories_in(trees[trees.len() - 1]);
    let rest = trees.subrange(0, trees.len() - 1);
    let all = directories_in_all(trees);
    if i == trees.len() - 1 {
        let j = choose|j: int| 0 <= j < last.len() && last[j] == dir;
        assert(all[j] == dir);
    } else {
        assert(rest[i] == trees[i]);
        lemma_directories_of_one(rest, i, dir);
        let others = directories_in_all(rest);
        let j = choose|j: int| 0 <= j < others.len() && others[j] == dir;
        assert(all[last.len() + j] == dir);
    }
}

/// A directory among those of all trees is a directory of one of them.
proof fn lemma_directories_of_some(trees: Seq<Tree>, dir: PathBuf) -> (i: int)
    requires
        directories_in_all(trees).contains(dir),
    ensures
        0 <= i < trees.len(),
        directories_in(trees[i]).contains(dir),
    decreases trees.len(),
{
    let all = directories_in_all(trees);
    let j = choose|j: int| 0 <= j < all.len() && all[j] == dir;
    let last = directories_in(trees[trees.len() - 1]);
    let rest = trees.subrange(0, trees.len() - 1);
    if j < last.len() {
        assert(last[j] == dir);
        trees.len() - 1
    } else {
        assert(directories_in_all(rest)[j - last.len()] == dir);
        lemma_directories_of_some(rest, dir)
    }
}

/// A name with something before its last dot is that of an image exactly if what follows is `png`,
/// `jpg`, `jpeg`, `webp` or `avif`, in letters of either case.
pub proof fn law_images_by_extension(stem: Seq<u8>, ext: Seq<u8>)
    requires
        stem.len() > 0,
        !ext.contains(46u8),
    ensures
        ({
            let lower = ext.map_values(
                |b: u8|
                    if 65 <= b <= 90 {
                        (b + 32) as u8
                    } else {
                        b
                    },
            );
            is_supported_name(stem + seq![46u8] + ext) <==> {
                ||| lower == seq![112u8, 110u8, 103u8]
                ||| lower == seq![106u8, 112u8, 103u8]
                ||| lower == seq![106u8, 112u8, 101u8, 103u8]
                ||| lower == seq![119u8, 101u8, 98u8, 112u8]
                ||| lower == seq![97u8, 118u8, 105u8, 102u8]
            }
        }),
{
    let name = stem + seq![46u8] + ext;
    let dot = stem.len() as int;
    let lower = ext.map_values(
        |b: u8|
            if 65 <= b <= 90 {
                (b + 32) as u8
            } else {
                b
            },
    );
    reveal_strlit("png");
    reveal_strlit("jpg");
    reveal_strlit("jpeg");
    reveal_strlit("webp");
    reveal_strlit("avif");
    assert(name[dot] == 46u8);
    assert(name.contains(46u8));
    name.index_of_last_ensures(46u8);
    let last = name.index_of_last(46u8)->0;
    assert(last == dot) by {
        if last > dot {
            assert(ext[last - dot - 1] == name[last]);
        }
    }
    assert(name.skip(dot + 1) =~= ext);
    let text = lowered(ext);
    assert forall|i: int| 0 <= i < ext.len() implies #[trigger] text[i] as int == lower[i] by {}
    lemma_same_text(text, lower, "png"@, seq![112u8, 110u8, 103u8]);
    lemma_same_text(text, lower, "jpg"@, seq![106u8, 112u8, 103u8]);
    lemma_same_text(text, lower, "jpeg"@, seq![106u8, 112u8, 101u8, 103u8]);
    lemma_same_text(text, lower, "webp"@, seq![119u8, 101u8, 98u8, 112u8]);
    lemma_same_text(text, lower, "avif"@, seq![97u8, 118u8, 105u8, 102u8]);
    assert(SUPPORTED@[0]@ == "png"@);
    assert(SUPPORTED@[1]@ == "jpg"@);
    assert(SUPPORTED@[2]@ == "jpeg"@);
    assert(SUPPORTED@[3]@ == "webp"@);
    assert(SUPPORTED@[4]@ == "avif"@);
    if ext.len() == 0 {
        assert(lower.len() == 0);
    } else {
        assert(name.len() > 2 || name[1] != 46u8);
        assert(name != seq![46u8, 46u8]) by {
            if name == seq![46u8, 46u8] {
                assert(name.len() == 2);
            }
        }
    }
}

proof fn lemma_same_text(text: Seq<char>, bytes: Seq<u8>, word: Seq<char>, codes: Seq<u8>)
    requires
        text.len() == bytes.len(),
        word.len() == codes.len(),
        forall|i: int| 0 <= i < text.len() ==> #[trigger] text[i] as int == bytes[i],
        forall|i: int| 0 <= i < word.len() ==> #[trigger] word[i] as int == codes[i],
    ensures
        text == word <==> bytes == codes,
{
    if text == word {
        assert forall|i: int| 0 <= i < bytes.len() implies bytes[i] == codes[i] by {
            assert(text[i] as int == bytes[i]);
            assert(word[i] as int == codes[i]);
        }
        assert(bytes =~= codes);
    }
    if bytes == codes {
        assert forall|i: int| 0 <= i < text.len() implies text[i] == word[i] by {
            assert(text[i] as int == bytes[i]);
            assert(word[i] as int == codes[i]);
        }
        assert(text =~= word);
    }
}

/// A name without a dot, or with no dot but one at its start, is that of no image.
pub proof fn law_no_extension_no_image(name: Seq<u8>)
    requires
        !name.contains(46u8),
    ensures
        !is_supported_name(name),
        !is_supported_name(seq![46u8] + name),
{
    let hidden = seq![46u8] + name;
    name.index_of_last_ensures(46u8);
    hidden.index_of_last_ensures(46u8);
    assert(hidden[0] == 46u8);
    assert(hidden.contains(46u8));
    let last = hidden.index_of_last(46u8)->0;
    if last > 0 {
        assert(name[last - 1] == hidden[last]);
    }
}

/// An entry adds its path to the images if it is a file with the name of an image, to what is to be
/// read if it is a directory and the search is recursive, and to nothing otherwise.
pub proof fn law_entry_goes_where_it_belongs(
    recursive: bool,
    pending: Seq<PathBuf>,
    images: Seq<PathBuf>,
    entry: DirEntry,
)
    ensures
        images_after(images, entry) == if !entry.is_dir && is_supported_name(entry.file_name@) {
            images.push(entry.path)
        } else {
            images
        },
        pending_after(recursive, pending, entry) == if recursive && entry.is_dir {
            pending.push(entry.path)
        } else {
            pending
        },
{
}

/// A file is taken by its name exactly if something stands before the last dot and `png`, `jpg`,
/// `jpeg`, `webp` or `avif` behind it, in letters of either case.
pub proof fn law_file_is_taken_by_its_name(
    file_name: &[u8],
    stem: Seq<u8>,
    ext: Seq<u8>,
    taken: bool,
)
    requires
        call_ensures(is_supported, (file_name,), taken),
        file_name@ == stem + seq![46u8] + ext,
        !ext.contains(46u8),
    ensures
        ({
            let lower = ext.map_values(
                |b: u8|
                    if 65 <= b <= 90 {
                        (b + 32) as u8
                    } else {
                        b
                    },
            );
            taken <==> stem.len() > 0 && {
                ||| lower == seq![112u8, 110u8, 103u8]
                ||| lower == seq![106u8, 112u8, 103u8]
                ||| lower == seq![106u8, 112u8, 101u8, 103u8]
                ||| lower == seq![119u8, 101u8, 98u8, 112u8]
                ||| lower == seq![97u8, 118u8, 105u8, 102u8]
            }
        }),
{
    if stem.len() > 0 {
        law_images_by_extension(stem, ext);
    } else {
        law_no_extension_no_image(ext);
        assert(file_name@ =~= seq![46u8] + ext);
    }
}

/// A search starts with nothing found and its root to be read, and gives what it has found.
pub proof fn law_search_from_root_to_images(
    root: PathBuf,
    recursive: bool,
    start: ImageSearch,
    end: ImageSearch,
    images: Vec<PathBuf>,
)
    requires
        call_ensures(ImageSearch::new, (root, recursive), start),
        call_ensures(ImageSearch::into_images, (end,), images),
    ensures
        start.recursive == recursive,
        start.pending@ == seq![root],
        start.images@.len() == 0,
        images@ == end.images@,
{
}

} // verus!
