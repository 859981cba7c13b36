//! Finding the images of a directory tree.

use crate::path::{
    child, copy_bytes, is_below, is_normal, is_supported, is_verbatim, joined, name_bytes,
    names_text, path_text, paths_view, resolved, single, supported, NameView, OsPath, PathView,
    Separator,
};
use crate::spelling::{is_component, is_spelled, lemma_entry_is_spelled};
use vstd::prelude::*;
use vstd::relations::{sorted_by, total_ordering};
use vstd::seq_lib::lemma_sorted_unique;

verus! {

/// What reading a directory gave.
pub enum Listing {
    /// The directory could not be read.
    Unreadable(String),
    /// Its entries, in the order in which they were read.
    Entries(Vec<Entry>),
}

/// One entry of a directory.
pub enum Entry {
    /// The entry could not be read.
    Unreadable(String),
    /// An entry with its name and how that is shown.
    Named { name: Vec<u8>, text: String, kind: EntryKind },
}

/// What an entry is.
pub enum EntryKind {
    /// A directory with what it holds, which matters only where directories are entered.
    Directory(Listing),
    /// An ordinary file.
    File,
    /// Neither a directory nor an ordinary file.
    Other,
}

/// What a walk over a directory finds: images up to the first failure, and that failure.
#[verifier::ext_equal]
pub struct Found {
    pub images: Seq<PathView>,
    pub failure: Option<Seq<char>>,
}

/// The path of an entry of the directory `dir`.
pub open spec fn entry_path(
    dir: PathView,
    name: Seq<u8>,
    text: Seq<char>,
    separator: Separator,
) -> PathView {
    joined(dir, single(name, text), separator)
}

/// What a walk finds in the directory `dir`.
pub open spec fn found_in(
    dir: PathView,
    listing: Listing,
    recursive: bool,
    separator: Separator,
) -> Found
    decreases listing, 0nat,
{
    match listing {
        Listing::Unreadable(e) => Found { images: Seq::empty(), failure: Some(e@) },
        Listing::Entries(entries) => found_among(
            dir,
            entries@,
            entries@.len(),
            recursive,
            separator,
        ),
    }
}

/// What a walk finds in the first `n` entries of the directory `dir`.
pub open spec fn found_among(
    dir: PathView,
    entries: Seq<Entry>,
    n: nat,
    recursive: bool,
    separator: Separator,
) -> Found
    decreases entries, n,
{
    if n == 0 || n > entries.len() {
        Found { images: Seq::empty(), failure: None }
    } else {
        let before = found_among(dir, entries, (n - 1) as nat, recursive, separator);
        if before.failure is Some {
            before
        } else {
            match entries[n - 1] {
                Entry::Unreadable(e) => Found { images: before.images, failure: Some(e@) },
                Entry::Named { name, text, kind } => {
                    let path = entry_path(dir, name@, text@, separator);
                    match kind {
                        EntryKind::Directory(inner) => if recursive {
                            let below = found_in(path, inner, recursive, separator);
                            Found { images: before.images + below.images, failure: below.failure }
                        } else {
                            before
                        },
                        EntryKind::File => if supported(path) {
                            Found { images: before.images.push(path), failure: None }
                        } else {
                            before
                        },
                        EntryKind::Other => before,
                    }
                },
            }
        }
    }
}

proof fn lemma_paths_view_push(paths: Seq<OsPath>, path: OsPath)
    ensures
        paths_view(paths.push(path)) == paths_view(paths).push(path@),
{
    assert(paths_view(paths.push(path)) =~= paths_view(paths).push(path@));
}

/// Appends to `out` the supported images below `dir`, and stops at the first failure.
pub fn walk(
    dir: &OsPath,
    listing: &Listing,
    recursive: bool,
    separator: Separator,
    out: &mut Vec<OsPath>,
) -> (r: Result<(), String>)
    ensures
        paths_view(final(out)@) == paths_view(old(out)@) + found_in(
            dir@,
            *listing,
            recursive,
            separator,
        ).images,
        r is Ok <==> found_in(dir@, *listing, recursive, separator).failure is None,
        r matches Err(e) ==> found_in(dir@, *listing, recursive, separator).failure == Some(e@),
    decreases listing,
{
    match listing {
        Listing::Unreadable(e) => {
            assert(paths_view(out@) =~= paths_view(old(out)@) + Seq::<PathView>::empty());
            Err(e.clone())
        },
        Listing::Entries(entries) => {
            let n: usize = entries.len();
            let mut i: usize = 0;
            let ghost start = paths_view(out@);
            assert(start =~= start + found_among(dir@, entries@, 0, recursive, separator).images);
            while i < n
                invariant
                    i <= n,
                    n == entries@.len(),
                    *listing == Listing::Entries(*entries),
                    start == paths_view(old(out)@),
                    paths_view(out@) == start + found_among(
                        dir@,
                        entries@,
                        i as nat,
                        recursive,
                        separator,
                    ).images,
                    found_among(dir@, entries@, i as nat, recursive, separator).failure is None,
                decreases n - i,
            {
                let ghost after = found_among(
                    dir@,
                    entries@,
                    (i + 1) as nat,
                    recursive,
                    separator,
                );
                match &entries[i] {
                    Entry::Unreadable(e) => {
                        proof {
                            lemma_failure_stays(
                                dir@,
                                entries@,
                                (i + 1) as nat,
                                n as nat,
                                recursive,
                                separator,
                            );
                        }
                        return Err(e.clone());
                    },
                    Entry::Named { name, text, kind } => match kind {
                        EntryKind::Directory(inner) => {
                            if recursive {
                                let sub = child(dir, name, text, separator);
                                let r = walk(&sub, inner, recursive, separator, out);
                                assert(paths_view(out@) =~= start + after.images);
                                if let Err(e) = r {
                                    proof {
                                        lemma_failure_stays(
                                            dir@,
                                            entries@,
                                            (i + 1) as nat,
                                            n as nat,
                                            recursive,
                                            separator,
                                        );
                                    }
                                    return Err(e);
                                }
                            }
                        },
                        EntryKind::File => {
                            let candidate = child(dir, name, text, separator);
                            if is_supported(&candidate) {
                                proof {
                                    lemma_paths_view_push(out@, candidate);
                                }
                                out.push(candidate);
                                assert(paths_view(out@) =~= start + after.images);
                            }
                        },
                        EntryKind::Other => {},
                    },
                }
                i = i + 1;
            }
            Ok(())
        },
    }
}

/// A failure among the first entries is what the walk reports.
proof fn lemma_failure_stays(
    dir: PathView,
    entries: Seq<Entry>,
    m: nat,
    n: nat,
    recursive: bool,
    separator: Separator,
)
    requires
        m <= n <= entries.len(),
        found_among(dir, entries, m, recursive, separator).failure is Some,
    ensures
        found_among(dir, entries, n, recursive, separator) == found_among(
            dir,
            entries,
            m,
            recursive,
            separator,
        ),
    decreases n - m,
{
    if m < n {
        lemma_failure_stays(dir, entries, m, (n - 1) as nat, recursive, separator);
    }
}

/// `a` comes before `b` in the order of byte strings, or they are the same.
pub open spec fn bytes_le(a: Seq<u8>, b: Seq<u8>) -> bool
    decreases a.len(),
{
    if a.len() == 0 {
        true
    } else if b.len() == 0 {
        false
    } else if a[0] != b[0] {
        a[0] < b[0]
    } else {
        bytes_le(a.skip(1), b.skip(1))
    }
}

/// `a` comes before `b` in the order of paths, which goes name by name, or they are the same.
pub open spec fn names_le(a: Seq<Seq<u8>>, b: Seq<Seq<u8>>) -> bool
    decreases a.len(),
{
    if a.len() == 0 {
        true
    } else if b.len() == 0 {
        false
    } else if a[0] != b[0] {
        bytes_le(a[0], b[0])
    } else {
        names_le(a.skip(1), b.skip(1))
    }
}

/// `paths` stand in the order of paths.
pub open spec fn in_path_order(paths: Seq<Seq<Seq<u8>>>) -> bool {
    forall|i: int, j: int|
        0 <= i < j < paths.len() ==> names_le(#[trigger] paths[i], #[trigger] paths[j])
}

/// Where a path stands in the order of paths: the bytes of its components.
pub open spec fn keys_of(paths: Seq<PathView>) -> Seq<Seq<Seq<u8>>> {
    Seq::new(paths.len(), |i: int| name_bytes(paths[i].names))
}

/// The paths of `paths` with the given key, in turn.
pub open spec fn with_key(paths: Seq<PathView>, key: Seq<Seq<u8>>) -> Seq<PathView> {
    paths.filter(|p: PathView| name_bytes(p.names) == key)
}

/// The bytes of the components of a path.
pub fn key_of(path: &OsPath) -> (key: Vec<Vec<u8>>)
    ensures
        key@.len() == path@.names.len(),
        forall|i: int| 0 <= i < key@.len() ==> (#[trigger] key@[i])@ == path@.names[i].bytes,
{
    let mut key: Vec<Vec<u8>> = Vec::new();
    let n: usize = path.names.len();
    let mut i: usize = 0;
    while i < n
        invariant
            i <= n,
            n == path.names@.len(),
            key@.len() == i,
            forall|j: int| 0 <= j < i ==> (#[trigger] key@[j])@ == path@.names[j].bytes,
        decreases n - i,
    {
        key.push(copy_bytes(&path.names[i].bytes));
        i = i + 1;
    }
    key
}

/// Calls `<[T]>::sort_by_key` of std with the bytes of the components as the key. std orders
/// vectors lexicographically by their elements and bytes by their value; the sort moves the
/// paths, keeps them all, and is stable: paths with the same key stay in the order that they
/// had.
#[verifier::external_body]
fn sort_paths(paths: &mut Vec<OsPath>)
    ensures
        in_path_order(keys_of(paths_view(final(paths)@))),
        paths_view(final(paths)@).to_multiset() == paths_view(old(paths)@).to_multiset(),
        forall|key: Seq<Seq<u8>>| #[trigger]
            with_key(paths_view(final(paths)@), key) == with_key(paths_view(old(paths)@), key),
{
    paths.sort_by_key(|p| key_of(p));
}

/// `images` are what a walk found, every one once for each time it was found, in the order of
/// paths; those that this order does not tell apart stand as they were found.
pub open spec fn is_collection(found: Seq<PathView>, images: Seq<PathView>) -> bool {
    &&& in_path_order(keys_of(images))
    &&& images.to_multiset() == found.to_multiset()
    &&& forall|key: Seq<Seq<u8>>| #[trigger] with_key(images, key) == with_key(found, key)
}

/// Collects the supported images of the input directory, those of its subdirectories included
/// where `recursive` is set, in the order of their paths. `listing` is what reading the input
/// directory gave. The first thing that could not be read makes the collection fail.
pub fn collect_images(
    input: &OsPath,
    listing: &Listing,
    recursive: bool,
    separator: Separator,
) -> (r: Result<Vec<OsPath>, String>)
    ensures
        r is Ok <==> found_in(input@, *listing, recursive, separator).failure is None,
        r matches Err(e) ==> found_in(input@, *listing, recursive, separator).failure == Some(e@),
        r matches Ok(images) ==> is_collection(
            found_in(input@, *listing, recursive, separator).images,
            paths_view(images@),
        ),
{
    let mut images: Vec<OsPath> = Vec::new();
    let walked = walk(input, listing, recursive, separator, &mut images);
    let ghost expected = found_in(input@, *listing, recursive, separator).images;
    assert(paths_view(images@) =~= expected);
    if let Err(e) = walked {
        return Err(e);
    }
    sort_paths(&mut images);
    Ok(images)
}

/// What a system gives for a directory: entries named by names, not by `.` or `..`, and texts
/// for these that hold no separator.
pub open spec fn is_sound(listing: Listing, separator: Separator) -> bool
    decreases listing, 0nat,
{
    match listing {
        Listing::Unreadable(_) => true,
        Listing::Entries(entries) => are_sound(entries@, entries@.len(), separator),
    }
}

/// The first `n` entries are what a system gives.
pub open spec fn are_sound(entries: Seq<Entry>, n: nat, separator: Separator) -> bool
    decreases entries, n,
{
    n == 0 || n > entries.len() || {
        &&& are_sound(entries, (n - 1) as nat, separator)
        &&& match entries[n - 1] {
            Entry::Unreadable(_) => true,
            Entry::Named { name, text, kind } => {
                &&& is_normal(name@)
                &&& is_component(
                    NameView { gap: Seq::empty(), bytes: name@, text: text@ },
                    separator,
                )
                &&& match kind {
                    EntryKind::Directory(inner) => is_sound(inner, separator),
                    EntryKind::File => true,
                    EntryKind::Other => true,
                }
            },
        }
    }
}

/// `image` is a path that a walk from the directory `dir` reaches: the parts of `dir`, then
/// names.
pub open spec fn reached_from(dir: PathView, image: PathView) -> bool {
    &&& image.prefix == dir.prefix
    &&& image.root is Some <==> dir.root is Some || is_verbatim(dir)
    &&& image.trail == Seq::<char>::empty()
    &&& dir.names.len() < image.names.len()
    &&& name_bytes(dir.names).is_prefix_of(name_bytes(image.names))
    &&& forall|i: int|
        dir.names.len() <= i < image.names.len() ==> is_normal((#[trigger] image.names[i]).bytes)
}

/// The path of an entry is reached from the directory.
pub proof fn lemma_entry_is_reached(
    dir: PathView,
    name: Seq<u8>,
    text: Seq<char>,
    separator: Separator,
)
    requires
        is_normal(name),
        text.len() > 0,
    ensures
        reached_from(dir, entry_path(dir, name, text, separator)),
        entry_path(dir, name, text, separator).names.len() == dir.names.len() + 1,
{
    let entry = single(name, text);
    let path = entry_path(dir, name, text, separator);
    let n = dir.names.len() as int;
    reveal_with_fuel(names_text, 2);
    reveal_with_fuel(resolved, 2);
    assert(entry.names.drop_last() =~= Seq::<NameView>::empty());
    assert(path_text(entry) =~= text);
    assert(resolved(dir.names, entry.names) =~= dir.names.push(entry.names[0]));
    assert(name_bytes(dir.names) =~= name_bytes(path.names).subrange(0, n));
    assert(path.names[n].bytes == name);
}

proof fn lemma_reached_through(dir: PathView, sub: PathView, image: PathView)
    requires
        reached_from(dir, sub),
        reached_from(sub, image),
    ensures
        reached_from(dir, image),
{
    let n = dir.names.len() as int;
    let m = sub.names.len() as int;
    let x = name_bytes(dir.names);
    let y = name_bytes(sub.names);
    let z = name_bytes(image.names);
    assert(x =~= z.subrange(0, n)) by {
        assert(x == y.subrange(0, n));
        assert(y == z.subrange(0, m));
    }
    assert forall|i: int| n <= i < image.names.len() implies is_normal(
        (#[trigger] image.names[i]).bytes,
    ) by {
        if i < m {
            assert(y[i] == z.subrange(0, m)[i]);
            assert(sub.names[i].bytes == image.names[i].bytes);
        }
    }
}

/// What a walk reaches lies below the directory where it began.
pub proof fn lemma_reached_lies_below(dir: PathView, image: PathView, separator: Separator)
    requires
        is_spelled(dir, separator),
        reached_from(dir, image),
    ensures
        is_below(dir, image),
{
}

/// Every image found lies below the directory that was walked, falls into parts as the path of
/// the directory does, and has the extension of a supported image. Without recursion it lies
/// directly in that directory.
pub proof fn law_found_images_lie_below(
    dir: PathView,
    listing: Listing,
    recursive: bool,
    separator: Separator,
)
    requires
        is_spelled(dir, separator),
        is_sound(listing, separator),
    ensures
        forall|i: int|
            0 <= i < found_in(dir, listing, recursive, separator).images.len() ==> {
                let image = #[trigger] found_in(dir, listing, recursive, separator).images[i];
                &&& is_below(dir, image)
                &&& reached_from(dir, image)
                &&& is_spelled(image, separator)
                &&& supported(image)
                &&& !recursive ==> image.names.len() == dir.names.len() + 1
            },
    decreases listing, 0nat,
{
    if let Listing::Entries(entries) = listing {
        lemma_found_among_lie_below(dir, entries@, entries@.len(), recursive, separator);
    }
    let found = found_in(dir, listing, recursive, separator).images;
    assert forall|i: int| 0 <= i < found.len() implies is_below(dir, #[trigger] found[i]) by {
        lemma_reached_lies_below(dir, found[i], separator);
    }
}

proof fn lemma_found_among_lie_below(
    dir: PathView,
    entries: Seq<Entry>,
    n: nat,
    recursive: bool,
    separator: Separator,
)
    requires
        is_spelled(dir, separator),
        are_sound(entries, n, separator),
    ensures
        forall|i: int|
            0 <= i < found_among(dir, entries, n, recursive, separator).images.len() ==> {
                let image = #[trigger] found_among(
                    dir,
                    entries,
                    n,
                    recursive,
                    separator,
                ).images[i];
                &&& reached_from(dir, image)
                &&& is_spelled(image, separator)
                &&& supported(image)
                &&& !recursive ==> image.names.len() == dir.names.len() + 1
            },
    decreases entries, n,
{
    if 0 < n <= entries.len() {
        lemma_found_among_lie_below(dir, entries, (n - 1) as nat, recursive, separator);
        if let Entry::Named { name, text, kind } = entries[n - 1] {
            let path = entry_path(dir, name@, text@, separator);
            lemma_entry_is_reached(dir, name@, text@, separator);
            lemma_entry_is_spelled(dir, name@, text@, separator);
            if let EntryKind::Directory(inner) = kind {
                law_found_images_lie_below(path, inner, recursive, separator);
                let below = found_in(path, inner, recursive, separator).images;
                assert forall|i: int| 0 <= i < below.len() implies reached_from(
                    dir,
                    #[trigger] below[i],
                ) by {
                    lemma_reached_through(dir, path, below[i]);
                }
            }
        }
    }
}

/// Entering subdirectories loses nothing: where a recursive walk succeeds, it finds every image
/// that a walk of the directory alone finds, and that walk succeeds too.
pub proof fn law_recursion_only_adds(dir: PathView, listing: Listing, separator: Separator)
    requires
        found_in(dir, listing, true, separator).failure is None,
    ensures
        found_in(dir, listing, false, separator).failure is None,
        forall|i: int|
            0 <= i < found_in(dir, listing, false, separator).images.len() ==> found_in(
                dir,
                listing,
                true,
                separator,
            ).images.contains(#[trigger] found_in(dir, listing, false, separator).images[i]),
{
    if let Listing::Entries(entries) = listing {
        lemma_recursion_only_adds(dir, entries@, entries@.len(), separator);
    }
}

proof fn lemma_recursion_only_adds(
    dir: PathView,
    entries: Seq<Entry>,
    n: nat,
    separator: Separator,
)
    requires
        found_among(dir, entries, n, true, separator).failure is None,
    ensures
        found_among(dir, entries, n, false, separator).failure is None,
        forall|i: int|
            0 <= i < found_among(dir, entries, n, false, separator).images.len() ==> found_among(
                dir,
                entries,
                n,
                true,
                separator,
            ).images.contains(
                #[trigger] found_among(dir, entries, n, false, separator).images[i],
            ),
    decreases n,
{
    if 0 < n <= entries.len() {
        let m = (n - 1) as nat;
        lemma_recursion_only_adds(dir, entries, m, separator);
        let flat = found_among(dir, entries, n, false, separator).images;
        let flat_before = found_among(dir, entries, m, false, separator).images;
        let deep = found_among(dir, entries, n, true, separator).images;
        let deep_before = found_among(dir, entries, m, true, separator).images;
        assert forall|i: int| 0 <= i < flat.len() implies deep.contains(#[trigger] flat[i]) by {
            if i < flat_before.len() {
                assert(flat[i] == flat_before[i]);
                let k = choose|k: int| 0 <= k < deep_before.len() && deep_before[k] == flat[i];
                assert(deep[k] == flat[i]);
            } else {
                assert(deep.last() == flat[i]);
            }
        }
    }
}

proof fn lemma_bytes_le_total(a: Seq<u8>, b: Seq<u8>)
    ensures
        bytes_le(a, a),
        bytes_le(a, b) || bytes_le(b, a),
        bytes_le(a, b) && bytes_le(b, a) ==> a == b,
    decreases a.len(),
{
    if a.len() > 0 {
        lemma_bytes_le_total(a.skip(1), if b.len() > 0 { b.skip(1) } else { b });
        if b.len() > 0 && a[0] == b[0] && bytes_le(a, b) && bytes_le(b, a) {
            assert(a =~= seq![a[0]] + a.skip(1));
            assert(b =~= seq![b[0]] + b.skip(1));
        }
    } else if b.len() == 0 {
        assert(a =~= b);
    }
}

proof fn lemma_bytes_le_transitive(a: Seq<u8>, b: Seq<u8>, c: Seq<u8>)
    requires
        bytes_le(a, b),
        bytes_le(b, c),
    ensures
        bytes_le(a, c),
    decreases a.len(),
{
    if a.len() > 0 && b.len() > 0 && c.len() > 0 && a[0] == b[0] && b[0] == c[0] {
        lemma_bytes_le_transitive(a.skip(1), b.skip(1), c.skip(1));
    }
}

proof fn lemma_names_le_total(a: Seq<Seq<u8>>, b: Seq<Seq<u8>>)
    ensures
        names_le(a, a),
        names_le(a, b) || names_le(b, a),
        names_le(a, b) && names_le(b, a) ==> a == b,
    decreases a.len(),
{
    if a.len() > 0 {
        lemma_names_le_total(a.skip(1), if b.len() > 0 { b.skip(1) } else { b });
        if b.len() > 0 {
            lemma_bytes_le_total(a[0], b[0]);
            if a[0] == b[0] && names_le(a, b) && names_le(b, a) {
                assert(a =~= seq![a[0]] + a.skip(1));
                assert(b =~= seq![b[0]] + b.skip(1));
            }
        }
    } else if b.len() == 0 {
        assert(a =~= b);
    }
}

proof fn lemma_names_le_transitive(a: Seq<Seq<u8>>, b: Seq<Seq<u8>>, c: Seq<Seq<u8>>)
    requires
        names_le(a, b),
        names_le(b, c),
    ensures
        names_le(a, c),
    decreases a.len(),
{
    if a.len() > 0 && b.len() > 0 && c.len() > 0 {
        if a[0] == b[0] && b[0] == c[0] {
            lemma_names_le_transitive(a.skip(1), b.skip(1), c.skip(1));
        } else if a[0] != b[0] && b[0] != c[0] {
            lemma_bytes_le_transitive(a[0], b[0], c[0]);
            lemma_bytes_le_total(a[0], b[0]);
        }
    }
}

/// Paths that are the same but for their order have the same keys but for their order.
proof fn lemma_keys_multiset(a: Seq<PathView>, b: Seq<PathView>)
    requires
        a.to_multiset() == b.to_multiset(),
    ensures
        keys_of(a).to_multiset() == keys_of(b).to_multiset(),
    decreases a.len(),
{
    broadcast use vstd::seq_lib::group_to_multiset_ensures;

    assert(a.to_multiset().len() == a.len() && b.to_multiset().len() == b.len());
    if a.len() == 0 {
        assert(keys_of(a) =~= keys_of(b));
    } else {
        let last = a.last();
        assert(a.contains(last));
        assert(a.to_multiset().contains(last));
        assert(b.contains(last));
        let k = choose|k: int| 0 <= k < b.len() && b[k] == last;
        let shorter = b.remove(k);
        assert(a.drop_last() =~= a.remove(a.len() - 1));
        assert(a.drop_last().to_multiset() =~= a.to_multiset().remove(last));
        assert(shorter.to_multiset() =~= b.to_multiset().remove(last));
        lemma_keys_multiset(a.drop_last(), shorter);
        let key = name_bytes(last.names);
        assert(keys_of(a) =~= keys_of(a.drop_last()).push(key));
        assert(keys_of(shorter) =~= keys_of(b).remove(k));
        assert(keys_of(b).remove(k).to_multiset() =~= keys_of(b).to_multiset().remove(key));
        assert(keys_of(b).contains(keys_of(b)[k]));
        assert(keys_of(b).to_multiset().count(key) > 0);
        assert(keys_of(a).to_multiset() =~= keys_of(b).to_multiset());
    }
}

/// A collection is determined by what was found: two collections of the same images are the
/// same list, in whatever order the directories were read, as long as the images differ in the
/// bytes of their components.
pub proof fn law_collection_is_unique(
    found: Seq<PathView>,
    other_found: Seq<PathView>,
    images: Seq<PathView>,
    other_images: Seq<PathView>,
)
    requires
        found.to_multiset() == other_found.to_multiset(),
        forall|p: PathView, q: PathView|
            found.contains(p) && found.contains(q) && #[trigger] name_bytes(p.names)
                == #[trigger] name_bytes(q.names) ==> p == q,
        is_collection(found, images),
        is_collection(other_found, other_images),
    ensures
        images == other_images,
{
    broadcast use vstd::seq_lib::group_to_multiset_ensures;

    let leq = |a: Seq<Seq<u8>>, b: Seq<Seq<u8>>| names_le(a, b);
    assert(total_ordering(leq)) by {
        assert forall|a: Seq<Seq<u8>>, b: Seq<Seq<u8>>|
            (#[trigger] leq(a, b) || #[trigger] leq(b, a)) && (leq(a, b) && leq(b, a) ==> a == b)
                && leq(a, a) by {
            lemma_names_le_total(a, b);
        }
        assert forall|a: Seq<Seq<u8>>| #[trigger] leq(a, a) by {
            lemma_names_le_total(a, a);
        }
        assert forall|a: Seq<Seq<u8>>, b: Seq<Seq<u8>>, c: Seq<Seq<u8>>| #[trigger]
            leq(a, b) && #[trigger] leq(b, c) implies leq(a, c) by {
            lemma_names_le_transitive(a, b, c);
        }
    }
    let x = keys_of(images);
    let y = keys_of(other_images);
    assert(sorted_by(x, leq));
    assert(sorted_by(y, leq));
    lemma_keys_multiset(images, other_images);
    lemma_sorted_unique(x, y, leq);
    assert(images.len() == x.len() && other_images.len() == y.len());
    assert forall|i: int| 0 <= i < images.len() implies images[i] == other_images[i] by {
        assert(x[i] == y[i]);
        assert(images.contains(images[i]));
        assert(images.to_multiset().count(images[i]) > 0);
        assert(other_images.contains(other_images[i]));
        assert(other_images.to_multiset().count(other_images[i]) > 0);
        assert(found.contains(images[i]) && found.contains(other_images[i]));
    }
    assert(images =~= other_images);
}

/// Every image of a collection lies below the input directory, falls into parts as its path
/// does, and is named like a supported image.
pub proof fn law_collected_images_are_supported(
    input: PathView,
    listing: Listing,
    recursive: bool,
    separator: Separator,
    images: Seq<PathView>,
    i: int,
)
    requires
        is_spelled(input, separator),
        is_sound(listing, separator),
        is_collection(found_in(input, listing, recursive, separator).images, images),
        0 <= i < images.len(),
    ensures
        is_below(input, images[i]),
        reached_from(input, images[i]),
        is_spelled(images[i], separator),
        supported(images[i]),
        !recursive ==> images[i].names.len() == input.names.len() + 1,
{
    broadcast use vstd::seq_lib::group_to_multiset_ensures;

    let found = found_in(input, listing, recursive, separator).images;
    assert(images.contains(images[i]));
    assert(images.to_multiset().contains(images[i]));
    assert(found.contains(images[i]));
    let k = choose|k: int| 0 <= k < found.len() && found[k] == images[i];
    law_found_images_lie_below(input, listing, recursive, separator);
    assert(found[k] == images[i]);
}

} // verus!
