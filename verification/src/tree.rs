//! What a walk finds, said of the tree: every file and every failure lies at the end of a chain
//! of directory entries.

use crate::collect::{
    are_sound, bytes_le, entry_path, found_among, found_in, is_collection, is_sound, keys_of,
    lemma_entry_is_reached, names_le, Entry, EntryKind, Listing,
};
use crate::naming::{is_image_name, law_supported_is_by_name};
use crate::path::{
    is_normal, is_verbatim, name_bytes, names_text, path_text, resolved, single, NameView, PathView,
    Separator,
};
use crate::shown::texts_of;
use vstd::prelude::*;

verus! {

/// `chain` leads from a directory to a file: each position is that of an entry, the first in
/// the directory and each further one in the directory before it, and the last is a file. A
/// chain of more than one entry enters directories, which `recursive` allows.
pub open spec fn leads_to_file(listing: Listing, recursive: bool, chain: Seq<int>) -> bool
    decreases chain.len(),
{
    match listing {
        Listing::Unreadable(_) => false,
        Listing::Entries(entries) => chain.len() > 0 && 0 <= chain[0] < entries@.len() && (
        match entries@[chain[0]] {
            Entry::Unreadable(_) => false,
            Entry::Named { kind, .. } => match kind {
                EntryKind::File => chain.len() == 1,
                EntryKind::Directory(inner) => recursive && leads_to_file(
                    inner,
                    recursive,
                    chain.skip(1),
                ),
                EntryKind::Other => false,
            },
        }),
    }
}

/// The names along a chain.
pub open spec fn chain_names(listing: Listing, chain: Seq<int>) -> Seq<Seq<u8>>
    decreases chain.len(),
{
    match listing {
        Listing::Unreadable(_) => Seq::empty(),
        Listing::Entries(entries) => if chain.len() == 0 {
            Seq::empty()
        } else {
            match entries@[chain[0]] {
                Entry::Unreadable(_) => Seq::empty(),
                Entry::Named { name, kind, .. } => seq![name@] + (match kind {
                    EntryKind::Directory(inner) => chain_names(inner, chain.skip(1)),
                    EntryKind::File => Seq::empty(),
                    EntryKind::Other => Seq::empty(),
                }),
            }
        },
    }
}

/// How the names along a chain are shown.
pub open spec fn chain_texts(listing: Listing, chain: Seq<int>) -> Seq<Seq<char>>
    decreases chain.len(),
{
    match listing {
        Listing::Unreadable(_) => Seq::empty(),
        Listing::Entries(entries) => if chain.len() == 0 {
            Seq::empty()
        } else {
            match entries@[chain[0]] {
                Entry::Unreadable(_) => Seq::empty(),
                Entry::Named { text, kind, .. } => seq![text@] + (match kind {
                    EntryKind::Directory(inner) => chain_texts(inner, chain.skip(1)),
                    EntryKind::File => Seq::empty(),
                    EntryKind::Other => Seq::empty(),
                }),
            }
        },
    }
}

/// `chain` leads to something that could not be read: an entry, or the directory at its end.
pub open spec fn leads_to_failure(listing: Listing, recursive: bool, chain: Seq<int>) -> bool
    decreases chain.len(),
{
    match listing {
        Listing::Unreadable(_) => chain.len() == 0,
        Listing::Entries(entries) => chain.len() > 0 && 0 <= chain[0] < entries@.len() && (
        match entries@[chain[0]] {
            Entry::Unreadable(_) => chain.len() == 1,
            Entry::Named { kind, .. } => match kind {
                EntryKind::Directory(inner) => recursive && leads_to_failure(
                    inner,
                    recursive,
                    chain.skip(1),
                ),
                EntryKind::File => false,
                EntryKind::Other => false,
            },
        }),
    }
}

/// What is told of the failure at the end of a chain.
pub open spec fn failure_told(listing: Listing, chain: Seq<int>) -> Seq<char>
    decreases chain.len(),
{
    match listing {
        Listing::Unreadable(e) => e@,
        Listing::Entries(entries) => if chain.len() == 0 {
            Seq::empty()
        } else {
            match entries@[chain[0]] {
                Entry::Unreadable(e) => e@,
                Entry::Named { kind, .. } => match kind {
                    EntryKind::Directory(inner) => failure_told(inner, chain.skip(1)),
                    EntryKind::File => Seq::empty(),
                    EntryKind::Other => Seq::empty(),
                },
            }
        },
    }
}

/// One chain comes no later than another in the order in which directories are read.
pub open spec fn comes_no_later(a: Seq<int>, b: Seq<int>) -> bool
    decreases a.len(),
{
    if a.len() == 0 || b.len() == 0 {
        a.len() == 0
    } else {
        a[0] < b[0] || (a[0] == b[0] && comes_no_later(a.skip(1), b.skip(1)))
    }
}

/// `image` is the file at the end of a chain from the directory `dir`.
pub open spec fn is_file_at(
    dir: PathView,
    listing: Listing,
    chain: Seq<int>,
    image: PathView,
) -> bool {
    &&& image.prefix == dir.prefix
    &&& image.root is Some <==> dir.root is Some || is_verbatim(dir)
    &&& name_bytes(image.names) == name_bytes(dir.names) + chain_names(listing, chain)
    &&& texts_of(image.names) == texts_of(dir.names) + chain_texts(listing, chain)
    &&& image.trail.len() == 0
}

/// The images that the first entries give stay the first, as long as nothing fails.
proof fn lemma_images_grow(
    dir: PathView,
    entries: Seq<Entry>,
    m: nat,
    n: nat,
    recursive: bool,
    separator: Separator,
)
    requires
        m <= n <= entries.len(),
        found_among(dir, entries, n, recursive, separator).failure is None,
    ensures
        ({
            let few = found_among(dir, entries, m, recursive, separator);
            let all = found_among(dir, entries, n, recursive, separator);
            &&& few.failure is None
            &&& few.images.len() <= all.images.len()
            &&& forall|i: int|
                0 <= i < few.images.len() ==> #[trigger] few.images[i] == all.images[i]
        }),
    decreases n - m,
{
    if m < n {
        lemma_images_grow(dir, entries, m, (n - 1) as nat, recursive, separator);
    }
}

/// What one entry of a sound listing is like.
proof fn lemma_entry_is_sound(entries: Seq<Entry>, n: nat, k: int, separator: Separator)
    requires
        are_sound(entries, n, separator),
        0 <= k < n <= entries.len(),
    ensures
        are_sound(entries, (k + 1) as nat, separator),
    decreases n,
{
    if k < n - 1 {
        lemma_entry_is_sound(entries, (n - 1) as nat, k, separator);
    }
}

/// Every file with the name of an image, at every level, is found where nothing fails.
proof fn lemma_file_is_found(
    dir: PathView,
    listing: Listing,
    recursive: bool,
    separator: Separator,
    chain: Seq<int>,
) -> (i: int)
    requires
        is_sound(listing, separator),
        found_in(dir, listing, recursive, separator).failure is None,
        leads_to_file(listing, recursive, chain),
        is_image_name(chain_names(listing, chain).last()),
    ensures
        0 <= i < found_in(dir, listing, recursive, separator).images.len(),
        is_file_at(
            dir,
            listing,
            chain,
            found_in(dir, listing, recursive, separator).images[i],
        ),
        chain_names(listing, chain).len() > 0,
    decreases chain.len(),
{
    let entries = listing->Entries_0@;
    let k = chain[0];
    let n = entries.len();
    lemma_images_grow(dir, entries, (k + 1) as nat, n, recursive, separator);
    lemma_images_grow(dir, entries, k as nat, n, recursive, separator);
    lemma_entry_is_sound(entries, n, k, separator);
    let before = found_among(dir, entries, k as nat, recursive, separator).images;
    let here = found_among(dir, entries, (k + 1) as nat, recursive, separator).images;
    let all = found_in(dir, listing, recursive, separator).images;
    match entries[k] {
        Entry::Named { name, text, kind } => {
            let path = entry_path(dir, name@, text@, separator);
            lemma_entry_is_reached(dir, name@, text@, separator);
            lemma_entry_name(dir, name@, text@, separator);
            assert(name_bytes(path.names) =~= name_bytes(dir.names).push(name@)) by {
                let x = name_bytes(path.names);
                assert(name_bytes(dir.names) =~= x.subrange(0, dir.names.len() as int));
            }
            match kind {
                EntryKind::File => {
                    let names = chain_names(listing, chain);
                    assert(names =~= seq![name@]);
                    assert(path.names.last().bytes == name_bytes(path.names).last());
                    law_supported_is_by_name(path);
                    assert(here == before.push(path));
                    let i = before.len() as int;
                    assert(all[i] == here[i]);
                    assert(name_bytes(dir.names) + names =~= name_bytes(path.names));
                    assert(texts_of(dir.names) + chain_texts(listing, chain) =~= texts_of(
                        path.names,
                    ));
                    i
                },
                EntryKind::Directory(inner) => {
                    let names = chain_names(listing, chain);
                    let rest = chain_names(inner, chain.skip(1));
                    assert(names == seq![name@] + rest);
                    lemma_chain_has_names(inner, recursive, chain.skip(1));
                    assert(names.last() == rest.last());
                    let j = lemma_file_is_found(path, inner, recursive, separator, chain.skip(1));
                    let below = found_in(path, inner, recursive, separator).images;
                    assert(here == before + below);
                    let i = before.len() + j;
                    assert(here[i] == below[j]);
                    assert(all[i] == here[i]);
                    assert(name_bytes(path.names) + rest =~= name_bytes(dir.names) + names);
                    assert(texts_of(path.names) + chain_texts(inner, chain.skip(1))
                        =~= texts_of(dir.names) + chain_texts(listing, chain));
                    i
                },
                EntryKind::Other => 0,
            }
        },
        Entry::Unreadable(_) => 0,
    }
}

/// The last component of the path of an entry is the entry's name.
proof fn lemma_entry_name(dir: PathView, name: Seq<u8>, text: Seq<char>, separator: Separator)
    requires
        is_normal(name),
        text.len() > 0,
    ensures
        ({
            let path = entry_path(dir, name, text, separator);
            &&& path.names.len() == dir.names.len() + 1
            &&& path.names.last().bytes == name
            &&& texts_of(path.names) == texts_of(dir.names).push(text)
        }),
{
    let path = entry_path(dir, name, text, separator);
    let entry = single(name, text);
    reveal_with_fuel(names_text, 2);
    reveal_with_fuel(resolved, 2);
    assert(entry.names.drop_last() =~= Seq::<NameView>::empty());
    assert(path_text(entry) =~= text);
    assert(resolved(dir.names, entry.names) =~= dir.names.push(entry.names[0]));
    assert(texts_of(path.names) =~= texts_of(dir.names).push(text));
}

proof fn lemma_chain_has_names(listing: Listing, recursive: bool, chain: Seq<int>)
    requires
        leads_to_file(listing, recursive, chain),
    ensures
        chain_names(listing, chain).len() > 0,
{
}

/// Every image that is found is a file at the end of a chain, with the name of an image.
proof fn lemma_found_is_file(
    dir: PathView,
    listing: Listing,
    recursive: bool,
    separator: Separator,
    i: int,
) -> (chain: Seq<int>)
    requires
        is_sound(listing, separator),
        0 <= i < found_in(dir, listing, recursive, separator).images.len(),
    ensures
        leads_to_file(listing, recursive, chain),
        chain_names(listing, chain).len() > 0,
        is_image_name(chain_names(listing, chain).last()),
        is_file_at(
            dir,
            listing,
            chain,
            found_in(dir, listing, recursive, separator).images[i],
        ),
    decreases listing, 0nat,
{
    match listing {
        Listing::Entries(entries) => lemma_found_among_is_file(
            dir,
            listing,
            entries@,
            entries@.len(),
            recursive,
            separator,
            i,
        ),
        Listing::Unreadable(_) => Seq::empty(),
    }
}

proof fn lemma_found_among_is_file(
    dir: PathView,
    listing: Listing,
    entries: Seq<Entry>,
    n: nat,
    recursive: bool,
    separator: Separator,
    i: int,
) -> (chain: Seq<int>)
    requires
        listing matches Listing::Entries(v) && v@ == entries,
        n <= entries.len(),
        are_sound(entries, n, separator),
        0 <= i < found_among(dir, entries, n, recursive, separator).images.len(),
    ensures
        leads_to_file(listing, recursive, chain),
        chain_names(listing, chain).len() > 0,
        is_image_name(chain_names(listing, chain).last()),
        is_file_at(
            dir,
            listing,
            chain,
            found_among(dir, entries, n, recursive, separator).images[i],
        ),
    decreases entries, n,
{
    let before = found_among(dir, entries, (n - 1) as nat, recursive, separator).images;
    let image = found_among(dir, entries, n, recursive, separator).images[i];
    if i < before.len() {
        lemma_found_among_is_file(
            dir,
            listing,
            entries,
            (n - 1) as nat,
            recursive,
            separator,
            i,
        )
    } else {
        let k = n - 1;
        match entries[k] {
            Entry::Named { name, text, kind } => {
                let path = entry_path(dir, name@, text@, separator);
                lemma_entry_is_reached(dir, name@, text@, separator);
                lemma_entry_name(dir, name@, text@, separator);
                assert(name_bytes(path.names) =~= name_bytes(dir.names).push(name@)) by {
                    let x = name_bytes(path.names);
                    assert(name_bytes(dir.names) =~= x.subrange(0, dir.names.len() as int));
                }
                match kind {
                    EntryKind::File => {
                        let chain = seq![k];
                        assert(image == path);
                        law_supported_is_by_name(path);
                        assert(chain_names(listing, chain) =~= seq![name@]);
                        assert(name_bytes(dir.names) + chain_names(listing, chain)
                            =~= name_bytes(path.names));
                        assert(texts_of(dir.names) + chain_texts(listing, chain) =~= texts_of(
                            path.names,
                        ));
                        chain
                    },
                    EntryKind::Directory(inner) => {
                        let below = found_in(path, inner, recursive, separator).images;
                        assert(image == below[i - before.len()]);
                        let rest = lemma_found_is_file(
                            path,
                            inner,
                            recursive,
                            separator,
                            i - before.len(),
                        );
                        let chain = seq![k] + rest;
                        assert(chain.skip(1) =~= rest);
                        let names = chain_names(listing, chain);
                        assert(names == seq![name@] + chain_names(inner, rest));
                        assert(names.last() == chain_names(inner, rest).last());
                        assert(name_bytes(dir.names) + names =~= name_bytes(path.names)
                            + chain_names(inner, rest));
                        assert(texts_of(dir.names) + chain_texts(listing, chain) =~= texts_of(
                            path.names,
                        ) + chain_texts(inner, rest));
                        chain
                    },
                    EntryKind::Other => Seq::empty(),
                }
            },
            Entry::Unreadable(_) => Seq::empty(),
        }
    }
}

/// A walk fails exactly where a chain leads to something that could not be read, and tells of
/// the first such thing.
proof fn lemma_failure_is_first(
    dir: PathView,
    listing: Listing,
    recursive: bool,
    separator: Separator,
) -> (chain: Seq<int>)
    ensures
        ({
            let failure = found_in(dir, listing, recursive, separator).failure;
            &&& failure is None ==> forall|c: Seq<int>| !#[trigger]
                leads_to_failure(listing, recursive, c)
            &&& failure is Some ==> {
                &&& leads_to_failure(listing, recursive, chain)
                &&& failure == Some(failure_told(listing, chain))
                &&& forall|c: Seq<int>| #[trigger]
                    leads_to_failure(listing, recursive, c) ==> comes_no_later(chain, c)
            }
        }),
    decreases listing, 0nat,
{
    match listing {
        Listing::Entries(entries) => lemma_failure_among_is_first(
            dir,
            listing,
            entries@,
            entries@.len(),
            recursive,
            separator,
        ),
        Listing::Unreadable(_) => Seq::empty(),
    }
}

proof fn lemma_failure_among_is_first(
    dir: PathView,
    listing: Listing,
    entries: Seq<Entry>,
    n: nat,
    recursive: bool,
    separator: Separator,
) -> (chain: Seq<int>)
    requires
        listing matches Listing::Entries(v) && v@ == entries,
        n <= entries.len(),
    ensures
        ({
            let failure = found_among(dir, entries, n, recursive, separator).failure;
            &&& failure is None ==> forall|c: Seq<int>| #[trigger]
                leads_to_failure(listing, recursive, c) ==> c[0] >= n
            &&& failure is Some ==> {
                &&& leads_to_failure(listing, recursive, chain)
                &&& chain[0] < n
                &&& failure == Some(failure_told(listing, chain))
                &&& forall|c: Seq<int>| #[trigger]
                    leads_to_failure(listing, recursive, c) ==> comes_no_later(chain, c)
            }
        }),
    decreases entries, n,
{
    if n == 0 {
        Seq::empty()
    } else {
        let k = n - 1;
        let before = found_among(dir, entries, k as nat, recursive, separator);
        let earlier = lemma_failure_among_is_first(
            dir,
            listing,
            entries,
            k as nat,
            recursive,
            separator,
        );
        if before.failure is Some {
            earlier
        } else {
            match entries[k] {
                Entry::Unreadable(_) => {
                    let chain = seq![k];
                    reveal_with_fuel(comes_no_later, 2);
                    assert(chain.skip(1) =~= Seq::<int>::empty());
                    assert forall|c: Seq<int>| #[trigger]
                        leads_to_failure(listing, recursive, c) implies comes_no_later(
                        chain,
                        c,
                    ) by {}
                    chain
                },
                Entry::Named { name, text, kind } => match kind {
                    EntryKind::Directory(inner) => {
                        let path = entry_path(dir, name@, text@, separator);
                        let rest = lemma_failure_is_first(path, inner, recursive, separator);
                        let chain = seq![k] + rest;
                        assert(chain.skip(1) =~= rest);
                        assert forall|c: Seq<int>| #[trigger]
                            leads_to_failure(listing, recursive, c) && c[0]
                            == k implies recursive && leads_to_failure(
                            inner,
                            recursive,
                            c.skip(1),
                        ) by {}
                        chain
                    },
                    EntryKind::File => Seq::empty(),
                    EntryKind::Other => Seq::empty(),
                },
            }
        }
    }
}

/// Everything can be read.
pub open spec fn is_readable(listing: Listing, recursive: bool) -> bool {
    forall|chain: Seq<int>| !#[trigger] leads_to_failure(listing, recursive, chain)
}

/// The collection fails exactly where something cannot be read that the walk comes to, and then
/// tells what is told of the first such thing.
pub proof fn law_collection_fails_at_the_first_failure(
    input: PathView,
    listing: Listing,
    recursive: bool,
    separator: Separator,
)
    ensures
        found_in(input, listing, recursive, separator).failure is None <==> is_readable(
            listing,
            recursive,
        ),
        found_in(input, listing, recursive, separator).failure matches Some(e) ==> exists|
            chain: Seq<int>,
        |
            {
                &&& #[trigger] leads_to_failure(listing, recursive, chain)
                &&& e == failure_told(listing, chain)
                &&& forall|c: Seq<int>| #[trigger]
                    leads_to_failure(listing, recursive, c) ==> comes_no_later(chain, c)
            },
{
    let chain = lemma_failure_is_first(input, listing, recursive, separator);
}

/// The collection is complete: where everything can be read, every file at the end of a chain
/// of entries of any length that has the name of an image is among the collected images, as
/// the input directory followed by the names of the chain.
pub proof fn law_every_image_is_collected(
    input: PathView,
    listing: Listing,
    recursive: bool,
    separator: Separator,
    images: Seq<PathView>,
    chain: Seq<int>,
)
    requires
        is_sound(listing, separator),
        is_readable(listing, recursive),
        is_collection(found_in(input, listing, recursive, separator).images, images),
        leads_to_file(listing, recursive, chain),
        is_image_name(chain_names(listing, chain).last()),
    ensures
        found_in(input, listing, recursive, separator).failure is None,
        exists|i: int|
            0 <= i < images.len() && is_file_at(input, listing, chain, #[trigger] images[i]),
{
    broadcast use vstd::seq_lib::group_to_multiset_ensures;

    law_collection_fails_at_the_first_failure(input, listing, recursive, separator);
    let found = found_in(input, listing, recursive, separator).images;
    let k = lemma_file_is_found(input, listing, recursive, separator, chain);
    assert(found.contains(found[k]));
    assert(found.to_multiset().count(found[k]) > 0);
    assert(images.contains(found[k]));
    let i = choose|i: int| 0 <= i < images.len() && images[i] == found[k];
    assert(is_file_at(input, listing, chain, images[i]));
}

/// The collection holds nothing else: every collected image is a file at the end of a chain of
/// entries and has the name of an image. Without recursion it is an entry of the input
/// directory itself.
pub proof fn law_only_images_are_collected(
    input: PathView,
    listing: Listing,
    recursive: bool,
    separator: Separator,
    images: Seq<PathView>,
    i: int,
)
    requires
        is_sound(listing, separator),
        is_collection(found_in(input, listing, recursive, separator).images, images),
        0 <= i < images.len(),
    ensures
        exists|chain: Seq<int>|
            {
                &&& #[trigger] leads_to_file(listing, recursive, chain)
                &&& !recursive ==> chain.len() == 1
                &&& is_image_name(chain_names(listing, chain).last())
                &&& is_file_at(input, listing, chain, images[i])
            },
{
    broadcast use vstd::seq_lib::group_to_multiset_ensures;

    let found = found_in(input, listing, recursive, separator).images;
    assert(images.contains(images[i]));
    assert(images.to_multiset().count(images[i]) > 0);
    assert(found.contains(images[i]));
    let k = choose|k: int| 0 <= k < found.len() && found[k] == images[i];
    let chain = lemma_found_is_file(input, listing, recursive, separator, k);
    assert(leads_to_file(listing, recursive, chain));
}

/// How many files with the name of an image the chains lead to.
pub open spec fn count_images(listing: Listing, recursive: bool) -> nat
    decreases listing, 0nat,
{
    match listing {
        Listing::Unreadable(_) => 0,
        Listing::Entries(entries) => count_among(entries@, entries@.len(), recursive),
    }
}

/// How many files with the name of an image the first `n` entries lead to.
pub open spec fn count_among(entries: Seq<Entry>, n: nat, recursive: bool) -> nat
    decreases entries, n,
{
    if n == 0 || n > entries.len() {
        0
    } else {
        count_among(entries, (n - 1) as nat, recursive) + (match entries[n - 1] {
            Entry::Unreadable(_) => 0nat,
            Entry::Named { name, kind, .. } => match kind {
                EntryKind::File => if is_image_name(name@) {
                    1nat
                } else {
                    0nat
                },
                EntryKind::Directory(inner) => if recursive {
                    count_images(inner, recursive)
                } else {
                    0nat
                },
                EntryKind::Other => 0nat,
            },
        })
    }
}

proof fn lemma_count(dir: PathView, listing: Listing, recursive: bool, separator: Separator)
    requires
        is_sound(listing, separator),
        found_in(dir, listing, recursive, separator).failure is None,
    ensures
        found_in(dir, listing, recursive, separator).images.len() == count_images(
            listing,
            recursive,
        ),
    decreases listing, 0nat,
{
    if let Listing::Entries(entries) = listing {
        lemma_count_among(dir, entries@, entries@.len(), recursive, separator);
    }
}

proof fn lemma_count_among(
    dir: PathView,
    entries: Seq<Entry>,
    n: nat,
    recursive: bool,
    separator: Separator,
)
    requires
        n <= entries.len(),
        are_sound(entries, n, separator),
        found_among(dir, entries, n, recursive, separator).failure is None,
    ensures
        found_among(dir, entries, n, recursive, separator).images.len() == count_among(
            entries,
            n,
            recursive,
        ),
    decreases entries, n,
{
    if n > 0 {
        lemma_count_among(dir, entries, (n - 1) as nat, recursive, separator);
        if let Entry::Named { name, text, kind } = entries[n - 1] {
            let path = entry_path(dir, name@, text@, separator);
            lemma_entry_name(dir, name@, text@, separator);
            law_supported_is_by_name(path);
            if let EntryKind::Directory(inner) = kind {
                if recursive {
                    lemma_count(path, inner, recursive, separator);
                }
            }
        }
    }
}

/// No image is collected twice: there are as many collected images as files with the name of an
/// image.
pub proof fn law_images_are_collected_once(
    input: PathView,
    listing: Listing,
    recursive: bool,
    separator: Separator,
    images: Seq<PathView>,
)
    requires
        is_sound(listing, separator),
        is_readable(listing, recursive),
        is_collection(found_in(input, listing, recursive, separator).images, images),
    ensures
        images.len() == count_images(listing, recursive),
{
    broadcast use vstd::seq_lib::group_to_multiset_ensures;

    law_collection_fails_at_the_first_failure(input, listing, recursive, separator);
    lemma_count(input, listing, recursive, separator);
    let found = found_in(input, listing, recursive, separator).images;
    assert(images.to_multiset().len() == images.len());
    assert(found.to_multiset().len() == found.len());
}

/// One byte string comes before another: it is its beginning, or the first byte in which they
/// differ is smaller.
pub open spec fn bytes_before(a: Seq<u8>, b: Seq<u8>) -> bool {
    exists|m: int|
        {
            &&& 0 <= m <= a.len()
            &&& m < b.len()
            &&& #[trigger] a.take(m) == b.take(m)
            &&& m == a.len() || a[m] < b[m]
        }
}

/// One path comes before another: it is its beginning, or the first component in which they
/// differ comes before.
pub open spec fn names_before(a: Seq<Seq<u8>>, b: Seq<Seq<u8>>) -> bool {
    exists|k: int|
        {
            &&& 0 <= k <= a.len()
            &&& k < b.len()
            &&& #[trigger] a.take(k) == b.take(k)
            &&& k == a.len() || bytes_before(a[k], b[k])
        }
}

proof fn lemma_bytes_before(a: Seq<u8>, b: Seq<u8>)
    requires
        bytes_le(a, b),
        a != b,
    ensures
        bytes_before(a, b),
    decreases a.len(),
{
    if a.len() == 0 {
        assert(b.len() > 0) by {
            if b.len() == 0 {
                assert(a =~= b);
            }
        }
        assert(a.take(0) =~= b.take(0));
    } else if a[0] != b[0] {
        assert(a.take(0) =~= b.take(0));
    } else {
        let x = a.skip(1);
        let y = b.skip(1);
        assert(x != y) by {
            if x == y {
                assert(a =~= seq![a[0]] + x);
                assert(b =~= seq![b[0]] + y);
            }
        }
        lemma_bytes_before(x, y);
        let m = choose|m: int|
            {
                &&& 0 <= m <= x.len()
                &&& m < y.len()
                &&& #[trigger] x.take(m) == y.take(m)
                &&& m == x.len() || x[m] < y[m]
            };
        assert(a.take(m + 1) =~= seq![a[0]] + x.take(m));
        assert(b.take(m + 1) =~= seq![b[0]] + y.take(m));
    }
}

proof fn lemma_names_before(a: Seq<Seq<u8>>, b: Seq<Seq<u8>>)
    requires
        names_le(a, b),
        a != b,
    ensures
        names_before(a, b),
    decreases a.len(),
{
    if a.len() == 0 {
        assert(b.len() > 0) by {
            if b.len() == 0 {
                assert(a =~= b);
            }
        }
        assert(a.take(0) =~= b.take(0));
    } else if a[0] != b[0] {
        lemma_bytes_before(a[0], b[0]);
        assert(a.take(0) =~= b.take(0));
    } else {
        let x = a.skip(1);
        let y = b.skip(1);
        assert(x != y) by {
            if x == y {
                assert(a =~= seq![a[0]] + x);
                assert(b =~= seq![b[0]] + y);
            }
        }
        lemma_names_before(x, y);
        let k = choose|k: int|
            {
                &&& 0 <= k <= x.len()
                &&& k < y.len()
                &&& #[trigger] x.take(k) == y.take(k)
                &&& k == x.len() || bytes_before(x[k], y[k])
            };
        assert(a.take(k + 1) =~= seq![a[0]] + x.take(k));
        assert(b.take(k + 1) =~= seq![b[0]] + y.take(k));
    }
}

/// The collected images stand in the order of their paths, component by component and byte by
/// byte.
pub proof fn law_images_stand_in_path_order(
    found: Seq<PathView>,
    images: Seq<PathView>,
    i: int,
    j: int,
)
    requires
        is_collection(found, images),
        0 <= i < j < images.len(),
    ensures
        name_bytes(images[i].names) == name_bytes(images[j].names) || names_before(
            name_bytes(images[i].names),
            name_bytes(images[j].names),
        ),
{
    let keys = keys_of(images);
    assert(names_le(keys[i], keys[j]));
    if keys[i] != keys[j] {
        lemma_names_before(keys[i], keys[j]);
    }
}

} // verus!
