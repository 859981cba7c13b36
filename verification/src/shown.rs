//! Reading a shown path back.

use crate::collect::{
    found_in, is_collection, is_sound, law_collected_images_are_supported, Listing,
};
use crate::path::{
    in_line, is_bare_prefix, is_below, is_dot, is_dot_dot, is_empty_path, is_normal, is_separator,
    is_verbatim, joined, name_bytes, names_text, path_text, place, prefix_text, relative_or_whole,
    root_text, without_first_gap, NameView, PathView, PrefixKind, PrefixView, Separator,
};
use crate::spelling::{
    is_blank, is_gap, is_spelled, lemma_joined_place, lemma_one_piece, lemma_pieces_cut,
    lemma_pieces_some, names_component, pieces, stands_well,
};
use vstd::prelude::*;
use vstd::utf8::encode_utf8;

verus! {

/// The pieces that name components wherever they stand.
pub open spec fn kept(pieces: Seq<Seq<char>>) -> Seq<Seq<char>> {
    pieces.filter(|piece: Seq<char>| names_component(piece))
}

/// The components that a text names. A `.` is one only at the beginning, and not behind a root
/// directory.
pub open spec fn components_in(text: Seq<char>, rooted: bool, separator: Separator) -> Seq<
    Seq<char>,
> {
    let all = pieces(text, separator);
    if !rooted && all[0] == seq!['.'] {
        seq![all[0]] + kept(all)
    } else {
        kept(all)
    }
}

/// The root directory with which a text begins behind its prefix.
pub open spec fn root_in(
    text: Seq<char>,
    prefix: Option<PrefixView>,
    separator: Separator,
) -> Option<Seq<char>> {
    if text.len() > 0 && is_separator(text[0], separator) {
        Some(seq![text[0]])
    } else if prefix matches Some(p) && p.kind == PrefixKind::Other {
        Some(Seq::empty())
    } else {
        None
    }
}

/// Components with these texts.
pub open spec fn components_of(texts: Seq<Seq<char>>) -> Seq<NameView> {
    Seq::new(
        texts.len(),
        |i: int|
            NameView { gap: Seq::empty(), bytes: encode_utf8(texts[i]), text: texts[i] },
    )
}

/// The path that a text names which begins with the given prefix.
pub open spec fn parsed(
    text: Seq<char>,
    prefix: Option<PrefixView>,
    separator: Separator,
) -> PathView {
    let rest = text.skip(prefix_text(prefix).len() as int);
    let root = root_in(rest, prefix, separator);
    let body = rest.skip(root_text(root).len() as int);
    PathView {
        prefix,
        root,
        names: in_line(components_of(components_in(body, root is Some, separator)), separator),
        trail: Seq::empty(),
    }
}

/// The texts of components.
pub open spec fn texts_of(names: Seq<NameView>) -> Seq<Seq<char>> {
    Seq::new(names.len(), |i: int| names[i].text)
}

/// The components of `path` from position `n` on are Unicode text.
pub open spec fn is_unicode_from(path: PathView, n: int) -> bool {
    forall|i: int|
        n <= i < path.names.len() ==> (#[trigger] path.names[i]).bytes == encode_utf8(
            path.names[i].text,
        )
}

/// A text that would be taken for one that begins with the letter of a drive.
pub open spec fn begins_with_drive(text: Seq<char>, separator: Separator) -> bool {
    &&& separator == Separator::Backslash
    &&& text.len() >= 2
    &&& 'a' <= text[0] <= 'z' || 'A' <= text[0] <= 'Z'
    &&& text[1] == ':'
}

/// Of pieces that name no component none is kept.
proof fn lemma_none_kept(pieces: Seq<Seq<char>>)
    requires
        forall|i: int| 0 <= i < pieces.len() ==> !names_component(#[trigger] pieces[i]),
    ensures
        kept(pieces) == Seq::<Seq<char>>::empty(),
    decreases pieces.len(),
{
    reveal(Seq::filter);
    if pieces.len() > 0 {
        let shorter = pieces.drop_last();
        assert forall|i: int| 0 <= i < shorter.len() implies !names_component(
            #[trigger] shorter[i],
        ) by {
            assert(shorter[i] == pieces[i]);
        }
        lemma_none_kept(shorter);
        assert(!names_component(pieces[pieces.len() - 1]));
    }
}

/// What is kept of one piece.
proof fn lemma_one_kept(piece: Seq<char>)
    ensures
        kept(seq![piece]) == if names_component(piece) {
            seq![piece]
        } else {
            Seq::empty()
        },
{
    reveal_with_fuel(Seq::filter, 2);
    assert(seq![piece].drop_last() =~= Seq::<Seq<char>>::empty());
    assert(Seq::<Seq<char>>::empty().push(piece) =~= seq![piece]);
}

/// What is kept of pieces in two parts.
proof fn lemma_kept_add(a: Seq<Seq<char>>, b: Seq<Seq<char>>)
    ensures
        kept(a + b) == kept(a) + kept(b),
{
    Seq::filter_distributes_over_add(a, b, |piece: Seq<char>| names_component(piece));
}

/// Behind a text that ends with a separator, and in which no component is named, the pieces of
/// what follows are kept as if it stood alone.
proof fn lemma_behind_blank(gap: Seq<char>, text: Seq<char>, separator: Separator)
    requires
        gap.len() > 0,
        is_separator(gap.last(), separator),
        is_blank(gap, separator),
    ensures
        kept(pieces(gap + text, separator)) == kept(pieces(text, separator)),
{
    let front = gap.drop_last();
    let cut = gap.last();
    lemma_pieces_cut(front, cut, text, separator);
    assert(front.push(cut) =~= gap);
    let blank = pieces(front, separator);
    assert(pieces(gap, separator) == blank.push(Seq::empty()));
    assert forall|i: int| 0 <= i < blank.len() implies !names_component(#[trigger] blank[i]) by {
        assert(pieces(gap, separator)[i] == blank[i]);
    }
    lemma_none_kept(blank);
    lemma_kept_add(blank, pieces(text, separator));
    assert(kept(blank) + kept(pieces(text, separator)) =~= kept(pieces(text, separator)));
}

/// A component behind a gap adds a piece that is kept, and else none.
proof fn lemma_behind_gap(
    before: Seq<char>,
    gap: Seq<char>,
    text: Seq<char>,
    separator: Separator,
)
    requires
        is_gap(gap, separator),
        names_component(text),
        forall|i: int| 0 <= i < text.len() ==> !is_separator(#[trigger] text[i], separator),
    ensures
        ({
            let all = pieces(before + gap + text, separator);
            let old = pieces(before, separator);
            &&& all.len() > 0
            &&& all[0] == old[0]
            &&& kept(all.skip(1)) == kept(old.skip(1)).push(text)
        }),
{
    let old = pieces(before, separator);
    let all = pieces(before + gap + text, separator);
    let cut = gap[0];
    let rest = gap.skip(1) + text;
    lemma_pieces_cut(before, cut, rest, separator);
    assert(before.push(cut) + rest =~= before + gap + text);
    lemma_pieces_some(before, separator);
    let new = pieces(rest, separator);
    lemma_one_piece(text, separator);
    lemma_one_kept(text);
    assert(kept(new) == seq![text]) by {
        if gap.len() == 1 {
            assert(rest =~= text);
        } else {
            let inner = gap.skip(1);
            lemma_pieces_cut(Seq::empty(), cut, inner, separator);
            assert(Seq::<char>::empty().push(cut) + inner =~= gap);
            assert(is_blank(inner, separator)) by {
                let p = pieces(inner, separator);
                assert forall|i: int| 0 <= i < p.len() implies !names_component(
                    #[trigger] p[i],
                ) by {
                    assert(pieces(gap, separator)[i + 1] == p[i]);
                }
            }
            assert(inner.last() == gap.last());
            lemma_behind_blank(inner, text, separator);
        }
    }
    assert(all.skip(1) =~= old.skip(1) + new);
    lemma_kept_add(old.skip(1), new);
    assert(kept(old.skip(1)) + seq![text] =~= kept(old.skip(1)).push(text));
}

/// The pieces of components in a line: first the first, then the others.
proof fn lemma_pieces_of_names(path: PathView, separator: Separator)
    requires
        path.names.len() > 0,
        path.names[0].gap.len() == 0,
        path.root is None,
        forall|i: int|
            #![trigger path.names[i]]
            0 <= i < path.names.len() ==> stands_well(path, i, separator),
    ensures
        ({
            let all = pieces(names_text(path.names), separator);
            &&& all.len() > 0
            &&& all[0] == path.names[0].text
            &&& kept(all.skip(1)) == texts_of(path.names).skip(1)
        }),
    decreases path.names.len(),
{
    let names = path.names;
    let last = names[names.len() - 1];
    let shorter = PathView { names: names.drop_last(), ..path };
    assert(stands_well(path, names.len() - 1, separator));
    if names.len() == 1 {
        reveal_with_fuel(names_text, 2);
        assert(names.drop_last() =~= Seq::<NameView>::empty());
        assert(names_text(names) =~= last.text);
        lemma_one_piece(last.text, separator);
        lemma_none_kept(Seq::empty());
        assert(seq![last.text].skip(1) =~= Seq::<Seq<char>>::empty());
        assert(texts_of(names).skip(1) =~= Seq::<Seq<char>>::empty());
    } else {
        assert forall|i: int| #![trigger shorter.names[i]] 0 <= i < shorter.names.len() implies
            stands_well(shorter, i, separator) by {
            assert(shorter.names[i] == names[i]);
            assert(stands_well(path, i, separator));
        }
        lemma_pieces_of_names(shorter, separator);
        assert(names_text(names) == names_text(shorter.names) + last.gap + last.text);
        lemma_behind_gap(names_text(shorter.names), last.gap, last.text, separator);
        assert(texts_of(names).skip(1) =~= texts_of(shorter.names).skip(1).push(last.text));
    }
}

/// The gap of the first component stands first.
pub proof fn lemma_first_gap(names: Seq<NameView>)
    requires
        names.len() > 0,
    ensures
        names_text(names) == names[0].gap + names_text(without_first_gap(names)),
    decreases names.len(),
{
    let rest = without_first_gap(names);
    if names.len() == 1 {
        reveal_with_fuel(names_text, 2);
        assert(names.drop_last() =~= Seq::<NameView>::empty());
        assert(rest.drop_last() =~= Seq::<NameView>::empty());
        assert(names_text(names) =~= names[0].gap + names_text(rest));
    } else {
        lemma_first_gap(names.drop_last());
        assert(rest.drop_last() =~= without_first_gap(names.drop_last()));
        assert(rest.last() == names.last());
        assert(names_text(names) =~= names[0].gap + names_text(rest));
    }
}

/// Components in a line, written and read again.
proof fn lemma_components_read_back(path: PathView, separator: Separator)
    requires
        forall|i: int|
            #![trigger path.names[i]]
            0 <= i < path.names.len() ==> stands_well(path, i, separator),
    ensures
        components_in(names_text(path.names), path.root is Some, separator) == texts_of(
            path.names,
        ),
{
    let names = path.names;
    let body = names_text(names);
    if names.len() == 0 {
        lemma_one_kept(Seq::empty());
        assert(pieces(body, separator) == seq![Seq::<char>::empty()]);
        assert(texts_of(names) =~= Seq::<Seq<char>>::empty());
    } else {
        let rest = PathView { root: None, names: without_first_gap(names), ..path };
        let line = names_text(rest.names);
        assert(stands_well(path, 0, separator));
        assert forall|i: int| #![trigger rest.names[i]] 0 <= i < rest.names.len() implies
            stands_well(rest, i, separator) by {
            assert(stands_well(path, i, separator));
            assert(rest.names[i].text == names[i].text);
        }
        lemma_pieces_of_names(rest, separator);
        lemma_first_gap(names);
        let all = pieces(line, separator);
        lemma_one_kept(all[0]);
        assert(all =~= seq![all[0]] + all.skip(1));
        lemma_kept_add(seq![all[0]], all.skip(1));
        if path.root is Some {
            if names[0].gap.len() > 0 {
                lemma_behind_blank(names[0].gap, line, separator);
            } else {
                assert(body =~= line);
            }
        } else {
            assert(body =~= line);
        }
        assert(texts_of(rest.names) =~= texts_of(names));
        assert(seq![names[0].text] + texts_of(names).skip(1) =~= texts_of(names));
        assert(Seq::<Seq<char>>::empty() + texts_of(names).skip(1) =~= texts_of(names).skip(1));
    }
}

/// A path without a trail, written and read again, leads to the same place.
pub proof fn lemma_reads_back(path: PathView, separator: Separator)
    requires
        forall|i: int|
            #![trigger path.names[i]]
            0 <= i < path.names.len() ==> stands_well(path, i, separator),
        path.trail.len() == 0,
        path.root matches Some(root) ==> {
            ||| root.len() == 1 && is_separator(root[0], separator)
            ||| root.len() == 0 && path.names.len() == 0 && (path.prefix matches Some(p) && p.kind
                == PrefixKind::Other)
        },
        path.prefix matches Some(p) ==> (p.kind == PrefixKind::Other ==> path.root is Some),
        is_unicode_from(path, 0),
    ensures
        place(parsed(path_text(path), path.prefix, separator)) == place(path),
{
    let text = path_text(path);
    let lead = prefix_text(path.prefix);
    let rest = text.skip(lead.len() as int);
    let root = root_in(rest, path.prefix, separator);
    let body = rest.skip(root_text(root).len() as int);
    let names = path.names;
    assert(rest =~= root_text(path.root) + names_text(names));
    if names.len() > 0 {
        assert(stands_well(path, 0, separator));
        lemma_first_gap(names);
        if path.root is None {
            let others = without_first_gap(names);
            lemma_starts_with_first(others);
            assert(rest[0] == names[0].text[0]);
        }
    } else {
        assert(names_text(names) =~= Seq::<char>::empty());
    }
    if let Some(r) = path.root {
        if r.len() == 1 {
            assert(rest[0] == r[0]);
            assert(root_text(root).len() == 1);
            assert(body =~= names_text(names));
        } else {
            assert(rest =~= Seq::<char>::empty());
            assert(body =~= names_text(names));
        }
    } else {
        assert(root is None);
        assert(body =~= names_text(names));
    }
    lemma_components_read_back(path, separator);
    let back = parsed(text, path.prefix, separator);
    assert(name_bytes(back.names) =~= name_bytes(names));
}

/// A line of components begins with the first.
proof fn lemma_starts_with_first(names: Seq<NameView>)
    requires
        names.len() > 0,
        names[0].gap.len() == 0,
    ensures
        names_text(names).len() >= names[0].text.len(),
        names_text(names).take(names[0].text.len() as int) == names[0].text,
    decreases names.len(),
{
    let first = names[0].text;
    if names.len() == 1 {
        reveal_with_fuel(names_text, 2);
        assert(names.drop_last() =~= Seq::<NameView>::empty());
        assert(names_text(names) =~= first);
        assert(first.take(first.len() as int) =~= first);
    } else {
        lemma_starts_with_first(names.drop_last());
        assert(names_text(names).take(first.len() as int) =~= names_text(
            names.drop_last(),
        ).take(first.len() as int));
    }
}

/// An image as the lists and logs show it leads back to the image: joined to the input
/// directory, the shown path leads where the path of the image does. That is so for every path
/// below the input directory whose components behind it are Unicode text. Two things are
/// excepted, since the shown path means something else there: a first component like `C:x` is
/// taken for a drive, and behind a prefix that is taken word for word `..` is resolved.
pub proof fn law_shown_path_leads_back(input: PathView, image: PathView, separator: Separator)
    requires
        is_spelled(input, separator),
        is_spelled(image, separator),
        is_below(input, image),
        is_unicode_from(image, input.names.len() as int),
        relative_or_whole(input, image).prefix is Some || !begins_with_drive(
            path_text(relative_or_whole(input, image)),
            separator,
        ),
        is_verbatim(input) ==> forall|i: int|
            input.names.len() <= i < image.names.len() ==> !is_dot_dot(
                (#[trigger] image.names[i]).bytes,
            ),
    ensures
        ({
            let rel = relative_or_whole(input, image);
            place(joined(input, parsed(path_text(rel), rel.prefix, separator), separator))
                == place(image)
        }),
{
    let n = input.names.len() as int;
    let rel = relative_or_whole(input, image);
    lemma_relative_stands_well(input, image, separator);
    lemma_reads_back(rel, separator);
    let back = parsed(path_text(rel), rel.prefix, separator);
    assert(place(back) == place(rel));
    assert(name_bytes(back.names) == name_bytes(rel.names));
    assert(back.names.len() == rel.names.len()) by {
        assert(name_bytes(back.names).len() == name_bytes(rel.names).len());
    }
    assert forall|i: int| 0 <= i < back.names.len() implies (#[trigger] back.names[i]).bytes
        == rel.names[i].bytes by {
        assert(name_bytes(back.names)[i] == name_bytes(rel.names)[i]);
    }
    if rel.prefix is Some {
        assert(is_empty_path(input));
        assert(joined(input, back, separator) == back) by {
                }
    } else {
        if back.names.len() > 0 && is_dot(back.names[0].bytes) {
            assert(rel.names[0].bytes == back.names[0].bytes);
            assert(stands_well(rel, 0, separator));
        }
        if is_verbatim(input) {
            assert forall|i: int| 0 <= i < back.names.len() implies is_normal(
                (#[trigger] back.names[i]).bytes,
            ) by {
                assert(back.names[i].bytes == rel.names[i].bytes);
                assert(rel.names[i].bytes == image.names[n + i].bytes);
                assert(stands_well(image, n + i, separator));
            }
        }
        lemma_joined_place(input, back, separator);
        if !is_empty_path(input) && !is_bare_prefix(input) {
            let x = name_bytes(input.names);
            let y = name_bytes(image.names);
            assert(x.len() == n && y.len() == image.names.len());
            assert(name_bytes(rel.names) =~= y.skip(n));
            assert(y =~= y.subrange(0, n) + y.skip(n));
        } else {
            assert(name_bytes(input.names) + name_bytes(back.names) =~= name_bytes(back.names));
        }
    }
}

/// What remains behind a directory stands as it can stand in a path.
proof fn lemma_relative_stands_well(input: PathView, image: PathView, separator: Separator)
    requires
        is_spelled(input, separator),
        is_spelled(image, separator),
        is_below(input, image),
        is_unicode_from(image, input.names.len() as int),
    ensures
        ({
            let rel = relative_or_whole(input, image);
            let n = input.names.len() as int;
            &&& forall|i: int|
                #![trigger rel.names[i]]
                0 <= i < rel.names.len() ==> stands_well(rel, i, separator)
            &&& rel.trail.len() == 0
            &&& rel.root matches Some(root) ==> {
                ||| root.len() == 1 && is_separator(root[0], separator)
                ||| root.len() == 0 && rel.names.len() == 0 && (rel.prefix matches Some(p)
                    && p.kind == PrefixKind::Other)
            }
            &&& rel.prefix matches Some(p) ==> (p.kind == PrefixKind::Other ==> rel.root is Some)
            &&& is_unicode_from(rel, 0)
            &&& rel.names.len() == image.names.len() - n
            &&& forall|i: int|
                0 <= i < rel.names.len() ==> (#[trigger] rel.names[i]).bytes == image.names[n
                    + i].bytes
        }),
{
    let n = input.names.len() as int;
    let rel = relative_or_whole(input, image);
    if !is_empty_path(input) && !is_bare_prefix(input) {
        assert(name_bytes(input.names).len() <= name_bytes(image.names).len());
    }
    assert forall|i: int| #![trigger rel.names[i]] 0 <= i < rel.names.len() implies stands_well(
        rel,
        i,
        separator,
    ) && rel.names[i].bytes == image.names[n + i].bytes && rel.names[i].bytes == encode_utf8(
        rel.names[i].text,
    ) by {
        assert(stands_well(image, n + i, separator));
        assert(image.names[n + i].bytes == encode_utf8(image.names[n + i].text));
        assert(rel.names[i].text == image.names[n + i].text);
    }
}

/// The shown path tells images apart: of two paths below the input directory that are shown
/// alike, both lead to the same place.
pub proof fn law_shown_paths_tell_paths_apart(
    input: PathView,
    a: PathView,
    b: PathView,
    separator: Separator,
)
    requires
        is_spelled(input, separator),
        is_spelled(a, separator),
        is_spelled(b, separator),
        is_below(input, a),
        is_below(input, b),
        is_unicode_from(a, input.names.len() as int),
        is_unicode_from(b, input.names.len() as int),
        is_empty_path(input) ==> a.prefix == b.prefix,
        path_text(relative_or_whole(input, a)) == path_text(relative_or_whole(input, b)),
    ensures
        place(a) == place(b),
{
    let x = relative_or_whole(input, a);
    let y = relative_or_whole(input, b);
    let n = input.names.len() as int;
    lemma_relative_stands_well(input, a, separator);
    lemma_relative_stands_well(input, b, separator);
    lemma_reads_back(x, separator);
    lemma_reads_back(y, separator);
    assert(place(x) == place(y));
    if !is_empty_path(input) && !is_bare_prefix(input) {
        let p = name_bytes(a.names);
        let q = name_bytes(b.names);
        assert(name_bytes(x.names) =~= p.skip(n));
        assert(name_bytes(y.names) =~= q.skip(n));
        assert(p =~= p.subrange(0, n) + p.skip(n));
        assert(q =~= q.subrange(0, n) + q.skip(n));
    }
}

/// No two images of a collection are shown alike: where the components behind the input
/// directory are Unicode text, images that are shown alike lead to the same place.
pub proof fn law_shown_paths_tell_images_apart(
    input: PathView,
    listing: Listing,
    recursive: bool,
    separator: Separator,
    images: Seq<PathView>,
    i: int,
    j: int,
)
    requires
        is_spelled(input, separator),
        is_sound(listing, separator),
        is_collection(found_in(input, listing, recursive, separator).images, images),
        0 <= i < images.len(),
        0 <= j < images.len(),
        is_unicode_from(images[i], input.names.len() as int),
        is_unicode_from(images[j], input.names.len() as int),
        path_text(relative_or_whole(input, images[i])) == path_text(
            relative_or_whole(input, images[j]),
        ),
    ensures
        place(images[i]) == place(images[j]),
{
    law_collected_images_are_supported(input, listing, recursive, separator, images, i);
    law_collected_images_are_supported(input, listing, recursive, separator, images, j);
    law_shown_paths_tell_paths_apart(input, images[i], images[j], separator);
}

} // verus!
