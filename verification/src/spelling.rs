//! How paths are written: which texts stand between components, and which are components.

use crate::path::{
    bridge, is_dot, is_normal, is_separator, is_verbatim, joined, name_bytes, names_text, path_text,
    place, prefix_key, resolved, separator_char, single, NameView, PathView, PrefixKind, Separator,
};
use vstd::prelude::*;

verus! {

/// What stands before, between and behind the separators of a text.
pub open spec fn pieces(text: Seq<char>, separator: Separator) -> Seq<Seq<char>>
    decreases text.len(),
{
    if text.len() == 0 {
        seq![Seq::empty()]
    } else {
        let before = pieces(text.drop_last(), separator);
        if is_separator(text.last(), separator) {
            before.push(Seq::empty())
        } else {
            before.drop_last().push(before.last().push(text.last()))
        }
    }
}

/// A piece of a path that names a component wherever it stands: nothing and `.` do not.
pub open spec fn names_component(piece: Seq<char>) -> bool {
    piece.len() > 0 && piece != seq!['.']
}

/// A text in which no component is named.
pub open spec fn is_blank(text: Seq<char>, separator: Separator) -> bool {
    forall|i: int|
        0 <= i < pieces(text, separator).len() ==> !names_component(
            #[trigger] pieces(text, separator)[i],
        )
}

/// A text that can stand between two components.
pub open spec fn is_gap(text: Seq<char>, separator: Separator) -> bool {
    &&& text.len() > 0
    &&& is_separator(text[0], separator)
    &&& is_separator(text.last(), separator)
    &&& is_blank(text, separator)
}

/// A text that can stand between the root directory and a component.
pub open spec fn is_root_gap(text: Seq<char>, separator: Separator) -> bool {
    text.len() == 0 || (is_separator(text.last(), separator) && is_blank(text, separator))
}

/// A text that can stand behind the last of so many components.
pub open spec fn is_trail(
    text: Seq<char>,
    rooted: bool,
    components: nat,
    separator: Separator,
) -> bool {
    text.len() == 0 || {
        &&& rooted || components > 0
        &&& components > 0 ==> is_separator(text[0], separator)
        &&& is_blank(text, separator)
    }
}

/// A component whose text holds no separator, and is `.` only for that directory.
pub open spec fn is_component(name: NameView, separator: Separator) -> bool {
    &&& name.text.len() > 0
    &&& forall|i: int|
        0 <= i < name.text.len() ==> !is_separator(#[trigger] name.text[i], separator)
    &&& name.text == seq!['.'] <==> is_dot(name.bytes)
}

/// The prefix and the root directory fit each other.
pub open spec fn has_sound_lead(path: PathView, separator: Separator) -> bool {
    &&& path.prefix matches Some(prefix) ==> {
        &&& separator == Separator::Backslash
        &&& prefix.kind == PrefixKind::Other ==> {
            &&& path.root is Some
            &&& prefix.text.len() > 0
            &&& !is_separator(prefix.text.last(), separator)
        }
        &&& prefix.kind == PrefixKind::Verbatim && path.names.len() > 0 ==> path.root is Some
    }
    &&& path.root matches Some(root) ==> {
        ||| root.len() == 1 && is_separator(root[0], separator)
        ||| {
            &&& root.len() == 0
            &&& path.prefix matches Some(prefix) && prefix.kind == PrefixKind::Other
            &&& path.names.len() == 0
            &&& path.trail.len() == 0
        }
    }
}

/// The component at position `i` and its gap are as they can stand in a path.
pub open spec fn stands_well(path: PathView, i: int, separator: Separator) -> bool {
    let name = path.names[i];
    &&& is_component(name, separator)
    &&& is_dot(name.bytes) ==> i == 0 && path.root is None
    &&& if i > 0 {
        is_gap(name.gap, separator)
    } else if path.root is Some {
        is_root_gap(name.gap, separator)
    } else {
        name.gap.len() == 0
    }
}

/// The parts of the path are those into which its text falls.
pub open spec fn is_spelled(path: PathView, separator: Separator) -> bool {
    &&& has_sound_lead(path, separator)
    &&& forall|i: int|
        #![trigger path.names[i]]
        0 <= i < path.names.len() ==> stands_well(path, i, separator)
    &&& is_trail(path.trail, path.root is Some, path.names.len(), separator)
}

/// There is always a piece.
pub proof fn lemma_pieces_some(text: Seq<char>, separator: Separator)
    ensures
        pieces(text, separator).len() > 0,
    decreases text.len(),
{
    if text.len() > 0 {
        lemma_pieces_some(text.drop_last(), separator);
    }
}

/// A text without separators is one piece.
pub proof fn lemma_one_piece(text: Seq<char>, separator: Separator)
    requires
        forall|i: int| 0 <= i < text.len() ==> !is_separator(#[trigger] text[i], separator),
    ensures
        pieces(text, separator) == seq![text],
    decreases text.len(),
{
    if text.len() == 0 {
        assert(text =~= Seq::<char>::empty());
    } else {
        let shorter = text.drop_last();
        assert forall|i: int| 0 <= i < shorter.len() implies !is_separator(
            #[trigger] shorter[i],
            separator,
        ) by {
            assert(shorter[i] == text[i]);
        }
        lemma_one_piece(shorter, separator);
        assert(!is_separator(text[text.len() - 1], separator));
        assert(shorter.push(text.last()) =~= text);
        assert(pieces(text, separator) =~= seq![text]);
    }
}

/// A separator cuts a text: what stands before it and what stands behind it fall into their own
/// pieces.
pub proof fn lemma_pieces_cut(
    before: Seq<char>,
    cut: char,
    behind: Seq<char>,
    separator: Separator,
)
    requires
        is_separator(cut, separator),
    ensures
        pieces(before.push(cut) + behind, separator) == pieces(before, separator) + pieces(
            behind,
            separator,
        ),
    decreases behind.len(),
{
    let whole = before.push(cut) + behind;
    if behind.len() == 0 {
        assert(whole =~= before.push(cut));
        assert(whole.drop_last() =~= before);
        assert(pieces(whole, separator) =~= pieces(before, separator) + pieces(behind, separator));
    } else {
        let shorter = behind.drop_last();
        lemma_pieces_cut(before, cut, shorter, separator);
        lemma_pieces_some(shorter, separator);
        assert(whole.drop_last() =~= before.push(cut) + shorter);
        assert(whole.last() == behind.last());
        assert(pieces(whole, separator) =~= pieces(before, separator) + pieces(behind, separator));
    }
}

/// One separator is a gap.
pub proof fn lemma_separator_is_gap(separator: Separator)
    ensures
        is_gap(seq![separator_char(separator)], separator),
{
    let gap = seq![separator_char(separator)];
    reveal_with_fuel(pieces, 2);
    assert(gap.drop_last() =~= Seq::<char>::empty());
}

/// A separator behind a text in which no component is named changes nothing in that.
proof fn lemma_blank_push(text: Seq<char>, cut: char, separator: Separator)
    requires
        is_blank(text, separator),
        is_separator(cut, separator),
    ensures
        is_blank(text.push(cut), separator),
{
    assert(text.push(cut).drop_last() =~= text);
    let before = pieces(text, separator);
    let after = pieces(text.push(cut), separator);
    assert(after == before.push(Seq::empty()));
    assert forall|i: int| 0 <= i < after.len() implies !names_component(#[trigger] after[i]) by {
        if i < before.len() {
            assert(after[i] == before[i]);
        }
    }
}

/// What comes between a path and an entry of it can stand there.
proof fn lemma_between(path: PathView, separator: Separator)
    requires
        is_spelled(path, separator),
        !is_verbatim(path),
    ensures
        ({
            let between = path.trail + bridge(path, separator);
            if path.names.len() > 0 {
                is_gap(between, separator)
            } else if path.root is None {
                between.len() == 0
            } else if path.root == Some(Seq::<char>::empty()) {
                between == seq![separator_char(separator)]
            } else {
                is_root_gap(between, separator)
            }
        }),
{
    let between = path.trail + bridge(path, separator);
    let text = path_text(path);
    lemma_separator_is_gap(separator);
    if path.trail.len() > 0 {
        assert(text.last() == path.trail.last());
        if is_separator(path.trail.last(), separator) {
            assert(between =~= path.trail);
        } else {
            assert(between =~= path.trail.push(separator_char(separator)));
            lemma_blank_push(path.trail, separator_char(separator), separator);
        }
    } else if path.names.len() > 0 {
        let last = path.names[path.names.len() - 1];
        assert(stands_well(path, path.names.len() - 1, separator));
        assert(names_text(path.names) =~= names_text(path.names.drop_last()) + last.gap
            + last.text);
        assert(text.last() == last.text[last.text.len() - 1]);
        assert(between =~= seq![separator_char(separator)]);
    } else if let Some(root) = path.root {
        assert(names_text(path.names) =~= Seq::<char>::empty());
        if root.len() == 1 {
            assert(text.last() == root[0]);
            assert(between =~= Seq::<char>::empty());
        } else {
            assert(root =~= Seq::<char>::empty());
            assert(text =~= path.prefix->0.text);
            assert(between =~= seq![separator_char(separator)]);
        }
    } else {
        assert(names_text(path.names) =~= Seq::<char>::empty());
        if path.prefix is None {
            assert(text =~= Seq::<char>::empty());
        }
    }
}

/// The path of an entry of a directory falls into parts as the path of the directory does.
pub proof fn lemma_entry_is_spelled(
    dir: PathView,
    bytes: Seq<u8>,
    text: Seq<char>,
    separator: Separator,
)
    requires
        is_spelled(dir, separator),
        is_normal(bytes),
        is_component(NameView { gap: Seq::empty(), bytes, text }, separator),
    ensures
        is_spelled(joined(dir, single(bytes, text), separator), separator),
{
    let entry = single(bytes, text);
    let path = joined(dir, entry, separator);
    let n = dir.names.len() as int;
    assert(names_text(entry.names) =~= text) by {
        reveal_with_fuel(names_text, 2);
        assert(entry.names.drop_last() =~= Seq::<NameView>::empty());
    }
    assert(path_text(entry) =~= text);
    lemma_separator_is_gap(separator);
    if is_verbatim(dir) {
        reveal_with_fuel(resolved, 2);
        assert(entry.names.drop_last() =~= Seq::<NameView>::empty());
        assert(resolved(dir.names, entry.names) =~= dir.names.push(entry.names[0]));
        assert forall|i: int| #![trigger path.names[i]] 0 <= i < path.names.len() implies
            stands_well(path, i, separator) by {
            if i < n {
                assert(stands_well(dir, i, separator));
                assert(path.names[i].text == dir.names[i].text);
            }
        }
    } else {
        lemma_between(dir, separator);
        if let Some(root) = dir.root {
            if root.len() == 0 {
                assert(root =~= Seq::<char>::empty());
            }
        }
        assert(has_sound_lead(path, separator));
        assert forall|i: int| #![trigger path.names[i]] 0 <= i < path.names.len() implies
            stands_well(path, i, separator) by {
            if i < n {
                assert(path.names[i] == dir.names[i]);
                assert(stands_well(dir, i, separator));
            } else {
                let between = dir.trail + bridge(dir, separator);
                if dir.root == Some(Seq::<char>::empty()) && n == 0 {
                    assert(path.names[i].gap =~= Seq::<char>::empty());
                } else {
                    assert(path.names[i].gap =~= between);
                }
            }
        }
    }
}

/// Names lead on from where one is.
proof fn lemma_names_lead_on(names: Seq<NameView>, tail: Seq<NameView>)
    requires
        forall|i: int| 0 <= i < tail.len() ==> is_normal((#[trigger] tail[i]).bytes),
    ensures
        resolved(names, tail) == names + tail,
    decreases tail.len(),
{
    if tail.len() == 0 {
        assert(names + tail =~= names);
    } else {
        let shorter = tail.drop_last();
        assert forall|i: int| 0 <= i < shorter.len() implies is_normal(
            (#[trigger] shorter[i]).bytes,
        ) by {
            assert(shorter[i] == tail[i]);
        }
        lemma_names_lead_on(names, shorter);
        assert(is_normal(tail[tail.len() - 1].bytes));
        assert(names + tail =~= (names + shorter).push(tail.last()));
    }
}

/// Where a path leads that is seen from another.
pub proof fn lemma_joined_place(base: PathView, tail: PathView, separator: Separator)
    requires
        tail.prefix is None,
        tail.names.len() > 0 && is_dot(tail.names[0].bytes) ==> base.root is None
            && base.names.len() == 0,
        is_verbatim(base) ==> forall|i: int|
            0 <= i < tail.names.len() ==> is_normal((#[trigger] tail.names[i]).bytes),
        base.prefix is Some ==> separator == Separator::Backslash,
    ensures
        ({
            let path = joined(base, tail, separator);
            let names = if tail.root is Some {
                name_bytes(tail.names)
            } else {
                name_bytes(base.names) + name_bytes(tail.names)
            };
            &&& place(path).names == names
            &&& place(path).prefix == prefix_key(base.prefix)
            &&& place(path).rooted == (base.root is Some || tail.root is Some || (is_verbatim(base)
                && path_text(tail).len() > 0 && names.len() > 0))
        }),
{
    let path = joined(base, tail, separator);
    if tail.root is Some && !is_verbatim(base) {
        if base.prefix is None {
            assert(path == (PathView { prefix: base.prefix, ..tail }));
        }
    } else if is_verbatim(base) && path_text(tail).len() > 0 {
        let start = if tail.root is Some {
            Seq::empty()
        } else {
            base.names
        };
        lemma_names_lead_on(start, tail.names);
        if tail.root is Some {
            assert(name_bytes(path.names) =~= name_bytes(tail.names));
        } else {
            assert(name_bytes(path.names) =~= name_bytes(base.names) + name_bytes(tail.names));
        }
    } else if tail.root is None {
        assert(name_bytes(path.names) =~= name_bytes(base.names) + name_bytes(tail.names));
    }
}

} // verus!
