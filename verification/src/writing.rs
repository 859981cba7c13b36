//! What is written for a path, and how paths are put together and taken apart.

use crate::path::{
    appended, bridge, is_bare_drive, is_bare_prefix, is_below, is_dot, is_dot_dot, is_empty_path,
    is_normal, is_verbatim, joined, name_bytes, names_text, names_written, parent_of, path_bytes,
    path_text, place, prefix_text, relative, relative_or_whole, relative_to, resolved, root_text,
    without_dot, without_first_gap, NameView, PathView, PrefixView, Separator,
};
use crate::shown::{is_unicode_from, lemma_first_gap, lemma_reads_back, parsed};
use crate::spelling::{is_spelled, lemma_joined_place, stands_well};
use vstd::prelude::*;
use vstd::utf8::encode_utf8;

verus! {

/// The notation of a text in two parts.
proof fn lemma_encode_add(a: Seq<char>, b: Seq<char>)
    ensures
        encode_utf8(a + b) == encode_utf8(a) + encode_utf8(b),
    decreases a.len(),
{
    if a.len() == 0 {
        assert(a + b =~= b);
        assert(encode_utf8(a) + encode_utf8(b) =~= encode_utf8(b));
    } else {
        let rest = a.drop_first();
        assert((a + b).drop_first() =~= rest + b);
        lemma_encode_add(rest, b);
        assert(encode_utf8(a + b) =~= encode_utf8(a) + encode_utf8(b));
    }
}

/// The prefix and the components of a path are Unicode text.
pub open spec fn is_unicode(path: PathView) -> bool {
    &&& path.prefix matches Some(p) ==> p.bytes == encode_utf8(p.text)
    &&& is_unicode_from(path, 0)
}

proof fn lemma_names_written(path: PathView)
    requires
        is_unicode_from(path, 0),
    ensures
        names_written(path.names) == encode_utf8(names_text(path.names)),
    decreases path.names.len(),
{
    if path.names.len() == 0 {
        assert(encode_utf8(Seq::<char>::empty()) =~= Seq::<u8>::empty());
    } else {
        let shorter = PathView { names: path.names.drop_last(), ..path };
        let last = path.names[path.names.len() - 1];
        assert forall|i: int| 0 <= i < shorter.names.len() implies (#[trigger]
        shorter.names[i]).bytes == encode_utf8(shorter.names[i].text) by {
            assert(shorter.names[i] == path.names[i]);
        }
        lemma_names_written(shorter);
        lemma_encode_add(names_text(shorter.names), last.gap);
        lemma_encode_add(names_text(shorter.names) + last.gap, last.text);
    }
}

/// The path that is written is the path that is shown: where its prefix and components are
/// Unicode text, the bytes are the notation of the shown text, from the prefix to the end.
pub proof fn law_written_path_is_the_shown_path(path: PathView)
    requires
        is_unicode(path),
    ensures
        path_bytes(path) == encode_utf8(path_text(path)),
{
    let lead = prefix_text(path.prefix);
    let root = root_text(path.root);
    let names = names_text(path.names);
    lemma_names_written(path);
    assert(encode_utf8(Seq::<char>::empty()) =~= Seq::<u8>::empty());
    lemma_encode_add(lead, root);
    lemma_encode_add(lead + root, names);
    lemma_encode_add(lead + root + names, path.trail);
}

/// A path is shown, and written, part by part as it was given: the prefix, the root directory,
/// each component behind what stands before it, and what stands behind the last.
pub proof fn law_path_is_written_part_by_part(path: PathView, prefix: PrefixView, name: NameView)
    ensures
        path_text(PathView { prefix: Some(prefix), ..path }) == prefix.text + path_text(
            PathView { prefix: None, ..path },
        ),
        path_bytes(PathView { prefix: Some(prefix), ..path }) == prefix.bytes + path_bytes(
            PathView { prefix: None, ..path },
        ),
        path.root matches Some(root) ==> {
            &&& path_text(PathView { prefix: None, ..path }) == root + path_text(
                PathView { prefix: None, root: None, ..path },
            )
            &&& path_bytes(PathView { prefix: None, ..path }) == encode_utf8(root) + path_bytes(
                PathView { prefix: None, root: None, ..path },
            )
        },
        path_text(PathView { names: path.names.push(name), trail: Seq::empty(), ..path })
            == path_text(PathView { trail: Seq::empty(), ..path }) + name.gap + name.text,
        path_bytes(PathView { names: path.names.push(name), trail: Seq::empty(), ..path })
            == path_bytes(PathView { trail: Seq::empty(), ..path }) + encode_utf8(name.gap)
            + name.bytes,
        path_text(path) == path_text(PathView { trail: Seq::empty(), ..path }) + path.trail,
        path_bytes(path) == path_bytes(PathView { trail: Seq::empty(), ..path }) + encode_utf8(
            path.trail,
        ),
        path_text(relative(Seq::empty())) == Seq::<char>::empty(),
        path_bytes(relative(Seq::empty())) == Seq::<u8>::empty(),
{
    assert(encode_utf8(Seq::<char>::empty()) =~= Seq::<u8>::empty());
    assert(path.names.push(name).drop_last() =~= path.names);
    assert(path_text(PathView { prefix: Some(prefix), ..path }) =~= prefix.text + path_text(
        PathView { prefix: None, ..path },
    ));
    assert(path_bytes(PathView { prefix: Some(prefix), ..path }) =~= prefix.bytes + path_bytes(
        PathView { prefix: None, ..path },
    ));
    assert(path_text(PathView { prefix: None, ..path }) =~= root_text(path.root) + path_text(
        PathView { prefix: None, root: None, ..path },
    ));
    assert(path_bytes(PathView { prefix: None, ..path }) =~= encode_utf8(root_text(path.root))
        + path_bytes(PathView { prefix: None, root: None, ..path }));
    assert(path_text(PathView { names: path.names.push(name), trail: Seq::empty(), ..path })
        =~= path_text(PathView { trail: Seq::empty(), ..path }) + name.gap + name.text);
    assert(path_bytes(PathView { names: path.names.push(name), trail: Seq::empty(), ..path })
        =~= path_bytes(PathView { trail: Seq::empty(), ..path }) + encode_utf8(name.gap)
        + name.bytes);
    assert(path_text(path) =~= path_text(PathView { trail: Seq::empty(), ..path }) + path.trail);
    assert(path_bytes(path) =~= path_bytes(PathView { trail: Seq::empty(), ..path })
        + encode_utf8(path.trail));
    assert(path_text(relative(Seq::empty())) =~= Seq::<char>::empty());
    assert(path_bytes(relative(Seq::empty())) =~= Seq::<u8>::empty());
}

/// A path that is read from what was written of it leads where it led: the prefix, the root
/// directory and the components are found again.
pub proof fn law_written_path_reads_back(path: PathView, separator: Separator)
    requires
        is_spelled(path, separator),
        is_unicode(path),
        path.trail.len() == 0,
    ensures
        place(parsed(path_text(path), path.prefix, separator)) == place(path),
        path_bytes(path) == encode_utf8(path_text(path)),
{
    law_written_path_is_the_shown_path(path);
    lemma_reads_back(path, separator);
}

/// Paths on different drives are written differently.
pub proof fn law_drives_are_written(a: PathView, b: PathView)
    requires
        is_unicode(a) && is_unicode(b),
        a.prefix matches Some(p) && b.prefix matches Some(q) && p.bytes.len() == q.bytes.len()
            && p.bytes != q.bytes,
    ensures
        path_bytes(a) != path_bytes(b),
{
    let p = a.prefix->0;
    let q = b.prefix->0;
    assert(path_bytes(a).take(p.bytes.len() as int) =~= p.bytes);
    assert(path_bytes(b).take(q.bytes.len() as int) =~= q.bytes);
}

proof fn lemma_names_text_add(a: Seq<NameView>, b: Seq<NameView>)
    ensures
        names_text(a + b) == names_text(a) + names_text(b),
    decreases b.len(),
{
    if b.len() == 0 {
        assert(a + b =~= a);
        assert(names_text(a) + names_text(b) =~= names_text(a));
    } else {
        lemma_names_text_add(a, b.drop_last());
        assert((a + b).drop_last() =~= a + b.drop_last());
        assert(names_text(a + b) =~= names_text(a) + names_text(b));
    }
}

/// A `.` that is no component is still written.
proof fn lemma_dot_is_written(tail: PathView)
    requires
        tail.prefix is None,
        tail.root is None,
    ensures
        path_text(without_dot(tail)) == path_text(tail),
{
    if tail.names.len() > 0 && is_dot(tail.names[0].bytes) {
        let first = tail.names[0];
        let others = tail.names.skip(1);
        assert(tail.names =~= seq![first] + others);
        lemma_names_text_add(seq![first], others);
        reveal_with_fuel(names_text, 2);
        assert(seq![first].drop_last() =~= Seq::<NameView>::empty());
        let rest = without_dot(tail);
        if tail.names.len() > 1 {
            lemma_first_gap(rest.names);
            lemma_first_gap(others);
            assert(without_first_gap(rest.names) =~= without_first_gap(others));
        }
        assert(path_text(rest) =~= path_text(tail));
    }
}

/// To join a relative path to another is to write it behind that path, with a separator between
/// them where the first is not empty, does not end with one and is no bare drive.
pub proof fn law_joining_writes_one_behind_the_other(
    base: PathView,
    tail: PathView,
    separator: Separator,
)
    requires
        tail.prefix is None,
        tail.root is None,
        !is_verbatim(base),
    ensures
        ({
            let first = path_text(base);
            let mark = match separator {
                Separator::Slash => '/',
                Separator::Backslash => '\\',
            };
            let needs_none = first.len() == 0 || first.last() == '/' || first.last() == mark
                || is_bare_drive(base);
            path_text(joined(base, tail, separator)) == first + (if needs_none {
                Seq::empty()
            } else {
                seq![mark]
            }) + path_text(tail)
        }),
{
    lemma_dot_is_written(tail);
    let follows = base.root is Some || base.names.len() > 0;
    let rest = if follows {
        without_dot(tail)
    } else {
        tail
    };
    assert(joined(base, tail, separator) == appended(base, tail, separator));
    lemma_appended_text(base, tail, rest, separator);
}

proof fn lemma_appended_text(
    base: PathView,
    tail: PathView,
    rest: PathView,
    separator: Separator,
)
    requires
        rest == (if base.root is Some || base.names.len() > 0 {
            without_dot(tail)
        } else {
            tail
        }),
        rest.prefix is None,
        rest.root is None,
    ensures
        path_text(appended(base, tail, separator)) == path_text(base) + bridge(base, separator)
            + path_text(rest),
{
    let path = appended(base, tail, separator);
    let mark = bridge(base, separator);
    let between = base.trail + mark;
    let lead = prefix_text(base.prefix);
    let root = root_text(base.root);
    let names = names_text(base.names);
    let more = names_text(rest.names);
    assert(path_text(rest) =~= more + rest.trail);
    lemma_regroup(lead, root, names, base.trail, mark, more, rest.trail);
    if base.root == Some(Seq::<char>::empty()) && base.names.len() == 0 {
        lemma_added_text(base.names, Seq::empty(), rest.names);
        assert(names_text(path.names) + path.trail =~= more + rest.trail);
        assert(path_text(path) =~= lead + between + (more + rest.trail));
        assert(lead + root + names =~= lead);
    } else {
        lemma_added_text(base.names, between, rest.names);
        assert(names_text(path.names) + path.trail =~= names + between + more + rest.trail);
        assert(path_text(path) =~= lead + root + (names_text(path.names) + path.trail));
    }
}

/// The parts of two texts, grouped in the ways that are needed.
proof fn lemma_regroup(
    lead: Seq<char>,
    root: Seq<char>,
    names: Seq<char>,
    trail: Seq<char>,
    mark: Seq<char>,
    more: Seq<char>,
    end: Seq<char>,
)
    ensures
        lead + root + names + trail + mark + (more + end) == lead + root + (names + (trail + mark)
            + more + end),
        lead + root + names + trail + mark + (more + end) == (lead + root + names) + (trail + mark)
            + (more + end),
{
    assert(lead + root + names + trail + mark + (more + end) =~= lead + root + (names + (trail
        + mark) + more + end));
    assert(lead + root + names + trail + mark + (more + end) =~= (lead + root + names) + (trail
        + mark) + (more + end));
}

/// Components behind others, with a gap between.
proof fn lemma_added_text(names: Seq<NameView>, gap: Seq<char>, more: Seq<NameView>)
    ensures
        more.len() > 0 ==> names_text(
            names + more.update(0, NameView { gap: gap + more[0].gap, ..more[0] }),
        ) == names_text(names) + gap + names_text(more),
        more.len() == 0 ==> names_text(more) == Seq::<char>::empty(),
{
    if more.len() > 0 {
        lemma_added_names_text(names, gap, more);
    } else {
        assert(names_text(more) =~= Seq::<char>::empty());
    }
}

proof fn lemma_added_names_text(names: Seq<NameView>, gap: Seq<char>, more: Seq<NameView>)
    requires
        more.len() > 0,
    ensures
        names_text(names + more.update(0, NameView { gap: gap + more[0].gap, ..more[0] }))
            == names_text(names) + gap + names_text(more),
{
    let added = more.update(0, NameView { gap: gap + more[0].gap, ..more[0] });
    lemma_names_text_add(names, added);
    lemma_first_gap(added);
    lemma_first_gap(more);
    assert(without_first_gap(added) =~= without_first_gap(more));
    assert(names_text(names + added) =~= names_text(names) + gap + names_text(more));
}

/// A path with a prefix stands for itself, wherever it is seen from; so does one with a root
/// directory where there are no prefixes.
pub proof fn law_absolute_paths_stand_for_themselves(
    base: PathView,
    tail: PathView,
    separator: Separator,
)
    requires
        tail.prefix is Some || (tail.root is Some && separator == Separator::Slash),
    ensures
        joined(base, tail, separator) == tail,
{
}

/// Where a path leads that is seen from another: to the components of the one behind those of
/// the other; a root directory begins anew, below the same prefix.
pub proof fn law_joining_leads_on(base: PathView, tail: PathView, separator: Separator)
    requires
        is_spelled(base, separator),
        tail.prefix is None,
        forall|i: int| 0 <= i < tail.names.len() ==> is_normal((#[trigger] tail.names[i]).bytes),
    ensures
        ({
            let path = joined(base, tail, separator);
            &&& place(path).prefix == place(base).prefix
            &&& place(path).names == if tail.root is Some {
                place(tail).names
            } else {
                place(base).names + place(tail).names
            }
            &&& base.root is Some || tail.root is Some ==> place(path).rooted
            &&& base.root is None && tail.root is None && !is_verbatim(base) ==> !place(
                path,
            ).rooted
            &&& tail.root is None ==> is_below(base, path)
        }),
{
    if tail.names.len() > 0 {
        assert(is_normal(tail.names[0].bytes));
    }
    lemma_joined_place(base, tail, separator);
    let path = joined(base, tail, separator);
    if tail.root is None {
        let n = base.names.len() as int;
        assert(name_bytes(base.names) =~= name_bytes(path.names).subrange(0, n));
    }
}

/// What remains of a path behind a directory leads from the directory back to the path.
pub proof fn law_remainder_leads_back(base: PathView, path: PathView, separator: Separator)
    requires
        is_spelled(base, separator),
        is_spelled(path, separator),
        is_below(base, path),
        is_verbatim(base) ==> forall|i: int|
            base.names.len() <= i < path.names.len() ==> !is_dot_dot(
                (#[trigger] path.names[i]).bytes,
            ),
    ensures
        relative_to(base, path) is Some,
        place(joined(base, relative_or_whole(base, path), separator)) == place(path),
{
    let n = base.names.len() as int;
    let rel = relative_or_whole(base, path);
    if !is_empty_path(base) && !is_bare_prefix(base) {
        assert(name_bytes(base.names).len() <= name_bytes(path.names).len());
    }
    assert forall|i: int| 0 <= i < rel.names.len() implies (#[trigger] rel.names[i]).bytes
        == path.names[n + i].bytes by {}
    if rel.prefix is None {
        if rel.names.len() > 0 && is_dot(rel.names[0].bytes) {
            assert(stands_well(path, n, separator));
        }
        if is_verbatim(base) {
            assert forall|i: int| 0 <= i < rel.names.len() implies is_normal(
                (#[trigger] rel.names[i]).bytes,
            ) by {
                assert(stands_well(path, n + i, separator));
                assert(rel.names[i].bytes == path.names[n + i].bytes);
            }
        }
        lemma_joined_place(base, rel, separator);
        let x = name_bytes(base.names);
        let y = name_bytes(path.names);
        assert(name_bytes(rel.names) =~= y.skip(n));
        if !is_empty_path(base) && !is_bare_prefix(base) {
            assert(y =~= y.subrange(0, n) + y.skip(n));
        } else {
            assert(y.skip(0) =~= y);
            assert(x + y =~= y);
        }
    }
}

/// The directory that holds a path is the path without its last component; a path without
/// components lies in none.
pub proof fn law_parent_holds_the_path(path: PathView)
    ensures
        parent_of(path) is None <==> place(path).names.len() == 0,
        parent_of(path) matches Some(dir) ==> {
            &&& place(dir).prefix == place(path).prefix
            &&& place(dir).rooted == place(path).rooted
            &&& place(dir).names.push(path.names.last().bytes) == place(path).names
        },
{
    if let Some(dir) = parent_of(path) {
        assert(place(dir).names.push(path.names.last().bytes) =~= place(path).names);
    }
}

/// Behind a prefix that is taken word for word, `.` stays and `..` goes up.
pub proof fn law_verbatim_paths_are_resolved(base: PathView, tail: PathView, separator: Separator)
    requires
        is_verbatim(base),
        tail.prefix is None,
        tail.root is None,
        tail.names.len() == 1,
        tail.names[0].text.len() > 0,
    ensures
        is_dot(tail.names[0].bytes) ==> place(joined(base, tail, separator)).names == place(
            base,
        ).names,
        is_dot_dot(tail.names[0].bytes) && base.names.len() > 0 && is_normal(
            base.names.last().bytes,
        ) ==> place(joined(base, tail, separator)).names == place(base).names.drop_last(),
        place(joined(base, tail, separator)).prefix == place(base).prefix,
{
    reveal_with_fuel(resolved, 2);
    reveal_with_fuel(names_text, 2);
    assert(tail.names.drop_last() =~= Seq::<NameView>::empty());
    let path = joined(base, tail, separator);
    assert(path_text(tail).len() > 0);
    assert(is_dot(tail.names[0].bytes) ==> tail.names[0].bytes.len() == 1);
    assert(is_dot_dot(tail.names[0].bytes) ==> tail.names[0].bytes.len() == 2);
    if is_dot(tail.names[0].bytes) {
        assert(name_bytes(path.names) =~= name_bytes(base.names));
    } else if is_dot_dot(tail.names[0].bytes) && base.names.len() > 0 && is_normal(
        base.names.last().bytes,
    ) {
        assert(name_bytes(path.names) =~= name_bytes(base.names).drop_last());
    }
}

} // verus!
