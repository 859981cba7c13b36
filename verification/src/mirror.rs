//! How the output directory mirrors the input directory.

use crate::collect::{
    found_in, is_collection, is_sound, law_collected_images_are_supported, reached_from, Listing,
};
use crate::config::Config;
use crate::path::{
    is_bare_drive, is_bare_prefix, is_below, is_empty_path, is_normal, is_verbatim, name_bytes,
    path_text, place, prefix_key, relative_or_whole, PathView, Separator,
};
use crate::spelling::{is_spelled, lemma_joined_place};
use crate::worker::result_path;
use crate::writing::law_joining_writes_one_behind_the_other;
use vstd::prelude::*;

verus! {

/// `image` lies below the input directory, and what remains of its path behind it is made of
/// names alone. Every image of a collection is like that, unless the input is nothing but a
/// prefix that is taken word for word.
pub open spec fn is_named_below(input: PathView, image: PathView) -> bool {
    let rel = relative_or_whole(input, image);
    &&& is_below(input, image)
    &&& rel.prefix is None
    &&& rel.root is None
    &&& forall|i: int| 0 <= i < rel.names.len() ==> is_normal((#[trigger] rel.names[i]).bytes)
}

/// The images of a collection are named below the input directory.
pub proof fn law_collected_images_are_named_below(
    input: PathView,
    listing: Listing,
    recursive: bool,
    separator: Separator,
    images: Seq<PathView>,
    i: int,
)
    requires
        is_spelled(input, separator),
        is_sound(listing, separator),
        !(is_bare_prefix(input) && is_verbatim(input)),
        is_collection(found_in(input, listing, recursive, separator).images, images),
        0 <= i < images.len(),
    ensures
        is_named_below(input, images[i]),
{
    law_collected_images_are_supported(input, listing, recursive, separator, images, i);
    lemma_reached_is_named_below(input, images[i], separator);
}

proof fn lemma_reached_is_named_below(dir: PathView, image: PathView, separator: Separator)
    requires
        is_spelled(dir, separator),
        !(is_bare_prefix(dir) && is_verbatim(dir)),
        is_below(dir, image),
        reached_from(dir, image),
    ensures
        is_named_below(dir, image),
{
    let rel = relative_or_whole(dir, image);
    let n = dir.names.len() as int;
    assert forall|k: int| 0 <= k < rel.names.len() implies is_normal(
        (#[trigger] rel.names[k]).bytes,
    ) by {
        assert(rel.names[k].bytes == image.names[n + k].bytes);
    }
}

/// Where the result for an image goes: to the names behind the input directory, below the
/// output directory.
proof fn lemma_result_place(cfg: Config, image: PathView, separator: Separator)
    requires
        is_spelled(cfg.output@, separator),
        is_named_below(cfg.input@, image),
    ensures
        ({
            let there = place(result_path(cfg, image, separator));
            let rel = relative_or_whole(cfg.input@, image);
            &&& there.prefix == prefix_key(cfg.output@.prefix)
            &&& there.names == name_bytes(cfg.output@.names) + name_bytes(rel.names)
            &&& there.rooted == (cfg.output@.root is Some || (is_verbatim(cfg.output@)
                && path_text(rel).len() > 0 && there.names.len() > 0))
        }),
{
    let rel = relative_or_whole(cfg.input@, image);
    if rel.names.len() > 0 {
        assert(is_normal(rel.names[0].bytes));
    }
    lemma_joined_place(cfg.output@, rel, separator);
}

/// The names behind the input directory are the last of an image's names.
proof fn lemma_names_behind(input: PathView, image: PathView)
    requires
        is_below(input, image),
    ensures
        input.names.len() <= image.names.len(),
        name_bytes(relative_or_whole(input, image).names) == name_bytes(image.names).skip(
            input.names.len() as int,
        ),
{
    if !is_empty_path(input) && !is_bare_prefix(input) {
        assert(name_bytes(input.names).len() <= name_bytes(image.names).len());
    }
    assert(name_bytes(relative_or_whole(input, image).names) =~= name_bytes(image.names).skip(
        input.names.len() as int,
    ));
}

/// The output directory repeats the structure of the input directory: a result lies below the
/// output directory exactly where its image lies below the input directory, under the same
/// name.
pub proof fn law_output_mirrors_input(cfg: Config, image: PathView, separator: Separator)
    requires
        is_spelled(cfg.output@, separator),
        is_named_below(cfg.input@, image),
    ensures
        is_below(cfg.output@, result_path(cfg, image, separator)),
        name_bytes(relative_or_whole(cfg.output@, result_path(cfg, image, separator)).names)
            == name_bytes(relative_or_whole(cfg.input@, image).names),
        image.names.len() > cfg.input@.names.len() ==> result_path(
            cfg,
            image,
            separator,
        ).names.last().bytes == image.names.last().bytes,
{
    let out = result_path(cfg, image, separator);
    let rel = relative_or_whole(cfg.input@, image);
    let m = cfg.output@.names.len() as int;
    lemma_result_place(cfg, image, separator);
    lemma_names_behind(cfg.input@, image);
    let names = name_bytes(out.names);
    assert(names.len() == out.names.len());
    assert(name_bytes(cfg.output@.names) =~= names.subrange(0, m));
    lemma_names_behind(cfg.output@, out);
    assert(names.skip(m) =~= name_bytes(rel.names));
    if image.names.len() > cfg.input@.names.len() {
        assert(names.last() == name_bytes(image.names).last());
        assert(out.names.last().bytes == names.last());
    }
}

/// Different images of the input directory have different results: where two results would go
/// to the same place, the images are at the same place.
pub proof fn law_results_do_not_collide(
    cfg: Config,
    a: PathView,
    b: PathView,
    separator: Separator,
)
    requires
        is_spelled(cfg.output@, separator),
        is_named_below(cfg.input@, a),
        is_named_below(cfg.input@, b),
        place(result_path(cfg, a, separator)) == place(result_path(cfg, b, separator)),
    ensures
        place(a) == place(b),
{
    let n = cfg.input@.names.len() as int;
    let m = cfg.output@.names.len() as int;
    lemma_result_place(cfg, a, separator);
    lemma_result_place(cfg, b, separator);
    lemma_names_behind(cfg.input@, a);
    lemma_names_behind(cfg.input@, b);
    let x = name_bytes(a.names);
    let y = name_bytes(b.names);
    assert(x.skip(n) =~= (name_bytes(cfg.output@.names) + x.skip(n)).skip(m));
    assert(y.skip(n) =~= (name_bytes(cfg.output@.names) + y.skip(n)).skip(m));
    assert(x =~= x.subrange(0, n) + x.skip(n));
    assert(y =~= y.subrange(0, n) + y.skip(n));
    assert(x.subrange(0, n) =~= y.subrange(0, n));
}

/// The path of a result is shown as that of the output directory, a separator where one is
/// missing, and the name under which the image is shown.
pub proof fn law_result_is_shown_below_the_output(
    cfg: Config,
    image: PathView,
    separator: Separator,
)
    requires
        is_named_below(cfg.input@, image),
        !is_verbatim(cfg.output@),
    ensures
        ({
            let first = path_text(cfg.output@);
            let mark = match separator {
                Separator::Slash => '/',
                Separator::Backslash => '\\',
            };
            let needs_none = first.len() == 0 || first.last() == '/' || first.last() == mark
                || is_bare_drive(cfg.output@);
            path_text(result_path(cfg, image, separator)) == first + (if needs_none {
                Seq::empty()
            } else {
                seq![mark]
            }) + path_text(relative_or_whole(cfg.input@, image))
        }),
{
    law_joining_writes_one_behind_the_other(
        cfg.output@,
        relative_or_whole(cfg.input@, image),
        separator,
    );
}

} // verus!
