//! What a file name tells, said of the name itself.

use crate::path::{
    extension_of, last_dot, lower_byte, media_type, path_extension, spells, supported, NameView,
    PathView, SUPPORTED_EXT,
};
use vstd::prelude::*;

verus! {

/// A file name that is a stem, a dot and an ending: the stem is not empty, the ending holds no
/// dot, and the name is not `..`.
pub open spec fn ends_in(name: Seq<u8>, ending: Seq<u8>) -> bool {
    &&& name.len() >= ending.len() + 2
    &&& name[name.len() - ending.len() - 1] == 46u8
    &&& name.skip(name.len() - ending.len()) == ending
    &&& forall|i: int| 0 <= i < ending.len() ==> #[trigger] ending[i] != 46u8
    &&& name != seq![46u8, 46u8]
}

/// A byte is a letter in one of its two cases: `small` is the code of the small letter.
pub open spec fn is_letter(b: u8, small: int) -> bool {
    b == small || (97 <= small <= 122 && b == small - 32)
}

/// `ending` is `jpg`, in any case.
pub open spec fn is_jpg(ending: Seq<u8>) -> bool {
    ending.len() == 3 && is_letter(ending[0], 106) && is_letter(ending[1], 112) && is_letter(
        ending[2],
        103,
    )
}

/// `ending` is `jpeg`, in any case.
pub open spec fn is_jpeg(ending: Seq<u8>) -> bool {
    ending.len() == 4 && is_letter(ending[0], 106) && is_letter(ending[1], 112) && is_letter(
        ending[2],
        101,
    ) && is_letter(ending[3], 103)
}

/// `ending` is `png`, in any case.
pub open spec fn is_png(ending: Seq<u8>) -> bool {
    ending.len() == 3 && is_letter(ending[0], 112) && is_letter(ending[1], 110) && is_letter(
        ending[2],
        103,
    )
}

/// `ending` is `webp`, in any case.
pub open spec fn is_webp(ending: Seq<u8>) -> bool {
    ending.len() == 4 && is_letter(ending[0], 119) && is_letter(ending[1], 101) && is_letter(
        ending[2],
        98,
    ) && is_letter(ending[3], 112)
}

/// The name of an image: it ends in one of the four endings.
pub open spec fn is_image_name(name: Seq<u8>) -> bool {
    exists|ending: Seq<u8>| #[trigger]
        ends_in(name, ending) && (is_jpg(ending) || is_jpeg(ending) || is_png(ending) || is_webp(
            ending,
        ))
}

/// Where the last dot stands: there is none behind it.
proof fn lemma_last_dot_is_last(name: Seq<u8>)
    ensures
        match last_dot(name) {
            Some(d) => {
                &&& 0 <= d < name.len()
                &&& name[d] == 46u8
                &&& forall|i: int| d < i < name.len() ==> #[trigger] name[i] != 46u8
            },
            None => forall|i: int| 0 <= i < name.len() ==> #[trigger] name[i] != 46u8,
        },
    decreases name.len(),
{
    if name.len() > 0 && name.last() != 46u8 {
        let shorter = name.drop_last();
        lemma_last_dot_is_last(shorter);
        assert forall|i: int| 0 <= i < name.len() && name[i] == 46u8 implies i < shorter.len()
            && shorter[i] == 46u8 by {}
    }
}

/// The extension of a file name is what it ends in behind its last dot, where something stands
/// before that dot; and a name that does not end so has none.
pub proof fn law_extension_is_the_ending(name: Seq<u8>, ending: Seq<u8>)
    ensures
        extension_of(name) == Some(ending) <==> ends_in(name, ending),
        extension_of(name) is None <==> forall|e: Seq<u8>| !#[trigger] ends_in(name, e),
{
    lemma_last_dot_is_last(name);
    assert forall|e: Seq<u8>| extension_of(name) == Some(e) <==> #[trigger] ends_in(name, e) by {
        if ends_in(name, e) {
            let d = name.len() - e.len() - 1;
            assert forall|i: int| d < i < name.len() implies #[trigger] name[i] != 46u8 by {
                assert(name.skip(name.len() - e.len())[i - d - 1] == name[i]);
                assert(e[i - d - 1] != 46u8);
            }
            assert(last_dot(name) == Some(d));
            assert(name.skip(d + 1) =~= e);
        }
        if extension_of(name) == Some(e) {
            let d = last_dot(name)->0;
            assert(e == name.skip(d + 1));
            assert forall|i: int| 0 <= i < e.len() implies #[trigger] e[i] != 46u8 by {
                assert(e[i] == name[d + 1 + i]);
            }
            assert(name.skip(name.len() - e.len()) =~= e);
        }
    }
    if extension_of(name) is Some {
        assert(ends_in(name, extension_of(name)->0));
    }
}

/// Small letters are what a word is compared with.
proof fn lemma_letters(ending: Seq<u8>)
    ensures
        spells(ending, "jpg"@) <==> is_jpg(ending),
        spells(ending, "jpeg"@) <==> is_jpeg(ending),
        spells(ending, "png"@) <==> is_png(ending),
        spells(ending, "webp"@) <==> is_webp(ending),
{
    reveal_strlit("jpg");
    reveal_strlit("jpeg");
    reveal_strlit("png");
    reveal_strlit("webp");
    assert forall|b: u8, small: int| 97 <= small <= 122 implies (#[trigger] is_letter(b, small)
        <==> lower_byte(b) as int == small) by {}
    if spells(ending, "jpg"@) {
        assert(lower_byte(ending[0]) as int == 106 && lower_byte(ending[1]) as int == 112
            && lower_byte(ending[2]) as int == 103);
    }
    if spells(ending, "jpeg"@) {
        assert(lower_byte(ending[0]) as int == 106 && lower_byte(ending[1]) as int == 112
            && lower_byte(ending[2]) as int == 101 && lower_byte(ending[3]) as int == 103);
    }
    if spells(ending, "png"@) {
        assert(lower_byte(ending[0]) as int == 112 && lower_byte(ending[1]) as int == 110
            && lower_byte(ending[2]) as int == 103);
    }
    if spells(ending, "webp"@) {
        assert(lower_byte(ending[0]) as int == 119 && lower_byte(ending[1]) as int == 101
            && lower_byte(ending[2]) as int == 98 && lower_byte(ending[3]) as int == 112);
    }
}

/// The images that are taken are the files named `jpg`, `jpeg`, `png` or `webp`, in any case,
/// and no others.
pub proof fn law_supported_is_by_name(path: PathView)
    ensures
        supported(path) <==> path.names.len() > 0 && is_image_name(path.names.last().bytes),
{
    if path.names.len() > 0 {
        let name = path.names.last().bytes;
        match extension_of(name) {
            Some(e) => {
                law_extension_is_the_ending(name, e);
                lemma_letters(e);
                lemma_four_endings(e);
                if is_image_name(name) {
                    let other = choose|ending: Seq<u8>| #[trigger]
                        ends_in(name, ending) && (is_jpg(ending) || is_jpeg(ending) || is_png(
                            ending,
                        ) || is_webp(ending));
                    law_extension_is_the_ending(name, other);
                }
                if supported(path) {
                    assert(ends_in(name, e));
                }
            },
            None => {
                law_extension_is_the_ending(name, name);
            },
        }
    }
}

/// The four endings.
proof fn lemma_four_endings(ending: Seq<u8>)
    ensures
        (exists|k: int|
            0 <= k < SUPPORTED_EXT@.len() && spells(ending, #[trigger] SUPPORTED_EXT@[k]@)) <==> spells(
            ending,
            "jpg"@,
        ) || spells(ending, "jpeg"@) || spells(ending, "png"@)
            || spells(ending, "webp"@),
{
    assert(SUPPORTED_EXT@.len() == 4);
    assert(SUPPORTED_EXT@[0]@ == "jpg"@);
    assert(SUPPORTED_EXT@[1]@ == "jpeg"@);
    assert(SUPPORTED_EXT@[2]@ == "png"@);
    assert(SUPPORTED_EXT@[3]@ == "webp"@);
}

/// An image is uploaded under the media type that its name tells: PNG and WebP by their
/// endings in any case, and everything else as JPEG.
pub proof fn law_media_type_is_by_name(path: PathView, name: NameView, ending: Seq<u8>)
    requires
        path.names.len() > 0,
        path.names.last() == name,
    ensures
        ends_in(name.bytes, ending) && is_png(ending) ==> media_type(path) == "image/png"@,
        ends_in(name.bytes, ending) && is_webp(ending) ==> media_type(path) == "image/webp"@,
        ends_in(name.bytes, ending) && !is_png(ending) && !is_webp(ending) ==> media_type(path)
            == "image/jpeg"@,
        (forall|e: Seq<u8>| !#[trigger] ends_in(name.bytes, e)) ==> media_type(path)
            == "image/jpeg"@,
{
    law_extension_is_the_ending(name.bytes, ending);
    lemma_letters(ending);
    assert(path_extension(path) == extension_of(name.bytes));
    if is_png(ending) && is_webp(ending) {
        assert(false);
    }
}

} // verus!
