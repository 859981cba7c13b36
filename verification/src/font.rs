//! The font for Chinese text in the window.

use vstd::prelude::*;

verus! {

/// The font files that are tried, the best first.
pub const FONT_FILES: [&'static str; 5] = [
    r"C:\Windows\Fonts\msyh.ttc",
    r"C:\Windows\Fonts\simhei.ttf",
    r"C:\Windows\Fonts\Deng.ttf",
    r"C:\Windows\Fonts\simsun.ttc",
    r"C:\Windows\Fonts\msyh.ttf",
];

/// The name under which the font is known in the window.
pub const FONT_NAME: &'static str = "cjk";

/// What is to be done next.
pub enum FontAction {
    /// Read this file.
    Read(&'static str),
    /// Use the font that was read.
    Install,
    /// Go on without such a font.
    GiveUp,
}

/// The request for the next file when the first `tried` could not be read.
pub open spec fn font_request(tried: nat) -> FontAction {
    if tried < FONT_FILES@.len() {
        FontAction::Read(FONT_FILES@[tried as int])
    } else {
        FontAction::GiveUp
    }
}

/// What follows when the first `tried` files could not be read and the next one could, or could
/// not.
pub open spec fn font_next(tried: nat, readable: bool) -> (nat, FontAction) {
    if readable {
        (tried, FontAction::Install)
    } else {
        (tried + 1, font_request(tried + 1))
    }
}

/// The request for the next font file.
pub fn request_font(tried: usize) -> (action: FontAction)
    ensures
        action == font_request(tried as nat),
{
    if tried < 5 {
        FontAction::Read(FONT_FILES[tried])
    } else {
        FontAction::GiveUp
    }
}

/// Finds the font: `tried` counts the files that could not be read, and `readable` says whether
/// the next one could.
pub fn install_cjk_font(tried: &mut usize, readable: bool) -> (action: FontAction)
    requires
        *old(tried) < FONT_FILES@.len(),
    ensures
        (*final(tried) as nat, action) == font_next(*old(tried) as nat, readable),
{
    if readable {
        return FontAction::Install;
    }
    *tried = *tried + 1;
    request_font(*tried)
}

/// The file whose font is used on a machine where `readable` tells which files can be read,
/// when the first `tried` could not.
pub open spec fn font_used(tried: nat, readable: spec_fn(nat) -> bool) -> Option<nat>
    decreases FONT_FILES@.len() - tried,
{
    if tried >= FONT_FILES@.len() {
        None
    } else {
        let (after, action) = font_next(tried, readable(tried));
        match action {
            FontAction::Install => Some(after),
            FontAction::Read(_) => font_used(tried + 1, readable),
            FontAction::GiveUp => None,
        }
    }
}

/// The first file that can be read is used, and none where none can.
pub proof fn law_first_readable_font_is_used(readable: spec_fn(nat) -> bool)
    ensures
        font_used(0, readable) matches Some(k) ==> k < FONT_FILES@.len() && readable(k) && (forall|
            j: nat,
        |
            j < k ==> !#[trigger] readable(j)),
        font_used(0, readable) is None ==> (forall|j: nat|
            j < FONT_FILES@.len() ==> !#[trigger] readable(j)),
{
    lemma_font_used(0, readable);
}

proof fn lemma_font_used(tried: nat, readable: spec_fn(nat) -> bool)
    ensures
        font_used(tried, readable) matches Some(k) ==> tried <= k < FONT_FILES@.len() && readable(
            k,
        ) && (forall|j: nat| tried <= j < k ==> !#[trigger] readable(j)),
        font_used(tried, readable) is None ==> (forall|j: nat|
            tried <= j < FONT_FILES@.len() ==> !#[trigger] readable(j)),
    decreases FONT_FILES@.len() - tried,
{
    if tried < FONT_FILES@.len() && !readable(tried) {
        lemma_font_used(tried + 1, readable);
    }
}

/// The texts that `names` hold.
pub open spec fn texts(names: Seq<String>) -> Seq<Seq<char>> {
    Seq::new(names.len(), |i: int| names[i]@)
}

/// Enters the font into the two families: first for proportional text, and last, behind the
/// fonts of even width, for monospaced text.
pub fn add_cjk(proportional: &mut Vec<String>, monospace: &mut Vec<String>)
    ensures
        texts(final(proportional)@) == seq![FONT_NAME@] + texts(old(proportional)@),
        texts(final(monospace)@) == texts(old(monospace)@).push(FONT_NAME@),
{
    proportional.insert(0, FONT_NAME.to_owned());
    monospace.push(FONT_NAME.to_owned());
    assert(texts(proportional@) =~= seq![FONT_NAME@] + texts(old(proportional)@));
    assert(texts(monospace@) =~= texts(old(monospace)@).push(FONT_NAME@));
}

/// The files are asked for one after the other, and when none is left the window does without.
pub proof fn law_fonts_are_asked_for_in_turn(tried: nat)
    ensures
        tried < FONT_FILES@.len() ==> font_request(tried) == FontAction::Read(
            FONT_FILES@[tried as int],
        ),
        tried >= FONT_FILES@.len() ==> font_request(tried) == FontAction::GiveUp,
        font_next(tried, true).1 == FontAction::Install,
        font_next(tried, false) == (tried + 1, font_request(tried + 1)),
        FONT_FILES@.len() == 5,
        FONT_FILES@[0]@ == r"C:\Windows\Fonts\msyh.ttc"@,
{
}

} // verus!
