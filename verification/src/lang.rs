//! The languages on offer.

use crate::text::same_text;
use vstd::prelude::*;

verus! {

/// The target languages: code and shown name. The shown names keep to Chinese, Latin and
/// Cyrillic letters, which a Chinese system font has.
pub const TARGET_LANGS: [(&'static str, &'static str); 16] = [
    ("en", "英语 English"),
    ("ja", "日语 Japanese"),
    ("ko", "韩语 Korean"),
    ("zh-CN", "简体中文"),
    ("zh-TW", "繁体中文"),
    ("de", "德语 Deutsch"),
    ("fr", "法语 Français"),
    ("es", "西班牙语 Español"),
    ("ru", "俄语 Русский"),
    ("it", "意大利语 Italiano"),
    ("pt", "葡萄牙语 Português"),
    ("th", "泰语 Thai"),
    ("vi", "越南语 Vietnamese"),
    ("ar", "阿拉伯语 Arabic"),
    ("id", "印尼语 Indonesian"),
    ("hi", "印地语 Hindi"),
];

/// The source languages: automatic detection, then every target language in its order.
pub open spec fn source_lang_list() -> Seq<(&'static str, &'static str)> {
    seq![("auto", "自动检测 Auto")] + TARGET_LANGS@
}

/// The target languages as a list.
pub fn target_langs() -> (v: Vec<(&'static str, &'static str)>)
    ensures
        v@ == TARGET_LANGS@,
{
    let mut v: Vec<(&'static str, &'static str)> = Vec::new();
    let mut i: usize = 0;
    while i < 16
        invariant
            i <= 16,
            v@ == TARGET_LANGS@.take(i as int),
        decreases 16 - i,
    {
        v.push(TARGET_LANGS[i]);
        i = i + 1;
    }
    assert(TARGET_LANGS@.take(16) =~= TARGET_LANGS@);
    v
}

/// The source languages as a list.
pub fn source_langs() -> (v: Vec<(&'static str, &'static str)>)
    ensures
        v@ == source_lang_list(),
{
    let mut v: Vec<(&'static str, &'static str)> = Vec::new();
    v.push(("auto", "自动检测 Auto"));
    let mut targets = target_langs();
    v.append(&mut targets);
    assert(v@ =~= source_lang_list());
    v
}

/// The first position from `i` on where `langs` holds `code`.
pub open spec fn code_position(
    langs: Seq<(&'static str, &'static str)>,
    code: Seq<char>,
    i: int,
) -> Option<int>
    decreases langs.len() - i,
{
    if i < 0 || i >= langs.len() {
        None
    } else if langs[i].0@ == code {
        Some(i)
    } else {
        code_position(langs, code, i + 1)
    }
}

/// The position of `code` in `langs`, or 0 where it is missing or not listed.
pub open spec fn chosen_position(
    langs: Seq<(&'static str, &'static str)>,
    code: Option<Seq<char>>,
) -> int {
    match code {
        Some(c) => match code_position(langs, c, 0) {
            Some(i) => i,
            None => 0,
        },
        None => 0,
    }
}

/// Finds the language with the given code. The first language stands in for a code that is
/// missing or not listed.
pub fn choose_lang(langs: &Vec<(&'static str, &'static str)>, code: &Option<String>) -> (i: usize)
    ensures
        i as int == chosen_position(
            langs@,
            match code {
                Some(c) => Some(c@),
                None => None,
            },
        ),
        langs@.len() > 0 ==> i < langs@.len(),
{
    match code {
        Some(c) => {
            let n: usize = langs.len();
            let mut i: usize = 0;
            while i < n
                invariant
                    i <= n,
                    n == langs@.len(),
                    *code == Some(*c),
                    code_position(langs@, c@, 0) == code_position(langs@, c@, i as int),
                decreases n - i,
            {
                if same_text(langs[i].0, c.as_str()) {
                    return i;
                }
                i = i + 1;
            }
            0
        },
        None => 0,
    }
}

/// A language that is listed is chosen by its code, at the first place where it stands; a code
/// that is missing or not listed leaves the first language.
pub proof fn law_language_is_chosen_by_its_code(
    langs: Seq<(&'static str, &'static str)>,
    code: Seq<char>,
)
    ensures
        ({
            let i = chosen_position(langs, Some(code));
            if exists|k: int| 0 <= k < langs.len() && (#[trigger] langs[k]).0@ == code {
                &&& 0 <= i < langs.len()
                &&& langs[i].0@ == code
                &&& forall|j: int| 0 <= j < i ==> (#[trigger] langs[j]).0@ != code
            } else {
                i == 0
            }
        }),
        chosen_position(langs, None) == 0,
{
    lemma_code_position(langs, code, 0);
}

proof fn lemma_code_position(
    langs: Seq<(&'static str, &'static str)>,
    code: Seq<char>,
    from: int,
)
    requires
        0 <= from,
    ensures
        match code_position(langs, code, from) {
            Some(i) => {
                &&& from <= i < langs.len()
                &&& langs[i].0@ == code
                &&& forall|j: int| from <= j < i ==> (#[trigger] langs[j]).0@ != code
            },
            None => forall|j: int| from <= j < langs.len() ==> (#[trigger] langs[j]).0@ != code,
        },
    decreases langs.len() - from,
{
    if from < langs.len() && langs[from].0@ != code {
        lemma_code_position(langs, code, from + 1);
    }
}

/// The languages that the documentation names are on offer, in its order, English first.
pub proof fn law_languages_on_offer()
    ensures
        TARGET_LANGS@.len() == 16,
        TARGET_LANGS@[0].0@ == "en"@,
        TARGET_LANGS@[1].0@ == "ja"@,
        TARGET_LANGS@[2].0@ == "ko"@,
        TARGET_LANGS@[3].0@ == "zh-CN"@,
        TARGET_LANGS@[4].0@ == "zh-TW"@,
        TARGET_LANGS@[5].0@ == "de"@,
        TARGET_LANGS@[6].0@ == "fr"@,
        TARGET_LANGS@[7].0@ == "es"@,
        TARGET_LANGS@[8].0@ == "ru"@,
        TARGET_LANGS@[9].0@ == "it"@,
        TARGET_LANGS@[10].0@ == "pt"@,
        TARGET_LANGS@[11].0@ == "th"@,
        TARGET_LANGS@[12].0@ == "vi"@,
        TARGET_LANGS@[13].0@ == "ar"@,
        TARGET_LANGS@[14].0@ == "id"@,
        TARGET_LANGS@[15].0@ == "hi"@,
{
}

/// The source may be any of the target languages, or be detected, which comes first.
pub proof fn law_source_is_any_target_or_detected(k: int)
    requires
        0 <= k < 16,
    ensures
        source_lang_list().len() == 17,
        source_lang_list()[0].0@ == "auto"@,
        source_lang_list()[k + 1] == TARGET_LANGS@[k],
{
}

} // verus!
