//! Where the browser is looked for, said by the names of the variables and the bytes of the
//! paths.

use crate::chrome::{
    first_file, law_first_existing_place_is_found, law_suffix_is_written_out, place_bytes, places,
    places_from, search_result, search_start, suffix_path, var_name, var_place,
    ChromePathView,
};
use crate::path::{
    is_bare_drive, is_verbatim, joined, path_bytes, path_text, PathView, Separator,
};
use crate::writing::law_joining_writes_one_behind_the_other;
use vstd::prelude::*;

verus! {

/// What a variable says, where it is set, as it is.
pub open spec fn as_it_is(value: Option<PathView>) -> Seq<Seq<u8>> {
    match value {
        Some(path) => seq![path_bytes(path)],
        None => Seq::empty(),
    }
}

/// The program below the directory that a variable names, where it is set.
pub open spec fn installed_below(value: Option<PathView>, separator: Separator) -> Seq<Seq<u8>> {
    match value {
        Some(base) => seq![path_bytes(joined(base, suffix_path(separator), separator))],
        None => Seq::empty(),
    }
}

/// The paths where the browser may be, in turn: the one of the settings, the one that `CHROME`
/// holds, and the program below each of the directories in which programs are installed, for
/// the system and for the user.
pub open spec fn browser_paths(
    explicit: Option<Seq<u8>>,
    vars: spec_fn(Seq<char>) -> Option<PathView>,
    separator: Separator,
) -> Seq<Seq<u8>> {
    (match explicit {
        Some(bytes) => seq![bytes],
        None => Seq::empty(),
    }) + as_it_is(vars("CHROME"@)) + installed_below(vars("ProgramFiles"@), separator)
        + installed_below(vars("ProgramFiles(x86)"@), separator) + installed_below(
        vars("LOCALAPPDATA"@),
        separator,
    ) + installed_below(vars("ProgramW6432"@), separator)
}

/// The bytes of places.
spec fn bytes_of(places: Seq<ChromePathView>, separator: Separator) -> Seq<Seq<u8>> {
    Seq::new(places.len(), |i: int| place_bytes(places[i], separator))
}

proof fn lemma_first_file(places: Seq<ChromePathView>, is_file: spec_fn(ChromePathView) -> bool)
    ensures
        match first_file(places, is_file) {
            Some(place) => exists|k: int|
                {
                    &&& 0 <= k < places.len()
                    &&& #[trigger] places[k] == place
                    &&& is_file(place)
                    &&& forall|j: int| 0 <= j < k ==> !is_file(#[trigger] places[j])
                },
            None => forall|j: int| 0 <= j < places.len() ==> !is_file(#[trigger] places[j]),
        },
    decreases places.len(),
{
    if places.len() > 0 {
        if is_file(places[0]) {
            assert(places[0] == first_file(places, is_file)->0);
        } else {
            let rest = places.skip(1);
            lemma_first_file(rest, is_file);
            match first_file(rest, is_file) {
                Some(place) => {
                    let k = choose|k: int|
                        {
                            &&& 0 <= k < rest.len()
                            &&& #[trigger] rest[k] == place
                            &&& is_file(place)
                            &&& forall|j: int| 0 <= j < k ==> !is_file(#[trigger] rest[j])
                        };
                    assert(places[k + 1] == place);
                    assert forall|j: int| 0 <= j < k + 1 implies !is_file(#[trigger] places[j]) by {
                        if j > 0 {
                            assert(places[j] == rest[j - 1]);
                        }
                    }
                },
                None => {
                    assert forall|j: int| 0 <= j < places.len() implies !is_file(
                        #[trigger] places[j],
                    ) by {
                        if j > 0 {
                            assert(places[j] == rest[j - 1]);
                        }
                    }
                },
            }
        }
    }
}

proof fn lemma_var_names()
    ensures
        var_name(0) == "CHROME"@,
        var_name(1) == "ProgramFiles"@,
        var_name(2) == "ProgramFiles(x86)"@,
        var_name(3) == "LOCALAPPDATA"@,
        var_name(4) == "ProgramW6432"@,
{
}

/// The path that a variable gives comes before those of the variables behind it.
proof fn lemma_paths_from(
    k: int,
    vars: spec_fn(Seq<char>) -> Option<PathView>,
    separator: Separator,
)
    requires
        0 <= k < 5,
    ensures
        bytes_of(places_from(k, vars), separator) == (if k == 0 {
            as_it_is(vars(var_name(k)))
        } else {
            installed_below(vars(var_name(k)), separator)
        }) + bytes_of(places_from(k + 1, vars), separator),
{
    let rest = places_from(k + 1, vars);
    match vars(var_name(k)) {
        Some(value) => {
            let place = var_place(k, value);
            assert(places_from(k, vars) == seq![place] + rest);
            assert(bytes_of(seq![place] + rest, separator) =~= seq![
                place_bytes(place, separator),
            ] + bytes_of(rest, separator));
        },
        None => {
            assert(places_from(k, vars) =~= rest);
            assert(Seq::<Seq<u8>>::empty() + bytes_of(rest, separator) =~= bytes_of(
                rest,
                separator,
            ));
        },
    }
}

/// Six sequences in a row, however they are grouped.
proof fn lemma_row(
    a: Seq<Seq<u8>>,
    b: Seq<Seq<u8>>,
    c: Seq<Seq<u8>>,
    d: Seq<Seq<u8>>,
    e: Seq<Seq<u8>>,
    f: Seq<Seq<u8>>,
)
    ensures
        a + (b + (c + (d + (e + (f + Seq::empty()))))) == a + b + c + d + e + f,
{
    assert(a + (b + (c + (d + (e + (f + Seq::empty()))))) =~= a + b + c + d + e + f);
}

proof fn lemma_paths_of_places(
    explicit: Option<Seq<u8>>,
    vars: spec_fn(Seq<char>) -> Option<PathView>,
    separator: Separator,
)
    ensures
        bytes_of(places(explicit, vars), separator) == browser_paths(explicit, vars, separator),
{
    lemma_var_names();
    lemma_paths_from(0, vars, separator);
    lemma_paths_from(1, vars, separator);
    lemma_paths_from(2, vars, separator);
    lemma_paths_from(3, vars, separator);
    lemma_paths_from(4, vars, separator);
    assert(bytes_of(places_from(5, vars), separator) =~= Seq::<Seq<u8>>::empty());
    let first = match explicit {
        Some(bytes) => seq![bytes],
        None => Seq::<Seq<u8>>::empty(),
    };
    let rest = places_from(0, vars);
    assert(bytes_of(places(explicit, vars), separator) =~= first + bytes_of(rest, separator)) by {
        match explicit {
            Some(bytes) => {
                let place = ChromePathView::Explicit(bytes);
                assert(places(explicit, vars) == seq![place] + rest);
                assert(bytes_of(seq![place] + rest, separator) =~= seq![bytes] + bytes_of(
                    rest,
                    separator,
                ));
            },
            None => {
                assert(places(explicit, vars) =~= rest);
            },
        }
    }
    lemma_row(
        first,
        as_it_is(vars("CHROME"@)),
        installed_below(vars("ProgramFiles"@), separator),
        installed_below(vars("ProgramFiles(x86)"@), separator),
        installed_below(vars("LOCALAPPDATA"@), separator),
        installed_below(vars("ProgramW6432"@), separator),
    );
}

/// The browser that the search finds is the first file among the paths where it may be, by
/// whatever variables are set; and it finds none exactly where none of them is a file.
pub proof fn law_browser_is_the_first_file(
    explicit: Option<Seq<u8>>,
    vars: spec_fn(Seq<char>) -> Option<PathView>,
    is_file: spec_fn(Seq<u8>) -> bool,
    separator: Separator,
)
    ensures
        ({
            let paths = browser_paths(explicit, vars, separator);
            match search_result(
                search_start(explicit),
                vars,
                |place: ChromePathView| is_file(place_bytes(place, separator)),
            ) {
                Some(place) => exists|k: int|
                    {
                        &&& 0 <= k < paths.len()
                        &&& #[trigger] paths[k] == place_bytes(place, separator)
                        &&& is_file(paths[k])
                        &&& forall|j: int| 0 <= j < k ==> !is_file(#[trigger] paths[j])
                    },
                None => forall|j: int| 0 <= j < paths.len() ==> !is_file(#[trigger] paths[j]),
            }
        }),
{
    let paths = browser_paths(explicit, vars, separator);
    let all = places(explicit, vars);
    let holds = |place: ChromePathView| is_file(place_bytes(place, separator));
    law_first_existing_place_is_found(explicit, vars, holds);
    lemma_first_file(all, holds);
    lemma_paths_of_places(explicit, vars, separator);
    assert(paths.len() == all.len());
    assert forall|j: int| 0 <= j < all.len() implies #[trigger] paths[j] == place_bytes(
        all[j],
        separator,
    ) by {
        assert(bytes_of(all, separator)[j] == place_bytes(all[j], separator));
    }
    match first_file(all, holds) {
        Some(place) => {
            let k = choose|k: int|
                {
                    &&& 0 <= k < all.len()
                    &&& #[trigger] all[k] == place
                    &&& holds(place)
                    &&& forall|j: int| 0 <= j < k ==> !holds(#[trigger] all[j])
                };
            assert(paths[k] == place_bytes(place, separator));
            assert forall|j: int| 0 <= j < k implies !is_file(#[trigger] paths[j]) by {
                assert(!holds(all[j]));
            }
        },
        None => {
            assert forall|j: int| 0 <= j < paths.len() implies !is_file(#[trigger] paths[j]) by {
                assert(!holds(all[j]));
            }
        },
    }
}

/// A browser that is installed for the system or for the user is found: where the program below
/// the directory that one of the four variables names is a file, the search finds a browser.
pub proof fn law_installed_browser_is_found(
    explicit: Option<Seq<u8>>,
    vars: spec_fn(Seq<char>) -> Option<PathView>,
    is_file: spec_fn(Seq<u8>) -> bool,
    separator: Separator,
    name: Seq<char>,
    base: PathView,
)
    requires
        name == "ProgramFiles"@ || name == "ProgramFiles(x86)"@ || name == "LOCALAPPDATA"@ || name
            == "ProgramW6432"@,
        vars(name) == Some(base),
        is_file(path_bytes(joined(base, suffix_path(separator), separator))),
    ensures
        search_result(
            search_start(explicit),
            vars,
            |place: ChromePathView| is_file(place_bytes(place, separator)),
        ) is Some,
        (forall|other: Seq<u8>|
            #[trigger] is_file(other) ==> other == path_bytes(
                joined(base, suffix_path(separator), separator),
            )) ==> place_bytes(
            search_result(
                search_start(explicit),
                vars,
                |place: ChromePathView| is_file(place_bytes(place, separator)),
            )->0,
            separator,
        ) == path_bytes(joined(base, suffix_path(separator), separator)),
{
    law_browser_is_the_first_file(explicit, vars, is_file, separator);
    let paths = browser_paths(explicit, vars, separator);
    let path = path_bytes(joined(base, suffix_path(separator), separator));
    let e = (match explicit {
        Some(bytes) => seq![bytes],
        None => Seq::<Seq<u8>>::empty(),
    }) + as_it_is(vars("CHROME"@));
    let f = installed_below(vars("ProgramFiles"@), separator);
    let x = installed_below(vars("ProgramFiles(x86)"@), separator);
    let l = installed_below(vars("LOCALAPPDATA"@), separator);
    let k = if name == "ProgramFiles"@ {
        e.len() as int
    } else if name == "ProgramFiles(x86)"@ {
        (e + f).len() as int
    } else if name == "LOCALAPPDATA"@ {
        (e + f + x).len() as int
    } else {
        (e + f + x + l).len() as int
    };
    assert(installed_below(vars(name), separator)[0] == path);
    assert(paths[k] == path);
}

/// Below a directory the program is `Google\Chrome\Application\chrome.exe`: its path is shown as
/// that of the directory, a separator where one is missing, and this text.
pub proof fn law_installed_browser_lies_below_its_directory(base: PathView, separator: Separator)
    requires
        !is_verbatim(base),
    ensures
        ({
            let first = path_text(base);
            let mark = match separator {
                Separator::Slash => '/',
                Separator::Backslash => '\\',
            };
            let needs_none = first.len() == 0 || first.last() == '/' || first.last() == mark
                || is_bare_drive(base);
            path_text(joined(base, suffix_path(separator), separator)) == first + (if needs_none {
                Seq::empty()
            } else {
                seq![mark]
            }) + r"Google\Chrome\Application\chrome.exe"@
        }),
{
    law_suffix_is_written_out();
    law_joining_writes_one_behind_the_other(base, suffix_path(separator), separator);
}

} // verus!
