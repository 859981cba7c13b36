//! Finding the browser and how it is launched.

use crate::config::Config;
use crate::path::{
    copy_bytes, join, joined, names_text, path_bytes, path_option_view, path_text, relative,
    write_path, Name, NameView, OsPath, PathView, Separator,
};
use crate::text::chain;
use vstd::prelude::*;
use vstd::string::StringSliceAdditionalSpecFns;
use vstd::utf8::encode_utf8;

verus! {

/// The environment variable that may name the browser.
pub const CHROME_VAR: &'static str = "CHROME";

/// The environment variables that name directories in which programs are installed.
pub const BASE_VARS: [&'static str; 4] = [
    "ProgramFiles",
    "ProgramFiles(x86)",
    "LOCALAPPDATA",
    "ProgramW6432",
];

/// Where the browser lies below such a directory.
pub const CHROME_SUFFIX: &'static str = r"Google\Chrome\Application\chrome.exe";

/// A place where the browser may be.
pub enum ChromePath {
    /// The path given in the settings.
    Explicit(Vec<u8>),
    /// The path that the variable `CHROME` holds.
    Named(OsPath),
    /// `CHROME_SUFFIX` below this directory.
    Installed(OsPath),
}

/// The mathematical value of a [`ChromePath`].
pub enum ChromePathView {
    Explicit(Seq<u8>),
    Named(PathView),
    Installed(PathView),
}

impl View for ChromePath {
    type V = ChromePathView;

    open spec fn view(&self) -> ChromePathView {
        match *self {
            ChromePath::Explicit(p) => ChromePathView::Explicit(p@),
            ChromePath::Named(p) => ChromePathView::Named(p@),
            ChromePath::Installed(p) => ChromePathView::Installed(p@),
        }
    }
}

impl ChromePath {
    /// Copies the place.
    fn copy(&self) -> (r: ChromePath)
        ensures
            r@ == self@,
    {
        match self {
            ChromePath::Explicit(p) => ChromePath::Explicit(copy_bytes(p)),
            ChromePath::Named(p) => ChromePath::Named(p.clone()),
            ChromePath::Installed(p) => ChromePath::Installed(p.clone()),
        }
    }
}

/// A component with this text, behind a separator or first.
pub open spec fn suffix_name(text: Seq<char>, first: bool) -> NameView {
    NameView {
        gap: if first {
            Seq::empty()
        } else {
            seq!['\\']
        },
        bytes: encode_utf8(text),
        text,
    }
}

/// `CHROME_SUFFIX` as a path: where `\` does not separate names, it is one name.
pub open spec fn suffix_path(separator: Separator) -> PathView {
    match separator {
        Separator::Slash => relative(seq![suffix_name(CHROME_SUFFIX@, true)]),
        Separator::Backslash => relative(
            seq![
                suffix_name("Google"@, true),
                suffix_name("Chrome"@, false),
                suffix_name("Application"@, false),
                suffix_name("chrome.exe"@, false),
            ],
        ),
    }
}

/// The bytes of the path that a place stands for.
pub open spec fn place_bytes(place: ChromePathView, separator: Separator) -> Seq<u8> {
    match place {
        ChromePathView::Explicit(bytes) => bytes,
        ChromePathView::Named(path) => path_bytes(path),
        ChromePathView::Installed(base) => path_bytes(
            joined(base, suffix_path(separator), separator),
        ),
    }
}

/// A component with this text, behind a separator or first.
fn suffix_component(text: &str, first: bool) -> (r: Name)
    ensures
        r@ == suffix_name(text@, first),
{
    proof {
        reveal_strlit("\\");
        reveal_strlit("");
    }
    let gap = if first {
        ""
    } else {
        "\\"
    };
    assert(gap@ =~= suffix_name(text@, first).gap);
    Name { gap: gap.to_owned(), bytes: text.as_bytes_vec(), text: text.to_owned() }
}

/// `CHROME_SUFFIX` as a path.
fn read_suffix(separator: Separator) -> (r: OsPath)
    ensures
        r@ == suffix_path(separator),
{
    let mut names: Vec<Name> = Vec::new();
    match separator {
        Separator::Slash => {
            names.push(suffix_component(CHROME_SUFFIX, true));
        },
        Separator::Backslash => {
            names.push(suffix_component("Google", true));
            names.push(suffix_component("Chrome", false));
            names.push(suffix_component("Application", false));
            names.push(suffix_component("chrome.exe", false));
        },
    }
    let r = OsPath { prefix: None, root: None, names, trail: String::new() };
    assert(r@.names =~= suffix_path(separator).names);
    r
}

/// On Windows, the names of `CHROME_SUFFIX` written out are `CHROME_SUFFIX`.
pub proof fn law_suffix_is_written_out()
    ensures
        path_text(suffix_path(Separator::Backslash)) == CHROME_SUFFIX@,
        path_text(suffix_path(Separator::Slash)) == CHROME_SUFFIX@,
{
    reveal_strlit(r"Google\Chrome\Application\chrome.exe");
    reveal_strlit("Google");
    reveal_strlit("Chrome");
    reveal_strlit("Application");
    reveal_strlit("chrome.exe");
    reveal_with_fuel(names_text, 5);
    let names = suffix_path(Separator::Backslash).names;
    assert(names.drop_last().drop_last().drop_last().drop_last() =~= Seq::<NameView>::empty());
    assert(names_text(names) =~= CHROME_SUFFIX@);
    assert(path_text(suffix_path(Separator::Backslash)) =~= CHROME_SUFFIX@);
    let one = suffix_path(Separator::Slash).names;
    assert(one.drop_last() =~= Seq::<NameView>::empty());
    assert(path_text(suffix_path(Separator::Slash)) =~= CHROME_SUFFIX@);
}

impl ChromePath {
    /// The bytes of the path that the place stands for.
    pub fn path(&self, separator: Separator) -> (r: Vec<u8>)
        ensures
            r@ == place_bytes(self@, separator),
    {
        match self {
            ChromePath::Explicit(bytes) => copy_bytes(bytes),
            ChromePath::Named(path) => write_path(path),
            ChromePath::Installed(base) => {
                write_path(&join(base, &read_suffix(separator), separator))
            },
        }
    }
}

/// What the search for the browser waits for.
pub enum Search {
    /// The value of variable number `k`: 0 for `CHROME`, then the directories.
    Reading(usize),
    /// Word on whether this place holds a file; variable number `then` is read if not.
    Probing { place: ChromePath, then: usize },
    /// Nothing.
    Finished,
}

/// The mathematical value of a [`Search`].
pub enum SearchView {
    Reading(usize),
    Probing { place: ChromePathView, then: usize },
    Finished,
}

impl View for Search {
    type V = SearchView;

    open spec fn view(&self) -> SearchView {
        match *self {
            Search::Reading(k) => SearchView::Reading(k),
            Search::Probing { place, then } => SearchView::Probing { place: place@, then },
            Search::Finished => SearchView::Finished,
        }
    }
}

/// What came of the last action.
pub enum SearchEvent {
    /// The path that the variable holds, where it is set to a text.
    VarRead(Option<OsPath>),
    /// Whether the place holds a file.
    Probed(bool),
}

/// The mathematical value of a [`SearchEvent`].
pub enum SearchEventView {
    VarRead(Option<PathView>),
    Probed(bool),
}

impl View for SearchEvent {
    type V = SearchEventView;

    open spec fn view(&self) -> SearchEventView {
        match *self {
            SearchEvent::VarRead(v) => SearchEventView::VarRead(path_option_view(v)),
            SearchEvent::Probed(b) => SearchEventView::Probed(b),
        }
    }
}

/// What is to be done next.
pub enum SearchAction {
    /// Keep waiting: what came was not what is waited for.
    Wait,
    /// Read this environment variable.
    ReadVar(&'static str),
    /// Find out whether this place holds a file.
    Probe(ChromePath),
    /// The browser, or `None` where it was not found.
    Finish(Option<ChromePath>),
}

/// The mathematical value of a [`SearchAction`].
pub enum SearchActionView {
    Wait,
    ReadVar(Seq<char>),
    Probe(ChromePathView),
    Finish(Option<ChromePathView>),
}

impl View for SearchAction {
    type V = SearchActionView;

    open spec fn view(&self) -> SearchActionView {
        match *self {
            SearchAction::Wait => SearchActionView::Wait,
            SearchAction::ReadVar(name) => SearchActionView::ReadVar(name@),
            SearchAction::Probe(p) => SearchActionView::Probe(p@),
            SearchAction::Finish(p) => SearchActionView::Finish(
                match p {
                    Some(p) => Some(p@),
                    None => None,
                },
            ),
        }
    }
}

/// The name of variable number `k`.
pub open spec fn var_name(k: int) -> Seq<char> {
    if k == 0 {
        CHROME_VAR@
    } else {
        BASE_VARS@[k - 1]@
    }
}

/// The place to which the value of variable number `k` leads.
pub open spec fn var_place(k: int, value: PathView) -> ChromePathView {
    if k == 0 {
        ChromePathView::Named(value)
    } else {
        ChromePathView::Installed(value)
    }
}

/// How many variables are read.
pub open spec fn var_count() -> nat {
    5
}

/// The search goes on with variable number `k`, or ends where there is none.
pub open spec fn read_from(k: int) -> (SearchView, SearchActionView) {
    if k < var_count() {
        (SearchView::Reading(k as usize), SearchActionView::ReadVar(var_name(k)))
    } else {
        (SearchView::Finished, SearchActionView::Finish(None))
    }
}

/// The search tries a place, and goes on with variable number `then` if it holds no file.
pub open spec fn try_place(place: ChromePathView, then: int) -> (SearchView, SearchActionView) {
    (SearchView::Probing { place, then: then as usize }, SearchActionView::Probe(place))
}

/// How the search begins: with the path of the settings, where there is one.
pub open spec fn search_start(explicit: Option<Seq<u8>>) -> (SearchView, SearchActionView) {
    match explicit {
        Some(p) => try_place(ChromePathView::Explicit(p), 0),
        None => read_from(0),
    }
}

/// What follows `event` in the search. An event that does not fit changes nothing.
pub open spec fn search_next(search: SearchView, event: SearchEventView) -> (
    SearchView,
    SearchActionView,
) {
    match (search, event) {
        (SearchView::Reading(k), SearchEventView::VarRead(v)) => match v {
            Some(value) => try_place(var_place(k as int, value), k + 1),
            None => read_from(k + 1),
        },
        (SearchView::Probing { place, then }, SearchEventView::Probed(is_file)) => if is_file {
            (SearchView::Finished, SearchActionView::Finish(Some(place)))
        } else {
            read_from(then as int)
        },
        _ => (search, SearchActionView::Wait),
    }
}

/// The variable being read, or to be read next, is one of those that are read.
pub open spec fn in_range(search: SearchView) -> bool {
    match search {
        SearchView::Reading(k) => k < var_count(),
        SearchView::Probing { then, .. } => then <= var_count(),
        SearchView::Finished => true,
    }
}

/// A search, and what it asks for.
fn search_var(k: usize) -> (r: (Search, SearchAction))
    ensures
        (r.0@, r.1@) == read_from(k as int),
        in_range(r.0@),
{
    if k == 0 {
        (Search::Reading(0), SearchAction::ReadVar(CHROME_VAR))
    } else if k < 5 {
        (Search::Reading(k), SearchAction::ReadVar(BASE_VARS[k - 1]))
    } else {
        (Search::Finished, SearchAction::Finish(None))
    }
}

/// A search that tries a place.
fn search_place(place: ChromePath, then: usize) -> (r: (Search, SearchAction))
    ensures
        (r.0@, r.1@) == try_place(place@, then as int),
{
    let probe = SearchAction::Probe(place.copy());
    (Search::Probing { place, then }, probe)
}

/// Begins the search for the browser.
pub fn start_search(explicit: &Option<Vec<u8>>) -> (r: (Search, SearchAction))
    ensures
        (r.0@, r.1@) == search_start(
            match explicit {
                Some(p) => Some(p@),
                None => None,
            },
        ),
        in_range(r.0@),
{
    match explicit {
        Some(p) => search_place(ChromePath::Explicit(copy_bytes(p)), 0),
        None => search_var(0),
    }
}

/// Takes the search for the browser a step further: the path of the settings comes first, then
/// the variable `CHROME`, then the usual places of installation, and the first that is a file
/// is the browser.
pub fn find_chrome(search: Search, event: SearchEvent) -> (r: (Search, SearchAction))
    requires
        in_range(search@),
    ensures
        (r.0@, r.1@) == search_next(search@, event@),
        in_range(r.0@),
{
    match (search, event) {
        (Search::Reading(k), SearchEvent::VarRead(v)) => match v {
            Some(value) => {
                if k == 0 {
                    search_place(ChromePath::Named(value), 1)
                } else {
                    search_place(ChromePath::Installed(value), k + 1)
                }
            },
            None => search_var(k + 1),
        },
        (Search::Probing { place, then }, SearchEvent::Probed(is_file)) => {
            if is_file {
                (Search::Finished, SearchAction::Finish(Some(place)))
            } else {
                search_var(then)
            }
        },
        (other, _) => (other, SearchAction::Wait),
    }
}

/// The places from variable number `k` on, for the values that the variables have.
pub open spec fn places_from(k: int, vars: spec_fn(Seq<char>) -> Option<PathView>) -> Seq<
    ChromePathView,
>
    decreases var_count() - k,
{
    if k < 0 || k >= var_count() {
        Seq::empty()
    } else {
        (match vars(var_name(k)) {
            Some(value) => seq![var_place(k, value)],
            None => Seq::empty(),
        }) + places_from(k + 1, vars)
    }
}

/// All places, in the order in which they are tried.
pub open spec fn places(
    explicit: Option<Seq<u8>>,
    vars: spec_fn(Seq<char>) -> Option<PathView>,
) -> Seq<ChromePathView> {
    (match explicit {
        Some(p) => seq![ChromePathView::Explicit(p)],
        None => Seq::empty(),
    }) + places_from(0, vars)
}

/// The first place that holds a file.
pub open spec fn first_file(
    places: Seq<ChromePathView>,
    is_file: spec_fn(ChromePathView) -> bool,
) -> Option<ChromePathView>
    decreases places.len(),
{
    if places.len() == 0 {
        None
    } else if is_file(places[0]) {
        Some(places[0])
    } else {
        first_file(places.skip(1), is_file)
    }
}

/// How much of a search lies ahead.
pub open spec fn search_left(search: SearchView) -> nat {
    match search {
        SearchView::Reading(k) => if k < var_count() {
            (2 * (var_count() - k)) as nat
        } else {
            0
        },
        SearchView::Probing { then, .. } => if then <= var_count() {
            (2 * (var_count() - then) + 1) as nat
        } else {
            0
        },
        SearchView::Finished => 0,
    }
}

/// What a search comes to on a machine with these variables and files.
pub open spec fn search_result(
    state: (SearchView, SearchActionView),
    vars: spec_fn(Seq<char>) -> Option<PathView>,
    is_file: spec_fn(ChromePathView) -> bool,
) -> Option<ChromePathView>
    decreases search_left(state.0),
{
    match state.1 {
        SearchActionView::Finish(found) => found,
        SearchActionView::ReadVar(name) => {
            let after = search_next(state.0, SearchEventView::VarRead(vars(name)));
            if search_left(after.0) < search_left(state.0) {
                search_result(after, vars, is_file)
            } else {
                None
            }
        },
        SearchActionView::Probe(place) => {
            let after = search_next(state.0, SearchEventView::Probed(is_file(place)));
            if search_left(after.0) < search_left(state.0) {
                search_result(after, vars, is_file)
            } else {
                None
            }
        },
        SearchActionView::Wait => None,
    }
}

/// The search finds the first place that holds a file: the path of the settings, then that of
/// the variable `CHROME`, then the places of installation. It finds nothing where no place
/// holds one.
pub proof fn law_first_existing_place_is_found(
    explicit: Option<Seq<u8>>,
    vars: spec_fn(Seq<char>) -> Option<PathView>,
    is_file: spec_fn(ChromePathView) -> bool,
)
    ensures
        search_result(search_start(explicit), vars, is_file) == first_file(
            places(explicit, vars),
            is_file,
        ),
{
    reveal_with_fuel(search_result, 3);
    lemma_search_from(0, vars, is_file);
    let rest = places_from(0, vars);
    match explicit {
        Some(p) => {
            let all = places(explicit, vars);
            assert(all.skip(1) =~= rest);
        },
        None => {
            assert(places(explicit, vars) =~= rest);
        },
    }
}

proof fn lemma_search_from(
    k: int,
    vars: spec_fn(Seq<char>) -> Option<PathView>,
    is_file: spec_fn(ChromePathView) -> bool,
)
    requires
        0 <= k <= var_count(),
    ensures
        search_result(read_from(k), vars, is_file) == first_file(places_from(k, vars), is_file),
    decreases var_count() - k,
{
    reveal_with_fuel(search_result, 3);
    if k < var_count() {
        lemma_search_from(k + 1, vars, is_file);
        let rest = places_from(k + 1, vars);
        match vars(var_name(k)) {
            Some(value) => {
                let all = places_from(k, vars);
                assert(all.skip(1) =~= rest);
            },
            None => {
                assert(places_from(k, vars) =~= rest);
            },
        }
    }
}

/// The arguments with which the browser is launched.
pub const LAUNCH_ARGS: [&'static str; 4] = [
    "--disable-blink-features=AutomationControlled",
    "--no-first-run",
    "--no-default-browser-check",
    "--lang=zh-CN",
];

/// How the browser is launched.
pub struct LaunchPlan {
    pub headless: bool,
    /// How long an idle browser is kept, in seconds.
    pub idle_timeout_secs: u64,
    pub width: u32,
    pub height: u32,
    pub args: Vec<&'static str>,
    /// The browser, where it was found; else the driver looks for one.
    pub chrome: Option<ChromePath>,
}

/// `plan` launches the browser that was found as `cfg` says.
pub open spec fn launches(cfg: Config, chrome: Option<ChromePath>, plan: LaunchPlan) -> bool {
    &&& plan.headless == cfg.headless
    &&& plan.idle_timeout_secs == 3600
    &&& plan.width == 1280
    &&& plan.height == 1000
    &&& plan.args@ == LAUNCH_ARGS@
    &&& plan.chrome == chrome
}

/// The browser is launched without a window exactly where the settings say so, at the program
/// that was found, in a window of a fixed size, with arguments that leave no sign of
/// automation, no first run and no question about the default browser, and in Chinese.
pub proof fn law_launch_follows_the_settings(
    cfg: Config,
    chrome: Option<ChromePath>,
    plan: LaunchPlan,
)
    requires
        launches(cfg, chrome, plan),
    ensures
        plan.headless <==> cfg.headless,
        plan.chrome == chrome,
        plan.idle_timeout_secs == 3600 && plan.width == 1280 && plan.height == 1000,
        plan.args@.len() == 4,
        plan.args@[0]@ == "--disable-blink-features=AutomationControlled"@,
        plan.args@[1]@ == "--no-first-run"@,
        plan.args@[2]@ == "--no-default-browser-check"@,
        plan.args@[3]@ == "--lang=zh-CN"@,
{
}

/// Plans the launch of the browser that was found.
pub fn launch_browser(cfg: &Config, chrome: Option<ChromePath>) -> (plan: LaunchPlan)
    ensures
        launches(*cfg, chrome, plan),
        plan.headless == cfg.headless,
        plan.idle_timeout_secs == 3600,
        plan.width == 1280,
        plan.height == 1000,
        plan.args@ == LAUNCH_ARGS@,
        plan.chrome == chrome,
{
    let mut args: Vec<&'static str> = Vec::new();
    let mut i: usize = 0;
    while i < 4
        invariant
            i <= 4,
            args@ == LAUNCH_ARGS@.take(i as int),
        decreases 4 - i,
    {
        args.push(LAUNCH_ARGS[i]);
        i = i + 1;
    }
    assert(LAUNCH_ARGS@.take(4) =~= LAUNCH_ARGS@);
    LaunchPlan {
        headless: cfg.headless,
        idle_timeout_secs: 3600,
        width: 1280,
        height: 1000,
        args,
        chrome,
    }
}

/// Why the browser could not be launched.
pub enum LaunchError {
    /// The options were refused.
    Options(String),
    /// The browser did not start.
    Start,
}

impl LaunchError {
    /// The message of the error.
    pub fn message(&self) -> (s: String)
        ensures
            s@ == (match self {
                LaunchError::Options(e) => "构造启动参数失败: "@ + e@,
                LaunchError::Start =>
                    "无法启动 Chrome：请确认已安装 Google Chrome，或在“高级设置”里指定 chrome.exe 路径"@,
            }),
    {
        match self {
            LaunchError::Options(e) => chain("构造启动参数失败: ", e.as_str()),
            LaunchError::Start =>
                "无法启动 Chrome：请确认已安装 Google Chrome，或在“高级设置”里指定 chrome.exe 路径".to_owned(),
        }
    }
}

} // verus!
