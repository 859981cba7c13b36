use google_img_translate::chrome::{
    find_chrome, launch_browser, start_search, ChromePath, LaunchError, Search, SearchAction,
    SearchEvent, CHROME_SUFFIX,
};
use google_img_translate::config::{Config, Progress};
use google_img_translate::console::{
    cli_config, closing_line, numbered_line, opening_line, print_progress, CliArgs,
};
use google_img_translate::font::{add_cjk, install_cjk_font, request_font, FontAction, FONT_FILES};
use google_img_translate::gui::{
    directory_label, read_chrome_setting, App, Environment, FrameStep, Row, Status, Tone,
};
use google_img_translate::path::{show_path, Name, OsPath, Separator};

fn name(gap: &str, text: &str) -> Name {
    Name { gap: gap.to_string(), bytes: text.as_bytes().to_vec(), text: text.to_string() }
}

fn path(names: &[&str]) -> OsPath {
    OsPath {
        prefix: None,
        root: Some("/".to_string()),
        names: names
            .iter()
            .enumerate()
            .map(|(i, n)| name(if i == 0 { "" } else { "/" }, n))
            .collect(),
        trail: String::new(),
    }
}

fn shown(p: &OsPath) -> String {
    show_path(p)
}

fn environment() -> Environment {
    Environment {
        input: None,
        input_is_dir: false,
        output: None,
        target: None,
        source: None,
        autostart: None,
    }
}

fn ready() -> App {
    let mut app = App::new(environment());
    app.input = Some(path(&["in"]));
    app.output = Some(path(&["out"]));
    app
}

fn file_ok(idx: usize, bytes: usize, skipped: bool) -> Progress {
    Progress::FileOk {
        idx,
        name: "a.jpg".to_string(),
        path: path(&["out", "a.jpg"]),
        bytes,
        skipped,
    }
}

#[test]
fn a_new_window_has_the_default_settings() {
    let app = App::new(environment());
    assert!(app.input.is_none() && app.output.is_none());
    assert_eq!((app.target_idx, app.source_idx, app.timeout_secs), (0, 0, 90));
    assert!(app.show_window && !app.overwrite && app.recursive && !app.show_advanced);
    assert!(!app.autostart && !app.running && !app.closing && !app.cancelled);
    assert_eq!(app.chrome_path, "");
    assert_eq!(app.bar_text(), "0/0");
    assert_eq!(app.bar_fill(), None);
    assert!(!app.can_start());
    assert_eq!(app.source_langs().len(), 17);
}

#[test]
fn the_environment_fills_in_the_window() {
    let mut env = environment();
    env.input = Some(path(&["in"]));
    env.input_is_dir = true;
    env.output = Some(path(&["out"]));
    env.target = Some("zh-TW".to_string());
    env.source = Some("auto".to_string());
    env.autostart = Some("1".to_string());
    let app = App::new(env);
    assert_eq!(shown(app.input.as_ref().unwrap()), "/in");
    assert_eq!((app.target_idx, app.source_idx), (4, 0));
    assert!(app.autostart && app.can_start());

    let mut env = environment();
    env.input = Some(path(&["missing"]));
    env.target = Some("nowhere".to_string());
    env.source = Some("en".to_string());
    env.autostart = Some("yes".to_string());
    let app = App::new(env);
    assert!(app.input.is_none() && !app.autostart);
    assert_eq!((app.target_idx, app.source_idx), (0, 1));
}

#[test]
fn a_batch_does_not_start_without_directories() {
    let mut app = App::new(environment());
    app.input = Some(path(&["in"]));
    assert!(app.start(&Ok(vec![])).is_none());
    assert_eq!(app.logs, vec!["请先选择输入目录和输出目录。"]);
    assert!(!app.running);
}

#[test]
fn a_started_batch_lists_its_images() {
    let mut app = ready();
    app.done = 5;
    app.logs.push("old".to_string());
    app.cancelled = true;
    app.timeout_secs = 3;
    app.chrome_path = "  /opt/chrome ".to_string();
    app.target_idx = 1;
    app.source_idx = 4;
    app.show_window = false;
    let images = Ok(vec![path(&["in", "a.jpg"]), path(&["in", "详情", "1.jpg"])]);
    let cfg = app.start(&images).unwrap();
    assert_eq!((shown(&cfg.input), shown(&cfg.output)), ("/in".to_string(), "/out".to_string()));
    assert_eq!((cfg.source.as_str(), cfg.target.as_str()), ("zh-CN", "ja"));
    assert_eq!(cfg.timeout_nanos, 10_000_000_000);
    assert_eq!(cfg.chrome, Some(b"/opt/chrome".to_vec()));
    assert!(cfg.headless && cfg.recursive && !cfg.overwrite);
    assert_eq!(cfg.concurrency, 1);
    let names: Vec<&str> = app.rows.iter().map(|r: &Row| r.name.as_str()).collect();
    assert_eq!(names, vec!["a.jpg", "详情/1.jpg"]);
    assert!(app.rows.iter().all(|r| matches!(r.status, Status::Waiting)));
    assert_eq!((app.total, app.done), (2, 0));
    assert!(app.running && !app.cancelled && app.logs.is_empty());
}

#[test]
fn a_batch_starts_with_an_empty_list_where_collecting_failed() {
    let mut app = ready();
    let cfg = app.start(&Err("io".to_string())).unwrap();
    assert!(app.rows.is_empty() && app.running);
    assert_eq!((cfg.chrome, cfg.timeout_nanos), (None, 90_000_000_000));
    assert_eq!(read_chrome_setting(""), None);
    assert_eq!(read_chrome_setting("图"), Some("图".as_bytes().to_vec()));
}

#[test]
fn reports_change_the_window() {
    let mut app = ready();
    let images = Ok(vec![
        path(&["in", "a.jpg"]),
        path(&["in", "b.jpg"]),
        path(&["in", "c.jpg"]),
    ]);
    app.start(&images);
    app.drain(
        &vec![
            Progress::Total(3),
            Progress::FileStart { idx: 0, total: 3, name: "a.jpg".to_string() },
        ],
    );
    assert!(matches!(app.rows[0].status, Status::Running));
    assert_eq!(app.current, "a.jpg");
    assert_eq!(app.bar_text(), "0/3  a.jpg");
    app.drain(
        &vec![
            file_ok(0, 5000, false),
            file_ok(1, 0, true),
            Progress::FileErr { idx: 2, name: "c.jpg".to_string(), error: "e".to_string() },
            Progress::FileErr { idx: 9, name: "z".to_string(), error: "f".to_string() },
            Progress::Log("remark".to_string()),
        ],
    );
    assert!(matches!(&app.rows[0].status, Status::Saved(s) if s == "4 KB"));
    assert!(matches!(app.rows[1].status, Status::Skipped));
    assert!(matches!(&app.rows[2].status, Status::Failed(e) if e == "e"));
    assert_eq!((app.done, app.ok, app.failed), (4, 2, 2));
    assert_eq!(app.bar_fill(), Some((4, 3)));
    app.drain(&vec![Progress::Done { ok: 2, failed: 2 }]);
    assert!(!app.running && app.current.is_empty());
    assert_eq!(app.bar_text(), "完成：成功 2，失败 2（共 3）");
    assert_eq!(
        app.logs,
        vec![
            "[1/3] 翻译: a.jpg",
            "  完成: /out/a.jpg (4 KB)",
            "  跳过（已存在）: a.jpg",
            "  失败: c.jpg — e",
            "  失败: z — f",
            "remark",
            "==== 完成：成功 2，失败 2 ====",
        ]
    );
    let (ok, failed, total) = app.count_labels();
    assert_eq!((ok.as_str(), failed.as_str(), total.as_str()), ("成功 2", "失败 2", "共 3"));
}

#[test]
fn a_fatal_report_ends_the_batch() {
    let mut app = ready();
    app.start(&Ok(vec![]));
    app.receive(&Progress::Fatal("boom".to_string()));
    assert!(!app.running);
    assert_eq!(app.bar_text(), "出错：boom");
    assert_eq!(app.logs, vec!["致命错误：boom"]);
}

#[test]
fn the_batch_starts_by_itself_once() {
    let mut app = ready();
    app.autostart = true;
    assert!(app.update(&vec![]));
    assert!(app.started_once);
    assert!(!app.update(&vec![]));
    let mut app = App::new(environment());
    app.autostart = true;
    assert!(!app.update(&vec![]) && !app.started_once);
}

#[test]
fn the_window_waits_for_the_batch_before_it_closes() {
    let mut app = ready();
    app.start(&Ok(vec![]));
    assert!(
        app.answer_close(false)
            == FrameStep { cancel_close: false, close: false, repaint_after_ms: Some(120) }
    );
    assert!(
        app.answer_close(true)
            == FrameStep { cancel_close: true, close: false, repaint_after_ms: Some(120) }
    );
    assert!(app.cancelled && app.closing);
    app.receive(&Progress::Done { ok: 0, failed: 0 });
    assert!(
        app.answer_close(false)
            == FrameStep { cancel_close: false, close: true, repaint_after_ms: None }
    );
    let mut idle = ready();
    assert!(
        idle.answer_close(true)
            == FrameStep { cancel_close: false, close: false, repaint_after_ms: None }
    );
}

#[test]
fn stopping_is_logged() {
    let mut app = ready();
    app.stop();
    assert!(!app.cancelled && app.logs.is_empty());
    app.start(&Ok(vec![]));
    app.stop();
    assert!(app.cancelled && app.running);
    assert_eq!(app.logs, vec!["正在停止…（当前图片完成后停止）"]);
}

#[test]
fn statuses_have_signs_and_notes() {
    assert!(Status::Waiting.icon() == ("•", Tone::Gray));
    assert!(Status::Running.icon() == ("⏳", Tone::Rgb(220, 160, 40)));
    assert!(Status::Skipped.icon() == ("↪", Tone::Gray));
    assert!(Status::Saved("1 KB".to_string()).icon() == ("✔", Tone::Rgb(40, 160, 70)));
    assert!(Status::Failed("e".to_string()).icon() == ("×", Tone::Rgb(200, 60, 60)));
    assert_eq!(Status::Waiting.note(), None);
    assert_eq!(Status::Running.note(), None);
    assert_eq!(Status::Skipped.note(), Some(("已存在".to_string(), false)));
    assert_eq!(Status::Saved("1 KB".to_string()).note(), Some(("1 KB".to_string(), false)));
    assert_eq!(Status::Failed("e".to_string()).note(), Some(("e".to_string(), true)));
    assert_eq!(directory_label(&None), "（未选择）");
    assert_eq!(directory_label(&Some(path(&["in"]))), "/in");
}

fn printed(p: Progress) -> (String, bool, bool) {
    let out = print_progress(p);
    (out.text, out.newline, out.to_stderr)
}

#[test]
fn reports_are_printed() {
    assert_eq!(printed(Progress::Total(3)), ("共 3 张图片".to_string(), true, false));
    assert_eq!(
        printed(Progress::FileStart { idx: 0, total: 3, name: "a.jpg".to_string() }),
        ("[1/3] 翻译: a.jpg ... ".to_string(), false, false)
    );
    assert_eq!(
        printed(file_ok(0, 2048, false)),
        ("完成 -> /out/a.jpg (2 KB)".to_string(), true, false)
    );
    assert_eq!(printed(file_ok(0, 0, true)), ("跳过（已存在）".to_string(), true, false));
    assert_eq!(
        printed(Progress::FileErr { idx: 0, name: "a".to_string(), error: "e".to_string() }),
        ("失败: e".to_string(), true, false)
    );
    assert_eq!(printed(Progress::Log("x".to_string())), ("x".to_string(), true, false));
    assert_eq!(
        printed(Progress::Done { ok: 1, failed: 2 }),
        ("==== 完成：成功 1，失败 2 ====".to_string(), true, false)
    );
    assert_eq!(
        printed(Progress::Fatal("x".to_string())),
        ("致命错误：x".to_string(), true, true)
    );
    assert_eq!(closing_line(0, 0), "==== 完成：成功 0，失败 0 ====");
    assert_eq!(numbered_line(9, 10, "n"), "[10/10] 翻译: n");
}

fn from_cli() -> Config {
    cli_config(CliArgs {
        input: path(&["in"]),
        output: path(&["out"]),
        target: "ja".to_string(),
        source: "zh-CN".to_string(),
        timeout: 90,
        headless: true,
        chrome: Some(b"c".to_vec()),
        overwrite: true,
        no_recursive: true,
    })
}

#[test]
fn the_command_line_gives_the_settings() {
    let cfg = from_cli();
    assert_eq!((cfg.source.as_str(), cfg.target.as_str()), ("zh-CN", "ja"));
    assert_eq!(cfg.timeout_nanos, 90_000_000_000);
    assert!(cfg.headless && cfg.overwrite && !cfg.recursive);
    assert_eq!((cfg.chrome.clone(), cfg.concurrency), (Some(b"c".to_vec()), 1));
    assert_eq!(opening_line(&cfg), "共开始：源语言=zh-CN，目标语言=ja，输出=/out");
}

/// The path with this one name, or with a root directory and this name.
fn given(text: &str) -> OsPath {
    match text.strip_prefix('/') {
        Some(rest) => path(&[rest]),
        None if text.is_empty() => OsPath { root: None, ..path(&[]) },
        None => OsPath { root: None, ..path(&[text]) },
    }
}

fn search(
    explicit: Option<Vec<u8>>,
    vars: &[(&str, &str)],
    files: &[&str],
) -> (Option<String>, Vec<String>) {
    let spelled =
        |p: &ChromePath| String::from_utf8(p.path(Separator::Backslash)).unwrap();
    let mut asked = Vec::new();
    let (mut state, mut action): (Search, SearchAction) = start_search(&explicit);
    loop {
        let event = match action {
            SearchAction::ReadVar(name) => {
                asked.push(name.to_string());
                SearchEvent::VarRead(
                    vars.iter().find(|(n, _)| *n == name).map(|(_, v)| given(v)),
                )
            }
            SearchAction::Probe(p) => SearchEvent::Probed(files.contains(&spelled(&p).as_str())),
            SearchAction::Finish(found) => return (found.as_ref().map(spelled), asked),
            SearchAction::Wait => panic!(),
        };
        let next = find_chrome(state, event);
        state = next.0;
        action = next.1;
    }
}

#[test]
fn an_installed_browser_lies_below_its_directory() {
    let below = |base: &str, separator: Separator| {
        let place = ChromePath::Installed(given(base));
        String::from_utf8(place.path(separator)).unwrap()
    };
    let windows = "P\\Google\\Chrome\\Application\\chrome.exe";
    assert_eq!(below("P", Separator::Backslash), windows);
    assert_eq!(below("", Separator::Backslash), CHROME_SUFFIX);
    assert_eq!(below("P", Separator::Slash), format!("P/{}", CHROME_SUFFIX));
    let mut closed = given("P");
    closed.trail = "\\".to_string();
    assert_eq!(ChromePath::Installed(closed).path(Separator::Backslash), windows.as_bytes());
    assert_eq!(ChromePath::Named(given("/d")).path(Separator::Slash), b"/d");
    assert_eq!(ChromePath::Explicit(b"c".to_vec()).path(Separator::Slash), b"c");
}

#[test]
fn an_explicit_browser_comes_first() {
    let (found, asked) = search(Some(b"/c".to_vec()), &[("CHROME", "/d")], &["/c", "/d"]);
    assert_eq!(found, Some("/c".to_string()));
    assert!(asked.is_empty());
    let (found, _) = search(Some(b"/c".to_vec()), &[("CHROME", "/d")], &["/d"]);
    assert_eq!(found, Some("/d".to_string()));
}

#[test]
fn installed_browsers_are_found_in_order() {
    let file = "P86\\Google\\Chrome\\Application\\chrome.exe";
    let vars =
        [("ProgramFiles", "P"), ("ProgramFiles(x86)", "P86"), ("LOCALAPPDATA", "L")];
    let (found, asked) =
        search(None, &vars, &[file, "L\\Google\\Chrome\\Application\\chrome.exe"]);
    assert_eq!(found, Some(file.to_string()));
    assert_eq!(asked, vec!["CHROME", "ProgramFiles", "ProgramFiles(x86)"]);
}

#[test]
fn a_missing_browser_is_not_found() {
    let (found, asked) = search(None, &[("ProgramFiles", "P")], &[]);
    assert_eq!(found, None);
    assert_eq!(
        asked,
        vec!["CHROME", "ProgramFiles", "ProgramFiles(x86)", "LOCALAPPDATA", "ProgramW6432"]
    );
}

#[test]
fn the_launch_follows_the_settings() {
    let plan = launch_browser(&from_cli(), Some(ChromePath::Named(path(&["c"]))));
    assert!(plan.headless);
    assert_eq!((plan.idle_timeout_secs, plan.width, plan.height), (3600, 1280, 1000));
    assert_eq!(
        plan.args,
        vec![
            "--disable-blink-features=AutomationControlled",
            "--no-first-run",
            "--no-default-browser-check",
            "--lang=zh-CN",
        ]
    );
    assert!(matches!(plan.chrome, Some(ChromePath::Named(p)) if shown(&p) == "/c"));
    assert_eq!(LaunchError::Options("x".to_string()).message(), "构造启动参数失败: x");
    assert!(LaunchError::Start.message().starts_with("无法启动 Chrome："));
}

#[test]
fn the_first_readable_font_is_used() {
    let mut tried = 0usize;
    assert!(matches!(request_font(tried), FontAction::Read(f) if f == FONT_FILES[0]));
    assert!(matches!(
        install_cjk_font(&mut tried, false),
        FontAction::Read(r"C:\Windows\Fonts\simhei.ttf")
    ));
    assert!(matches!(install_cjk_font(&mut tried, true), FontAction::Install));
    let mut tried = 4usize;
    assert!(matches!(install_cjk_font(&mut tried, false), FontAction::GiveUp));
    let mut proportional = vec!["a".to_string()];
    let mut monospace = vec!["b".to_string()];
    add_cjk(&mut proportional, &mut monospace);
    assert_eq!(proportional, vec!["cjk", "a"]);
    assert_eq!(monospace, vec!["b", "cjk"]);
}

#[test]
fn settings_cannot_be_edited_while_a_batch_runs() {
    let mut app = ready();
    assert!(app.can_edit() && app.can_start());
    let mut settings = app.settings();
    settings.overwrite = true;
    settings.timeout_secs = 30;
    settings.chrome_path = "/opt/chrome".to_string();
    settings.target_idx = 2;
    app.edit(settings);
    assert!(app.overwrite);
    assert_eq!((app.timeout_secs, app.target_idx), (30, 2));
    assert_eq!(app.chrome_path, "/opt/chrome");
    assert!(app.press_start(&Ok(vec![path(&["in", "a.jpg"])])).is_some());
    assert!(!app.can_edit() && !app.can_start());
    let mut settings = app.settings();
    settings.input = Some(path(&["elsewhere"]));
    settings.overwrite = false;
    settings.recursive = false;
    settings.source_idx = 3;
    app.edit(settings);
    assert!(app.overwrite && app.recursive);
    assert_eq!(app.source_idx, 0);
    assert_eq!(directory_label(&app.input), "/in");
    assert!(app.press_start(&Ok(vec![])).is_none());
    assert_eq!((app.rows.len(), app.logs.len()), (1, 0));
    app.stop();
    assert!(app.running && app.cancelled);
    assert_eq!(app.logs.len(), 1);
    app.receive(&Progress::Done { ok: 1, failed: 0 });
    assert!(app.can_edit() && app.can_start());
}

#[test]
fn nothing_starts_without_directories_whatever_the_languages() {
    let mut app = App::new(environment());
    app.target_idx = 1000;
    assert!(app.start(&Ok(vec![])).is_none());
    assert!(app.press_start(&Ok(vec![])).is_none());
    assert_eq!(app.logs, vec!["请先选择输入目录和输出目录。"]);
}

#[test]
fn reports_leave_other_rows_and_settings_alone() {
    let mut app = ready();
    app.start(&Ok(vec![path(&["in", "a.jpg"]), path(&["in", "b.jpg"])]));
    app.drain(&vec![file_ok(1, 2048, false), Progress::Log("x".to_string())]);
    assert!(matches!(app.rows[0].status, Status::Waiting));
    assert!(matches!(&app.rows[1].status, Status::Saved(s) if s == "2 KB"));
    let names: Vec<&str> = app.rows.iter().map(|r| r.name.as_str()).collect();
    assert_eq!(names, vec!["a.jpg", "b.jpg"]);
    assert_eq!((app.done, app.ok, app.failed), (1, 1, 0));
    assert!(app.running && !app.cancelled && !app.closing);
}
