//! The state of the window: what the user has set, and what the batch has reported.

use crate::batch::{failures, is_verdict, successes};
use crate::config::{Config, Progress, ProgressView};
use crate::console::{closing_line, closing_text, numbered_line, numbered_text, printable};
use crate::font::texts;
use crate::lang::{
    choose_lang, chosen_position, law_language_is_chosen_by_its_code,
    law_source_is_any_target_or_detected, source_lang_list, source_langs, target_langs,
    TARGET_LANGS,
};
use crate::path::{
    path_option_view, path_text, paths_view, rel_display, relative_or_whole, show_path,
    text_option_view, OsPath, PathView,
};
use crate::text::{chain, decimal, decimal_text, trim, trimmed};
use crate::worker::image_name;
use vstd::prelude::*;
use vstd::utf8::encode_utf8;

verus! {

/// How far an image is.
pub enum Status {
    /// Its turn has not come.
    Waiting,
    /// It is worked on.
    Running,
    /// Its result existed.
    Skipped,
    /// It is done; the text tells the size of the result.
    Saved(String),
    /// It failed; the text tells why.
    Failed(String),
}

/// The mathematical value of a [`Status`].
pub enum StatusView {
    Waiting,
    Running,
    Skipped,
    Saved(Seq<char>),
    Failed(Seq<char>),
}

impl View for Status {
    type V = StatusView;

    open spec fn view(&self) -> StatusView {
        match *self {
            Status::Waiting => StatusView::Waiting,
            Status::Running => StatusView::Running,
            Status::Skipped => StatusView::Skipped,
            Status::Saved(s) => StatusView::Saved(s@),
            Status::Failed(s) => StatusView::Failed(s@),
        }
    }
}

/// An image in the list of the window.
pub struct Row {
    pub name: String,
    pub status: Status,
}

/// The mathematical value of a [`Row`].
pub struct RowView {
    pub name: Seq<char>,
    pub status: StatusView,
}

impl View for Row {
    type V = RowView;

    open spec fn view(&self) -> RowView {
        RowView { name: self.name@, status: self.status@ }
    }
}

/// The values of a sequence of rows.
pub open spec fn rows_view(rows: Seq<Row>) -> Seq<RowView> {
    Seq::new(rows.len(), |i: int| rows[i]@)
}

/// The state of the window.
pub struct App {
    pub input: Option<OsPath>,
    pub output: Option<OsPath>,
    pub target_idx: usize,
    pub source_idx: usize,
    /// The browser shows its window.
    pub show_window: bool,
    pub overwrite: bool,
    pub recursive: bool,
    pub timeout_secs: u32,
    pub chrome_path: String,
    pub show_advanced: bool,
    /// The batch starts by itself.
    pub autostart: bool,
    /// It has done so.
    pub started_once: bool,
    pub running: bool,
    /// The window closes once the batch has stopped.
    pub closing: bool,
    /// The batch is told to stop.
    pub cancelled: bool,
    pub total: usize,
    pub done: usize,
    pub ok: usize,
    pub failed: usize,
    /// The image that was begun last.
    pub current: String,
    pub rows: Vec<Row>,
    pub logs: Vec<String>,
    pub finished_msg: Option<String>,
}

/// The mathematical value of an [`App`].
#[verifier::ext_equal]
pub struct AppView {
    pub input: Option<PathView>,
    pub output: Option<PathView>,
    pub target_idx: usize,
    pub source_idx: usize,
    pub show_window: bool,
    pub overwrite: bool,
    pub recursive: bool,
    pub timeout_secs: u32,
    pub chrome_path: Seq<char>,
    pub show_advanced: bool,
    pub autostart: bool,
    pub started_once: bool,
    pub running: bool,
    pub closing: bool,
    pub cancelled: bool,
    pub total: usize,
    pub done: usize,
    pub ok: usize,
    pub failed: usize,
    pub current: Seq<char>,
    pub rows: Seq<RowView>,
    pub logs: Seq<Seq<char>>,
    pub finished_msg: Option<Seq<char>>,
}

impl View for App {
    type V = AppView;

    open spec fn view(&self) -> AppView {
        AppView {
            input: path_option_view(self.input),
            output: path_option_view(self.output),
            target_idx: self.target_idx,
            source_idx: self.source_idx,
            show_window: self.show_window,
            overwrite: self.overwrite,
            recursive: self.recursive,
            timeout_secs: self.timeout_secs,
            chrome_path: self.chrome_path@,
            show_advanced: self.show_advanced,
            autostart: self.autostart,
            started_once: self.started_once,
            running: self.running,
            closing: self.closing,
            cancelled: self.cancelled,
            total: self.total,
            done: self.done,
            ok: self.ok,
            failed: self.failed,
            current: self.current@,
            rows: rows_view(self.rows@),
            logs: texts(self.logs@),
            finished_msg: text_option_view(self.finished_msg),
        }
    }
}

/// What the environment says when the window opens.
pub struct Environment {
    /// `GIMG_INPUT`.
    pub input: Option<OsPath>,
    /// `GIMG_INPUT` is a directory.
    pub input_is_dir: bool,
    /// `GIMG_OUTPUT`.
    pub output: Option<OsPath>,
    /// `GIMG_TARGET`.
    pub target: Option<String>,
    /// `GIMG_SOURCE`.
    pub source: Option<String>,
    /// `GIMG_AUTOSTART`.
    pub autostart: Option<String>,
}

/// The state of a window that has just opened.
pub open spec fn opened(env: Environment) -> AppView {
    AppView {
        input: if env.input_is_dir {
            path_option_view(env.input)
        } else {
            None
        },
        output: path_option_view(env.output),
        target_idx: chosen_position(TARGET_LANGS@, text_option_view(env.target)) as usize,
        source_idx: chosen_position(source_lang_list(), text_option_view(env.source)) as usize,
        show_window: true,
        overwrite: false,
        recursive: true,
        timeout_secs: 90,
        chrome_path: Seq::empty(),
        show_advanced: false,
        autostart: text_option_view(env.autostart) == Some("1"@),
        started_once: false,
        running: false,
        closing: false,
        cancelled: false,
        total: 0,
        done: 0,
        ok: 0,
        failed: 0,
        current: Seq::empty(),
        rows: Seq::empty(),
        logs: Seq::empty(),
        finished_msg: None,
    }
}

/// The chosen languages are among those on offer.
pub open spec fn languages_exist(a: AppView) -> bool {
    a.target_idx < TARGET_LANGS@.len() && a.source_idx < source_lang_list().len()
}

/// The rows with the status of one of them changed; a row that does not exist changes nothing.
pub open spec fn with_status(rows: Seq<RowView>, idx: usize, status: StatusView) -> Seq<RowView> {
    if idx < rows.len() {
        rows.update(idx as int, RowView { name: rows[idx as int].name, status })
    } else {
        rows
    }
}

/// The size of a result, in KB.
pub open spec fn size_text(bytes: usize) -> Seq<char> {
    decimal((bytes / 1024) as nat) + " KB"@
}

/// The line of the log for a result that was saved.
pub open spec fn saved_text(path: PathView, bytes: usize) -> Seq<char> {
    "  完成: "@ + path_text(path) + " ("@ + size_text(bytes) + ")"@
}

/// The size of a result, in KB.
fn write_size(bytes: usize) -> (s: String)
    ensures
        s@ == size_text(bytes),
{
    let mut s = decimal_text(bytes / 1024);
    s.append(" KB");
    s
}

/// The line of the log for a result that was saved.
fn saved_line(path: &OsPath, bytes: usize) -> (s: String)
    ensures
        s@ == saved_text(path@, bytes),
{
    let mut s = chain("  完成: ", show_path(path).as_str());
    s.append(" (");
    s.append(write_size(bytes).as_str());
    s.append(")");
    s
}

/// The state of the window after a report.
pub open spec fn received(a: AppView, p: ProgressView) -> AppView {
    match p {
        ProgressView::Total(t) => AppView { total: t, ..a },
        ProgressView::FileStart { idx, total, name } => AppView {
            total,
            current: name,
            rows: with_status(a.rows, idx, StatusView::Running),
            logs: a.logs.push(numbered_text(idx, total, name)),
            ..a
        },
        ProgressView::FileOk { idx, name, path, bytes, skipped } => AppView {
            done: (a.done + 1) as usize,
            ok: (a.ok + 1) as usize,
            rows: with_status(
                a.rows,
                idx,
                if skipped {
                    StatusView::Skipped
                } else {
                    StatusView::Saved(size_text(bytes))
                },
            ),
            logs: a.logs.push(
                if skipped {
                    "  跳过（已存在）: "@ + name
                } else {
                    saved_text(path, bytes)
                },
            ),
            ..a
        },
        ProgressView::FileErr { idx, name, error } => AppView {
            done: (a.done + 1) as usize,
            failed: (a.failed + 1) as usize,
            rows: with_status(a.rows, idx, StatusView::Failed(error)),
            logs: a.logs.push("  失败: "@ + name + " — "@ + error),
            ..a
        },
        ProgressView::Log(s) => AppView { logs: a.logs.push(s), ..a },
        ProgressView::Done { ok, failed } => AppView {
            running: false,
            current: Seq::empty(),
            finished_msg: Some(
                "完成：成功 "@ + decimal(ok as nat) + "，失败 "@ + decimal(failed as nat)
                    + "（共 "@ + decimal(a.total as nat) + "）"@,
            ),
            logs: a.logs.push(closing_text(ok, failed)),
            ..a
        },
        ProgressView::Fatal(e) => AppView {
            running: false,
            current: Seq::empty(),
            finished_msg: Some("出错："@ + e),
            logs: a.logs.push("致命错误："@ + e),
            ..a
        },
    }
}

/// The state of the window after a sequence of reports.
pub open spec fn received_all(a: AppView, reports: Seq<ProgressView>) -> AppView
    decreases reports.len(),
{
    if reports.len() == 0 {
        a
    } else {
        received(received_all(a, reports.drop_last()), reports.last())
    }
}

/// The counts of the window can take `n` more.
pub open spec fn counts_have_room(a: AppView, n: nat) -> bool {
    a.done + n <= usize::MAX && a.ok + n <= usize::MAX && a.failed + n <= usize::MAX
}

proof fn lemma_texts_push(v: Seq<String>, s: String)
    ensures
        texts(v.push(s)) == texts(v).push(s@),
{
    assert(texts(v.push(s)) =~= texts(v).push(s@));
}

impl App {
    /// The state of a window that has just opened. The environment may fill in the directories
    /// and the languages, and ask for the batch to start by itself.
    pub fn new(env: Environment) -> (app: App)
        ensures
            app@ == opened(env),
            languages_exist(app@),
    {
        let target_idx: usize = choose_lang(&target_langs(), &env.target);
        let source_idx: usize = choose_lang(&source_langs(), &env.source);
        let autostart = match &env.autostart {
            Some(v) => crate::text::same_text(v.as_str(), "1"),
            None => false,
        };
        let app = App {
            input: if env.input_is_dir {
                env.input
            } else {
                None
            },
            output: env.output,
            target_idx,
            source_idx,
            show_window: true,
            overwrite: false,
            recursive: true,
            timeout_secs: 90,
            chrome_path: String::new(),
            show_advanced: false,
            autostart,
            started_once: false,
            running: false,
            closing: false,
            cancelled: false,
            total: 0,
            done: 0,
            ok: 0,
            failed: 0,
            current: String::new(),
            rows: Vec::new(),
            logs: Vec::new(),
            finished_msg: None,
        };
        assert(app@.rows =~= Seq::<RowView>::empty());
        assert(app@.logs =~= Seq::<Seq<char>>::empty());
        app
    }

    /// The source languages as a list.
    pub fn source_langs(&self) -> (v: Vec<(&'static str, &'static str)>)
        ensures
            v@ == source_lang_list(),
    {
        source_langs()
    }

    /// Adds a line to the log.
    fn log(&mut self, line: String)
        ensures
            final(self)@ == (AppView { logs: old(self)@.logs.push(line@), ..old(self)@ }),
    {
        proof {
            lemma_texts_push(self.logs@, line);
        }
        self.logs.push(line);
    }

    /// Changes the status of a row, where there is such a row.
    fn set_status(&mut self, idx: usize, status: Status)
        ensures
            final(self)@ == (AppView {
                rows: with_status(old(self)@.rows, idx, status@),
                ..old(self)@
            }),
    {
        if idx < self.rows.len() {
            let name = self.rows[idx].name.clone();
            self.rows.set(idx, Row { name, status });
        }
        assert(self@.rows =~= with_status(old(self)@.rows, idx, status@));
    }

    /// Takes in that work on an image begins.
    fn receive_start(&mut self, idx: usize, total: usize, name: &String)
        requires
            idx < usize::MAX,
        ensures
            final(self)@ == received(
                old(self)@,
                ProgressView::FileStart { idx, total, name: name@ },
            ),
    {
        self.total = total;
        self.current = name.clone();
        self.set_status(idx, Status::Running);
        self.log(numbered_line(idx, total, name.as_str()));
    }

    /// Takes in that an image is done.
    fn receive_ok(
        &mut self,
        idx: usize,
        name: &String,
        path: &OsPath,
        bytes: usize,
        skipped: bool,
    )
        requires
            counts_have_room(old(self)@, 1),
        ensures
            final(self)@ == received(
                old(self)@,
                ProgressView::FileOk { idx, name: name@, path: path@, bytes, skipped },
            ),
    {
        self.done = self.done + 1;
        self.ok = self.ok + 1;
        if skipped {
            self.set_status(idx, Status::Skipped);
            self.log(chain("  跳过（已存在）: ", name.as_str()));
        } else {
            self.set_status(idx, Status::Saved(write_size(bytes)));
            self.log(saved_line(path, bytes));
        }
    }

    /// Takes in that an image failed.
    fn receive_err(&mut self, idx: usize, name: &String, error: &String)
        requires
            counts_have_room(old(self)@, 1),
        ensures
            final(self)@ == received(
                old(self)@,
                ProgressView::FileErr { idx, name: name@, error: error@ },
            ),
    {
        self.done = self.done + 1;
        self.failed = self.failed + 1;
        self.set_status(idx, Status::Failed(error.clone()));
        let mut line = chain("  失败: ", name.as_str());
        line.append(" — ");
        line.append(error.as_str());
        self.log(line);
    }

    /// Takes in that the batch is over.
    fn receive_done(&mut self, ok: usize, failed: usize)
        ensures
            final(self)@ == received(old(self)@, ProgressView::Done { ok, failed }),
    {
        self.running = false;
        self.current = String::new();
        let mut message = chain("完成：成功 ", decimal_text(ok).as_str());
        message.append("，失败 ");
        message.append(decimal_text(failed).as_str());
        message.append("（共 ");
        message.append(decimal_text(self.total).as_str());
        message.append("）");
        self.finished_msg = Some(message);
        self.log(closing_line(ok, failed));
    }

    /// Takes in that the batch could not be carried out.
    fn receive_fatal(&mut self, e: &String)
        ensures
            final(self)@ == received(old(self)@, ProgressView::Fatal(e@)),
    {
        self.running = false;
        self.current = String::new();
        self.finished_msg = Some(chain("出错：", e.as_str()));
        self.log(chain("致命错误：", e.as_str()));
    }

    /// Takes a report in.
    pub fn receive(&mut self, p: &Progress)
        requires
            counts_have_room(old(self)@, 1),
            printable(p@),
        ensures
            final(self)@ == received(old(self)@, p@),
    {
        match p {
            Progress::Total(t) => {
                self.total = *t;
            },
            Progress::FileStart { idx, total, name } => {
                self.receive_start(*idx, *total, name);
            },
            Progress::FileOk { idx, name, path, bytes, skipped } => {
                self.receive_ok(*idx, name, path, *bytes, *skipped);
            },
            Progress::FileErr { idx, name, error } => {
                self.receive_err(*idx, name, error);
            },
            Progress::Log(s) => {
                self.log(s.clone());
            },
            Progress::Done { ok, failed } => {
                self.receive_done(*ok, *failed);
            },
            Progress::Fatal(e) => {
                self.receive_fatal(e);
            },
        }
    }

    /// Takes all reports in that have come since the last time.
    pub fn drain(&mut self, reports: &Vec<Progress>)
        requires
            counts_have_room(old(self)@, reports@.len()),
            forall|i: int| 0 <= i < reports@.len() ==> printable((#[trigger] reports@[i])@),
        ensures
            final(self)@ == received_all(old(self)@, crate::config::reports_view(reports@)),
    {
        let ghost start = self@;
        let ghost all = crate::config::reports_view(reports@);
        let n: usize = reports.len();
        let mut i: usize = 0;
        while i < n
            invariant
                i <= n,
                n == reports@.len(),
                all == crate::config::reports_view(reports@),
                counts_have_room(start, n as nat),
                forall|i: int| 0 <= i < reports@.len() ==> printable((#[trigger] reports@[i])@),
                self@ == received_all(start, all.take(i as int)),
                self@.done <= start.done + i,
                self@.ok <= start.ok + i,
                self@.failed <= start.failed + i,
            decreases n - i,
        {
            self.receive(&reports[i]);
            assert(all.take(i + 1).drop_last() =~= all.take(i as int));
            assert(all.take(i + 1).last() == reports@[i as int]@);
            i = i + 1;
        }
        assert(all.take(n as int) =~= all);
    }
}

/// The list of images when a batch starts.
pub open spec fn waiting_rows(input: PathView, images: Seq<PathView>) -> Seq<RowView> {
    Seq::new(
        images.len(),
        |i: int|
            RowView {
                name: path_text(relative_or_whole(input, images[i])),
                status: StatusView::Waiting,
            },
    )
}

/// The state of the window when a batch starts.
pub open spec fn started(a: AppView, rows: Seq<RowView>) -> AppView {
    AppView {
        rows,
        total: rows.len() as usize,
        done: 0,
        ok: 0,
        failed: 0,
        current: Seq::empty(),
        logs: Seq::empty(),
        finished_msg: None,
        cancelled: false,
        running: true,
        ..a
    }
}

/// The state of the window when a batch cannot start for want of a directory.
pub open spec fn not_started(a: AppView) -> AppView {
    AppView { logs: a.logs.push("请先选择输入目录和输出目录。"@), ..a }
}

/// The browser path of the settings: blanks around it do not count, and nothing means none.
pub open spec fn chrome_setting(text: Seq<char>) -> Option<Seq<u8>> {
    if text.len() == 0 {
        None
    } else {
        Some(encode_utf8(text))
    }
}

/// The browser path, from the text of the settings without the blanks around it.
pub fn read_chrome_setting(text: &str) -> (r: Option<Vec<u8>>)
    ensures
        crate::config::bytes_option_view(r) == chrome_setting(text@),
{
    if text.is_empty() {
        None
    } else {
        Some(text.as_bytes_vec())
    }
}

/// The seconds that a result is waited for: at least 10.
pub open spec fn timeout_seconds(secs: u32) -> nat {
    if secs < 10 {
        10
    } else {
        secs as nat
    }
}

/// `cfg` is what the window asks for: one image after the other, with the chosen languages.
pub open spec fn asks_for(a: AppView, cfg: Config) -> bool {
    &&& a.input == Some(cfg.input@)
    &&& a.output == Some(cfg.output@)
    &&& cfg.source@ == source_lang_list()[a.source_idx as int].0@
    &&& cfg.target@ == TARGET_LANGS@[a.target_idx as int].0@
    &&& cfg.timeout_nanos == timeout_seconds(a.timeout_secs) * 1_000_000_000
    &&& cfg.headless == !a.show_window
    &&& cfg.overwrite == a.overwrite
    &&& cfg.recursive == a.recursive
    &&& crate::config::bytes_option_view(cfg.chrome) == chrome_setting(trimmed(a.chrome_path))
    &&& cfg.concurrency == 1
}

/// The images that were collected: none where that failed.
pub open spec fn collected(images: Result<Vec<OsPath>, String>) -> Seq<PathView> {
    match images {
        Ok(v) => paths_view(v@),
        Err(_) => Seq::empty(),
    }
}

/// The list of images when a batch starts.
fn list_waiting(input: &OsPath, images: &Vec<OsPath>) -> (rows: Vec<Row>)
    ensures
        rows_view(rows@) == waiting_rows(input@, paths_view(images@)),
{
    let mut rows: Vec<Row> = Vec::new();
    let n: usize = images.len();
    let ghost all = waiting_rows(input@, paths_view(images@));
    let mut i: usize = 0;
    while i < n
        invariant
            i <= n,
            n == images@.len(),
            rows@.len() == i,
            all == waiting_rows(input@, paths_view(images@)),
            forall|j: int| 0 <= j < i ==> (#[trigger] rows@[j])@ == all[j],
        decreases n - i,
    {
        rows.push(Row { name: rel_display(input, &images[i]), status: Status::Waiting });
        assert(rows@[i as int]@ == all[i as int]);
        i = i + 1;
    }
    assert(rows_view(rows@) =~= all);
    rows
}

/// The milliseconds between two frames while a batch runs.
pub const REPAINT_MS: u64 = 120;

/// What the window asks of its surroundings after a frame.
#[derive(Clone, Copy, PartialEq, Eq, Structural)]
pub struct FrameStep {
    /// The request to close the window is turned down.
    pub cancel_close: bool,
    /// The window closes.
    pub close: bool,
    /// The window is drawn again after so many milliseconds.
    pub repaint_after_ms: Option<u64>,
}

/// A batch starts by itself: once, when both directories are set and none runs.
pub open spec fn autostart_due(a: AppView) -> bool {
    a.autostart && !a.started_once && !a.running && a.input is Some && a.output is Some
}

/// The state of the window after a request to close it: while a batch runs, the batch is told
/// to stop and the window closes afterwards.
pub open spec fn close_asked(a: AppView, close_requested: bool) -> AppView {
    if close_requested && a.running {
        AppView { cancelled: true, closing: true, ..a }
    } else {
        a
    }
}

/// What follows a frame.
pub open spec fn frame_step(a: AppView, close_requested: bool) -> FrameStep {
    FrameStep {
        cancel_close: close_requested && a.running,
        close: a.closing && !a.running,
        repaint_after_ms: if a.running {
            Some(REPAINT_MS)
        } else {
            None
        },
    }
}

/// What the user sets in the window.
pub struct Settings {
    pub input: Option<OsPath>,
    pub output: Option<OsPath>,
    pub target_idx: usize,
    pub source_idx: usize,
    pub show_window: bool,
    pub overwrite: bool,
    pub recursive: bool,
    pub timeout_secs: u32,
    pub chrome_path: String,
}

/// The mathematical value of [`Settings`].
#[verifier::ext_equal]
pub struct SettingsView {
    pub input: Option<PathView>,
    pub output: Option<PathView>,
    pub target_idx: usize,
    pub source_idx: usize,
    pub show_window: bool,
    pub overwrite: bool,
    pub recursive: bool,
    pub timeout_secs: u32,
    pub chrome_path: Seq<char>,
}

impl View for Settings {
    type V = SettingsView;

    open spec fn view(&self) -> SettingsView {
        SettingsView {
            input: path_option_view(self.input),
            output: path_option_view(self.output),
            target_idx: self.target_idx,
            source_idx: self.source_idx,
            show_window: self.show_window,
            overwrite: self.overwrite,
            recursive: self.recursive,
            timeout_secs: self.timeout_secs,
            chrome_path: self.chrome_path@,
        }
    }
}

/// The settings of the window.
pub open spec fn settings_of(a: AppView) -> SettingsView {
    SettingsView {
        input: a.input,
        output: a.output,
        target_idx: a.target_idx,
        source_idx: a.source_idx,
        show_window: a.show_window,
        overwrite: a.overwrite,
        recursive: a.recursive,
        timeout_secs: a.timeout_secs,
        chrome_path: a.chrome_path,
    }
}

/// The state of the window after the user changed the settings, which is not possible while a
/// batch runs.
pub open spec fn edited(a: AppView, s: SettingsView) -> AppView {
    if a.running {
        a
    } else {
        AppView {
            input: s.input,
            output: s.output,
            target_idx: s.target_idx,
            source_idx: s.source_idx,
            show_window: s.show_window,
            overwrite: s.overwrite,
            recursive: s.recursive,
            timeout_secs: s.timeout_secs,
            chrome_path: s.chrome_path,
            ..a
        }
    }
}

/// The user may start a batch: none runs, and both directories are set.
pub open spec fn may_start(a: AppView) -> bool {
    !a.running && a.input is Some && a.output is Some
}

/// The state of the window after the user asked for a batch with these images.
pub open spec fn start_pressed(a: AppView, images: Seq<PathView>) -> AppView {
    if may_start(a) {
        started(a, waiting_rows(a.input->0, images))
    } else {
        a
    }
}

/// The state of the window after the user asked for the batch to stop.
pub open spec fn stop_pressed(a: AppView) -> AppView {
    if a.running {
        AppView {
            cancelled: true,
            logs: a.logs.push("正在停止…（当前图片完成后停止）"@),
            ..a
        }
    } else {
        a
    }
}

impl App {
    /// The settings of the batch that the window asks for.
    fn ask(&self, input: &OsPath, output: &OsPath) -> (cfg: Config)
        requires
            languages_exist(self@),
            self@.input == Some(input@),
            self@.output == Some(output@),
        ensures
            asks_for(self@, cfg),
    {
        let sources = source_langs();
        let targets = target_langs();
        let secs: u32 = if self.timeout_secs < 10 {
            10
        } else {
            self.timeout_secs
        };
        let chrome = trim(self.chrome_path.as_str());
        Config {
            input: input.clone(),
            output: output.clone(),
            source: sources[self.source_idx].0.to_owned(),
            target: targets[self.target_idx].0.to_owned(),
            timeout_nanos: secs as u128 * 1_000_000_000,
            headless: !self.show_window,
            overwrite: self.overwrite,
            chrome: read_chrome_setting(chrome.as_str()),
            recursive: self.recursive,
            concurrency: 1,
        }
    }

    /// Starts a batch with the images that were collected in the input directory, and gives its
    /// settings. Without both directories nothing starts, which the log tells.
    pub fn start(&mut self, images: &Result<Vec<OsPath>, String>) -> (r: Option<Config>)
        requires
            old(self)@.input is Some && old(self)@.output is Some ==> languages_exist(old(self)@),
        ensures
            r is Some <==> old(self)@.input is Some && old(self)@.output is Some,
            r is None ==> final(self)@ == not_started(old(self)@),
            r matches Some(cfg) ==> asks_for(old(self)@, cfg) && final(self)@ == started(
                old(self)@,
                waiting_rows(old(self)@.input->0, collected(*images)),
            ),
    {
        let cfg = match (&self.input, &self.output) {
            (Some(input), Some(output)) => self.ask(input, output),
            _ => {
                self.log("请先选择输入目录和输出目录。".to_owned());
                return None;
            },
        };
        let rows = match images {
            Ok(v) => list_waiting(&cfg.input, v),
            Err(_) => {
                let none: Vec<Row> = Vec::new();
                assert(rows_view(none@) =~= waiting_rows(cfg.input@, collected(*images)));
                none
            },
        };
        self.total = rows.len();
        self.rows = rows;
        self.done = 0;
        self.ok = 0;
        self.failed = 0;
        self.current = String::new();
        self.logs = Vec::new();
        self.finished_msg = None;
        self.cancelled = false;
        self.running = true;
        assert(self@.logs =~= Seq::<Seq<char>>::empty());
        Some(cfg)
    }

    /// Begins a frame: takes the new reports in, and tells whether a batch is to start by
    /// itself now.
    pub fn update(&mut self, reports: &Vec<Progress>) -> (start: bool)
        requires
            counts_have_room(old(self)@, reports@.len()),
            forall|i: int| 0 <= i < reports@.len() ==> printable((#[trigger] reports@[i])@),
        ensures
            ({
                let drained = received_all(old(self)@, crate::config::reports_view(reports@));
                &&& start == autostart_due(drained)
                &&& final(self)@ == (AppView {
                    started_once: drained.started_once || start,
                    ..drained
                })
            }),
    {
        self.drain(reports);
        if self.autostart && !self.started_once && !self.running && self.input.is_some()
            && self.output.is_some() {
            self.started_once = true;
            true
        } else {
            false
        }
    }

    /// Goes on with a frame after a batch may have started: answers a request to close the
    /// window, and tells what follows.
    pub fn answer_close(&mut self, close_requested: bool) -> (step: FrameStep)
        ensures
            final(self)@ == close_asked(old(self)@, close_requested),
            step == frame_step(final(self)@, close_requested),
    {
        let turned_down = close_requested && self.running;
        if turned_down {
            self.cancelled = true;
            self.closing = true;
        }
        FrameStep {
            cancel_close: turned_down,
            close: self.closing && !self.running,
            repaint_after_ms: if self.running {
                Some(REPAINT_MS)
            } else {
                None
            },
        }
    }

    /// Tells whether the user may start a batch.
    pub fn can_start(&self) -> (b: bool)
        ensures
            b == may_start(self@),
    {
        !self.running && self.input.is_some() && self.output.is_some()
    }

    /// Starts a batch, as the user asks, where the user may start one.
    pub fn press_start(&mut self, images: &Result<Vec<OsPath>, String>) -> (r: Option<Config>)
        requires
            may_start(old(self)@) ==> languages_exist(old(self)@),
        ensures
            r is Some <==> may_start(old(self)@),
            r matches Some(cfg) ==> asks_for(old(self)@, cfg),
            final(self)@ == start_pressed(old(self)@, collected(*images)),
    {
        if self.can_start() {
            self.start(images)
        } else {
            None
        }
    }

    /// Stops the batch that runs, as the user asks: the image at hand is finished first.
    pub fn stop(&mut self)
        ensures
            final(self)@ == stop_pressed(old(self)@),
    {
        if self.running {
            self.cancelled = true;
            self.log("正在停止…（当前图片完成后停止）".to_owned());
        }
    }

    /// Tells whether the user may change the settings.
    pub fn can_edit(&self) -> (b: bool)
        ensures
            b == !self@.running,
    {
        !self.running
    }

    /// The settings as they are.
    pub fn settings(&self) -> (s: Settings)
        ensures
            s@ == settings_of(self@),
    {
        Settings {
            input: match &self.input {
                Some(p) => Some(p.clone()),
                None => None,
            },
            output: match &self.output {
                Some(p) => Some(p.clone()),
                None => None,
            },
            target_idx: self.target_idx,
            source_idx: self.source_idx,
            show_window: self.show_window,
            overwrite: self.overwrite,
            recursive: self.recursive,
            timeout_secs: self.timeout_secs,
            chrome_path: self.chrome_path.clone(),
        }
    }

    /// Changes the settings as the user asks, where the user may change them.
    pub fn edit(&mut self, settings: Settings)
        ensures
            final(self)@ == edited(old(self)@, settings@),
    {
        if self.can_edit() {
            self.input = settings.input;
            self.output = settings.output;
            self.target_idx = settings.target_idx;
            self.source_idx = settings.source_idx;
            self.show_window = settings.show_window;
            self.overwrite = settings.overwrite;
            self.recursive = settings.recursive;
            self.timeout_secs = settings.timeout_secs;
            self.chrome_path = settings.chrome_path;
        }
    }

    /// The text on the progress bar.
    pub fn bar_text(&self) -> (s: String)
        ensures
            s@ == bar(self@),
    {
        if !self.running {
            if let Some(m) = &self.finished_msg {
                return m.clone();
            }
        }
        let mut s = chain(decimal_text(self.done).as_str(), "/");
        s.append(decimal_text(self.total).as_str());
        if self.running {
            s.append("  ");
            s.append(self.current.as_str());
        }
        s
    }

    /// The filled part of the progress bar: so many of so many, or nothing without images.
    pub fn bar_fill(&self) -> (r: Option<(usize, usize)>)
        ensures
            r == (if self@.total > 0 {
                Some((self@.done, self@.total))
            } else {
                None
            }),
    {
        if self.total > 0 {
            Some((self.done, self.total))
        } else {
            None
        }
    }

    /// The counts below the progress bar: done, failed, all.
    pub fn count_labels(&self) -> (r: (String, String, String))
        ensures
            r.0@ == "成功 "@ + decimal(self@.ok as nat),
            r.1@ == "失败 "@ + decimal(self@.failed as nat),
            r.2@ == "共 "@ + decimal(self@.total as nat),
    {
        (
            chain("成功 ", decimal_text(self.ok).as_str()),
            chain("失败 ", decimal_text(self.failed).as_str()),
            chain("共 ", decimal_text(self.total).as_str()),
        )
    }
}

/// The text on the progress bar: the state of the batch while it runs, its outcome afterwards.
pub open spec fn bar(a: AppView) -> Seq<char> {
    let counts = decimal(a.done as nat) + "/"@ + decimal(a.total as nat);
    if a.running {
        counts + "  "@ + a.current
    } else {
        match a.finished_msg {
            Some(m) => m,
            None => counts,
        }
    }
}

/// The text for a directory that may not be chosen yet.
pub fn directory_label(dir: &Option<OsPath>) -> (s: String)
    ensures
        s@ == (match dir {
            Some(p) => path_text(p@),
            None => "（未选择）"@,
        }),
{
    match dir {
        Some(p) => show_path(p),
        None => "（未选择）".to_owned(),
    }
}

/// A colour of the window.
#[derive(Clone, Copy, PartialEq, Eq, Structural)]
pub enum Tone {
    /// The grey of unimportant things.
    Gray,
    /// Red, green and blue.
    Rgb(u8, u8, u8),
}

/// The sign for a status, and its colour.
pub open spec fn sign(status: StatusView) -> (Seq<char>, Tone) {
    match status {
        StatusView::Waiting => ("•"@, Tone::Gray),
        StatusView::Running => ("⏳"@, Tone::Rgb(220, 160, 40)),
        StatusView::Skipped => ("↪"@, Tone::Gray),
        StatusView::Saved(_) => ("✔"@, Tone::Rgb(40, 160, 70)),
        StatusView::Failed(_) => ("×"@, Tone::Rgb(200, 60, 60)),
    }
}

/// The remark on a status, and whether it tells of a failure.
pub open spec fn remark(status: StatusView) -> Option<(Seq<char>, bool)> {
    match status {
        StatusView::Waiting => None,
        StatusView::Running => None,
        StatusView::Skipped => Some(("已存在"@, false)),
        StatusView::Saved(info) => Some((info, false)),
        StatusView::Failed(e) => Some((e, true)),
    }
}

impl Status {
    /// The sign for the status, and its colour.
    pub fn icon(&self) -> (r: (&'static str, Tone))
        ensures
            (r.0@, r.1) == sign(self@),
    {
        match self {
            Status::Waiting => ("•", Tone::Gray),
            Status::Running => ("⏳", Tone::Rgb(220, 160, 40)),
            Status::Skipped => ("↪", Tone::Gray),
            Status::Saved(_) => ("✔", Tone::Rgb(40, 160, 70)),
            Status::Failed(_) => ("×", Tone::Rgb(200, 60, 60)),
        }
    }

    /// The remark on the status, and whether it tells of a failure.
    pub fn note(&self) -> (r: Option<(String, bool)>)
        ensures
            remark(self@) == (match r {
                Some(n) => Some((n.0@, n.1)),
                None => None,
            }),
    {
        match self {
            Status::Waiting => None,
            Status::Running => None,
            Status::Skipped => Some(("已存在".to_owned(), false)),
            Status::Saved(info) => Some((info.clone(), false)),
            Status::Failed(e) => Some((e.clone(), true)),
        }
    }
}

/// The list of the window names its images as the workers do: the row at a position has the
/// name that the reports on the image at that position carry.
pub proof fn law_rows_are_named_like_reports(
    a: AppView,
    cfg: Config,
    images: Seq<PathView>,
    i: int,
)
    requires
        asks_for(a, cfg),
        0 <= i < images.len(),
    ensures
        started(a, waiting_rows(a.input->0, images)).rows.len() == images.len(),
        started(a, waiting_rows(a.input->0, images)).rows[i].name == image_name(cfg, images[i]),
        started(a, waiting_rows(a.input->0, images)).rows[i].status == StatusView::Waiting,
{
}

/// The counts of the window follow the reports: each image reported as done or failed counts
/// once, and the images done are those that succeeded and those that failed.
pub proof fn law_counts_follow_reports(a: AppView, reports: Seq<ProgressView>)
    requires
        counts_have_room(a, reports.len()),
        a.done == a.ok + a.failed,
    ensures
        received_all(a, reports).ok == a.ok + successes(reports),
        received_all(a, reports).failed == a.failed + failures(reports),
        received_all(a, reports).done == received_all(a, reports).ok + received_all(
            a,
            reports,
        ).failed,
        received_all(a, reports).ok <= a.ok + reports.len(),
        received_all(a, reports).failed <= a.failed + reports.len(),
        received_all(a, reports).done <= a.done + reports.len(),
    decreases reports.len(),
{
    reveal(Seq::filter);
    if reports.len() > 0 {
        law_counts_follow_reports(a, reports.drop_last());
    }
}

/// The report is about the image at position `i`.
pub open spec fn is_about(p: ProgressView, i: int) -> bool {
    match p {
        ProgressView::FileStart { idx, .. } => idx == i,
        ProgressView::FileOk { idx, .. } => idx == i,
        ProgressView::FileErr { idx, .. } => idx == i,
        _ => false,
    }
}

/// Reports add no row to the list, take none away and change no name in it; a row that none of
/// them is about stays as it is.
pub proof fn law_reports_touch_their_own_row(a: AppView, reports: Seq<ProgressView>, i: int)
    requires
        0 <= i < a.rows.len(),
    ensures
        received_all(a, reports).rows.len() == a.rows.len(),
        received_all(a, reports).rows[i].name == a.rows[i].name,
        received_all(a, reports).rows[i] == a.rows[i] || exists|k: int|
            0 <= k < reports.len() && is_about(#[trigger] reports[k], i),
    decreases reports.len(),
{
    if reports.len() > 0 {
        let before = reports.drop_last();
        law_reports_touch_their_own_row(a, before, i);
        if received_all(a, before).rows[i] != a.rows[i] {
            let k = choose|k: int| 0 <= k < before.len() && is_about(#[trigger] before[k], i);
            assert(is_about(reports[k], i));
        } else if received_all(a, reports).rows[i] != a.rows[i] {
            assert(is_about(reports[reports.len() - 1], i));
        }
    }
}

/// One of the reports ends the batch.
pub open spec fn has_verdict(reports: Seq<ProgressView>) -> bool {
    exists|k: int| 0 <= k < reports.len() && is_verdict(#[trigger] reports[k])
}

proof fn lemma_has_verdict(reports: Seq<ProgressView>)
    requires
        reports.len() > 0,
    ensures
        has_verdict(reports) <==> has_verdict(reports.drop_last()) || is_verdict(reports.last()),
{
    let before = reports.drop_last();
    if has_verdict(reports) {
        let k = choose|k: int| 0 <= k < reports.len() && is_verdict(#[trigger] reports[k]);
        if k < before.len() {
            assert(is_verdict(before[k]));
        }
    }
    if has_verdict(before) {
        let k = choose|k: int| 0 <= k < before.len() && is_verdict(#[trigger] before[k]);
        assert(is_verdict(reports[k]));
    }
    if is_verdict(reports.last()) {
        assert(is_verdict(reports[reports.len() - 1]));
    }
}

/// A batch runs until it is reported as over: no report starts one, and the reports that end a
/// batch, and only these, end it in the window, which then tells the outcome. Reports change no
/// setting, and nothing that the user asked for.
pub proof fn law_only_a_verdict_ends_the_batch(a: AppView, reports: Seq<ProgressView>)
    ensures
        received_all(a, reports).running == (a.running && !has_verdict(reports)),
        has_verdict(reports) ==> received_all(a, reports).finished_msg is Some,
        settings_of(received_all(a, reports)) == settings_of(a),
        received_all(a, reports).cancelled == a.cancelled,
        received_all(a, reports).closing == a.closing,
        received_all(a, reports).autostart == a.autostart,
        received_all(a, reports).started_once == a.started_once,
    decreases reports.len(),
{
    if reports.len() > 0 {
        law_only_a_verdict_ends_the_batch(a, reports.drop_last());
        lemma_has_verdict(reports);
    }
}

/// A window never closes while a batch runs: a request to close it is turned down, the batch is
/// told to stop, and the window closes in the first frame after the batch is reported as over.
pub proof fn law_window_outlives_the_batch(
    a: AppView,
    close_requested: bool,
    reports: Seq<ProgressView>,
)
    ensures
        ({
            let after = close_asked(a, close_requested);
            let step = frame_step(after, close_requested);
            let later = received_all(after, reports);
            &&& step.close ==> !after.running
            &&& a.running && close_requested ==> {
                &&& step.cancel_close
                &&& after.cancelled
                &&& after.running
                &&& frame_step(later, false).close <==> has_verdict(reports)
            }
        }),
{
    law_only_a_verdict_ends_the_batch(close_asked(a, close_requested), reports);
}

/// What happens to the window.
pub enum Happening {
    /// A frame begins with new reports. Where a batch starts by itself, these are its images.
    Frame { reports: Seq<ProgressView>, images: Seq<PathView> },
    /// The end of a frame: whether the user asked for the window to close.
    Close(bool),
    /// The user changes the settings.
    Edit(SettingsView),
    /// The user asks for a batch, with these images.
    PressStart(Seq<PathView>),
    /// The user asks for the batch to stop.
    PressStop,
}

/// The state of the window after something happened.
pub open spec fn happened(a: AppView, what: Happening) -> AppView {
    match what {
        Happening::Frame { reports, images } => {
            let drained = received_all(a, reports);
            if autostart_due(drained) {
                started(
                    AppView { started_once: true, ..drained },
                    waiting_rows(drained.input->0, images),
                )
            } else {
                drained
            }
        },
        Happening::Close(requested) => close_asked(a, requested),
        Happening::Edit(s) => edited(a, s),
        Happening::PressStart(images) => start_pressed(a, images),
        Happening::PressStop => stop_pressed(a),
    }
}

/// A batch starts.
pub open spec fn starts_batch(a: AppView, what: Happening) -> bool {
    match what {
        Happening::Frame { reports, .. } => autostart_due(received_all(a, reports)),
        Happening::PressStart(_) => may_start(a),
        _ => false,
    }
}

/// The state of the window after a sequence of things happened.
pub open spec fn all_happened(a: AppView, course: Seq<Happening>) -> AppView
    decreases course.len(),
{
    if course.len() == 0 {
        a
    } else {
        all_happened(happened(a, course[0]), course.skip(1))
    }
}

/// How many batches start in the course of a sequence of things.
pub open spec fn batches_started(a: AppView, course: Seq<Happening>) -> nat
    decreases course.len(),
{
    if course.len() == 0 {
        0
    } else {
        (if starts_batch(a, course[0]) {
            1nat
        } else {
            0nat
        }) + batches_started(happened(a, course[0]), course.skip(1))
    }
}

/// How many batches start by themselves in the course of a sequence of things.
pub open spec fn autostarts(a: AppView, course: Seq<Happening>) -> nat
    decreases course.len(),
{
    if course.len() == 0 {
        0
    } else {
        (if starts_batch(a, course[0]) && course[0] is Frame {
            1nat
        } else {
            0nat
        }) + autostarts(happened(a, course[0]), course.skip(1))
    }
}

/// No report ends the batch.
pub open spec fn no_verdict(course: Seq<Happening>) -> bool {
    forall|k: int|
        0 <= k < course.len() ==> ((#[trigger] course[k]) matches Happening::Frame { reports, .. }
            ==> !has_verdict(reports))
}

/// While a batch runs, the settings stay as they are and no other batch starts, whatever the
/// user does: until a report ends the batch it goes on running, and the log only grows.
pub proof fn law_settings_hold_while_a_batch_runs(a: AppView, course: Seq<Happening>)
    requires
        a.running,
        no_verdict(course),
    ensures
        all_happened(a, course).running,
        settings_of(all_happened(a, course)) == settings_of(a),
        batches_started(a, course) == 0,
        a.cancelled ==> all_happened(a, course).cancelled,
        a.logs.len() <= all_happened(a, course).logs.len(),
        a.logs == all_happened(a, course).logs.take(a.logs.len() as int),
    decreases course.len(),
{
    if course.len() == 0 {
        assert(a.logs =~= a.logs.take(a.logs.len() as int));
    } else {
        let next = happened(a, course[0]);
        let rest = course.skip(1);
        assert(no_verdict(rest)) by {
            assert forall|k: int| 0 <= k < rest.len() implies ((#[trigger] rest[k]) matches
                Happening::Frame { reports, .. } ==> !has_verdict(reports)) by {
                assert(rest[k] == course[k + 1]);
            }
        }
        if let Happening::Frame { reports, .. } = course[0] {
            law_only_a_verdict_ends_the_batch(a, reports);
            lemma_reports_extend_log(a, reports);
        }
        assert(next.running);
        assert(a.logs =~= next.logs.take(a.logs.len() as int));
        law_settings_hold_while_a_batch_runs(next, rest);
        let end = all_happened(a, course);
        assert(end.logs.take(next.logs.len() as int).take(a.logs.len() as int) =~= end.logs.take(
            a.logs.len() as int,
        ));
    }
}

proof fn lemma_reports_extend_log(a: AppView, reports: Seq<ProgressView>)
    ensures
        a.logs.len() <= received_all(a, reports).logs.len(),
        a.logs == received_all(a, reports).logs.take(a.logs.len() as int),
    decreases reports.len(),
{
    if reports.len() == 0 {
        assert(a.logs =~= a.logs.take(a.logs.len() as int));
    } else {
        lemma_reports_extend_log(a, reports.drop_last());
        assert(a.logs =~= received_all(a, reports).logs.take(a.logs.len() as int));
    }
}

/// To stop a batch is to tell it so and to note it in the log, in one line; the batch goes on
/// running until it is reported as over. Without a batch nothing happens.
pub proof fn law_stop_leaves_the_batch_running(a: AppView)
    ensures
        stop_pressed(a).running == a.running,
        a.running ==> stop_pressed(a).cancelled && stop_pressed(a).logs == a.logs.push(
            "正在停止…（当前图片完成后停止）"@,
        ),
        settings_of(stop_pressed(a)) == settings_of(a),
        stop_pressed(a).rows == a.rows,
        !a.running ==> stop_pressed(a) == a,
{
}

/// A batch starts by itself at most once in the life of a window.
pub proof fn law_autostart_happens_once(a: AppView, course: Seq<Happening>)
    ensures
        autostarts(a, course) <= 1,
        a.started_once ==> autostarts(a, course) == 0,
    decreases course.len(),
{
    if course.len() > 0 {
        if let Happening::Frame { reports, .. } = course[0] {
            law_only_a_verdict_ends_the_batch(a, reports);
        }
        law_autostart_happens_once(happened(a, course[0]), course.skip(1));
    }
}

/// A row tells what was reported of its image last: that it is worked on, was skipped, was done
/// with a result of so many kilobytes, or failed and why.
pub proof fn law_row_tells_the_last_report(
    a: AppView,
    reports: Seq<ProgressView>,
    i: int,
    k: int,
)
    requires
        0 <= i < a.rows.len(),
        0 <= k < reports.len(),
        is_about(reports[k], i),
        forall|j: int| k < j < reports.len() ==> !is_about(#[trigger] reports[j], i),
    ensures
        ({
            let status = received_all(a, reports).rows[i].status;
            match reports[k] {
                ProgressView::FileStart { .. } => status == StatusView::Running,
                ProgressView::FileOk { bytes, skipped, .. } => status == if skipped {
                    StatusView::Skipped
                } else {
                    StatusView::Saved(decimal((bytes / 1024) as nat) + " KB"@)
                },
                ProgressView::FileErr { error, .. } => status == StatusView::Failed(error),
                _ => true,
            }
        }),
    decreases reports.len(),
{
    let before = reports.drop_last();
    law_reports_touch_their_own_row(a, before, i);
    if k < reports.len() - 1 {
        assert(before[k] == reports[k]);
        assert forall|j: int| k < j < before.len() implies !is_about(#[trigger] before[j], i) by {
            assert(before[j] == reports[j]);
        }
        law_row_tells_the_last_report(a, before, i, k);
        assert(!is_about(reports[reports.len() - 1], i));
    }
}

/// The window takes a report into its log as a line that carries it, but for the number of
/// images, which it keeps as the total.
pub proof fn law_log_carries_the_reports(
    a: AppView,
    idx: usize,
    total: usize,
    name: Seq<char>,
    path: PathView,
    bytes: usize,
    reason: Seq<char>,
    failed: usize,
)
    ensures
        received(a, ProgressView::Total(total)) == (AppView { total, ..a }),
        received(a, ProgressView::FileStart { idx, total, name }).logs == a.logs.push(
            "["@ + decimal((idx + 1) as nat) + "/"@ + decimal(total as nat) + "] 翻译: "@ + name,
        ),
        received(a, ProgressView::FileStart { idx, total, name }).current == name,
        received(a, ProgressView::FileStart { idx, total, name }).total == total,
        received(a, ProgressView::FileOk { idx, name, path, bytes, skipped: true }).logs
            == a.logs.push("  跳过（已存在）: "@ + name),
        received(a, ProgressView::FileOk { idx, name, path, bytes, skipped: false }).logs
            == a.logs.push(
            "  完成: "@ + path_text(path) + " ("@ + (decimal((bytes / 1024) as nat) + " KB"@) + ")"@,
        ),
        received(a, ProgressView::FileErr { idx, name, error: reason }).logs == a.logs.push(
            "  失败: "@ + name + " — "@ + reason,
        ),
        received(a, ProgressView::Log(reason)).logs == a.logs.push(reason),
        received(a, ProgressView::Done { ok: total, failed }).logs == a.logs.push(
            "==== 完成：成功 "@ + decimal(total as nat) + "，失败 "@ + decimal(failed as nat) + " ===="@,
        ),
        received(a, ProgressView::Done { ok: total, failed }).finished_msg == Some(
            "完成：成功 "@ + decimal(total as nat) + "，失败 "@ + decimal(failed as nat) + "（共 "@
                + decimal(a.total as nat) + "）"@,
        ),
        received(a, ProgressView::Fatal(reason)).logs == a.logs.push("致命错误："@ + reason),
        received(a, ProgressView::Fatal(reason)).finished_msg == Some("出错："@ + reason),
        received(a, ProgressView::Done { ok: total, failed }).current.len() == 0,
        received(a, ProgressView::Fatal(reason)).current.len() == 0,
{
}

/// While a batch runs, the bar tells how many of how many images are done, and which was begun
/// last; afterwards it tells the outcome.
pub proof fn law_bar_tells_how_far_the_batch_is(a: AppView)
    ensures
        a.running ==> bar(a) == decimal(a.done as nat) + "/"@ + decimal(a.total as nat) + "  "@
            + a.current,
        !a.running && a.finished_msg is Some ==> bar(a) == a.finished_msg->0,
        !a.running && a.finished_msg is None ==> bar(a) == decimal(a.done as nat) + "/"@
            + decimal(a.total as nat),
{
}

/// A window opens with the documented settings: the browser is seen, existing results are kept,
/// subdirectories are entered, and a result is waited for 90 seconds. The environment may name
/// the directories, of which the input has to exist, and ask for a start.
pub proof fn law_window_opens_with_defaults(env: Environment)
    ensures
        ({
            let a = opened(env);
            &&& a.show_window && !a.overwrite && a.recursive && a.timeout_secs == 90
            &&& a.chrome_path.len() == 0 && !a.show_advanced
            &&& !a.running && !a.closing && !a.cancelled && !a.started_once
            &&& a.total == 0 && a.done == 0 && a.ok == 0 && a.failed == 0
            &&& a.rows.len() == 0 && a.logs.len() == 0 && a.finished_msg is None
            &&& a.input is Some ==> env.input_is_dir
            &&& env.input_is_dir ==> a.input == path_option_view(env.input)
            &&& a.output == path_option_view(env.output)
            &&& a.autostart <==> (env.autostart matches Some(v) && v@ == "1"@)
            &&& env.target is None ==> a.target_idx == 0
            &&& env.source is None ==> a.source_idx == 0
        }),
{
}

/// A language that the environment names by a listed code is the one that the window opens
/// with.
pub proof fn law_environment_chooses_languages(env: Environment, k: int)
    requires
        0 <= k < TARGET_LANGS@.len(),
    ensures
        (env.target matches Some(code) && code@ == TARGET_LANGS@[k].0@) ==> TARGET_LANGS@[opened(
            env,
        ).target_idx as int].0@ == TARGET_LANGS@[k].0@,
        (env.source matches Some(code) && code@ == TARGET_LANGS@[k].0@)
            ==> source_lang_list()[opened(env).source_idx as int].0@ == TARGET_LANGS@[k].0@,
{
    if let Some(code) = env.target {
        law_language_is_chosen_by_its_code(TARGET_LANGS@, code@);
    }
    if let Some(code) = env.source {
        law_language_is_chosen_by_its_code(source_lang_list(), code@);
        law_source_is_any_target_or_detected(k);
    }
}

/// The batch is asked for what the window shows: its directories, the codes of its languages,
/// its choices, at least 10 seconds for a result, one image after the other, and the browser
/// that is named, if any.
pub proof fn law_batch_gets_the_settings(a: AppView, cfg: Config)
    requires
        asks_for(a, cfg),
    ensures
        a.input == Some(cfg.input@),
        a.output == Some(cfg.output@),
        cfg.target@ == TARGET_LANGS@[a.target_idx as int].0@,
        cfg.source@ == source_lang_list()[a.source_idx as int].0@,
        cfg.headless != a.show_window,
        cfg.overwrite == a.overwrite,
        cfg.recursive == a.recursive,
        cfg.concurrency == 1,
        a.timeout_secs >= 10 ==> cfg.timeout_nanos == a.timeout_secs * 1_000_000_000,
        a.timeout_secs < 10 ==> cfg.timeout_nanos == 10_000_000_000,
        cfg.chrome is None <==> trimmed(a.chrome_path).len() == 0,
        cfg.chrome matches Some(bytes) ==> bytes@ == encode_utf8(trimmed(a.chrome_path)),
{
}

/// A batch starts with a clean window: its images wait, nothing is counted or told, and it is
/// not cancelled. The settings stay.
pub proof fn law_batch_starts_clean(a: AppView, images: Seq<PathView>)
    requires
        may_start(a),
        images.len() <= usize::MAX,
    ensures
        ({
            let b = start_pressed(a, images);
            &&& b.running && !b.cancelled
            &&& b.total == images.len() && b.done == 0 && b.ok == 0 && b.failed == 0
            &&& b.logs.len() == 0 && b.finished_msg is None && b.current.len() == 0
            &&& b.rows.len() == images.len()
            &&& settings_of(b) == settings_of(a)
        }),
        !a.running && a.input is Some && a.output is Some,
{
}

/// The signs of the list: done and failed images are told apart by sign and colour, and what a
/// row says beside its name is its size or its reason.
pub proof fn law_signs_tell_the_outcome(text: Seq<char>)
    ensures
        sign(StatusView::Saved(text)).0 == "✔"@,
        sign(StatusView::Failed(text)).0 == "×"@,
        sign(StatusView::Skipped).0 == "↪"@,
        sign(StatusView::Running).0 == "⏳"@,
        sign(StatusView::Waiting).0 == "•"@,
        sign(StatusView::Saved(text)).1 != sign(StatusView::Failed(text)).1,
        remark(StatusView::Saved(text)) == Some((text, false)),
        remark(StatusView::Failed(text)) == Some((text, true)),
        remark(StatusView::Skipped) == Some(("已存在"@, false)),
        remark(StatusView::Waiting) is None && remark(StatusView::Running) is None,
{
}

/// A request to close the window is turned down only while a batch runs, the window closes only
/// when it was asked to and no batch runs, and while one runs the window is drawn again every
/// 120 milliseconds.
pub proof fn law_frames_follow_the_batch(a: AppView, close_requested: bool)
    ensures
        ({
            let after = close_asked(a, close_requested);
            let step = frame_step(after, close_requested);
            &&& step.cancel_close <==> close_requested && a.running
            &&& step.close <==> after.closing && !after.running
            &&& after.closing <==> a.closing || (close_requested && a.running)
            &&& after.cancelled <==> a.cancelled || (close_requested && a.running)
            &&& after.running == a.running
            &&& a.running ==> step.repaint_after_ms == Some(120u64)
            &&& !a.running ==> step.repaint_after_ms is None
            &&& settings_of(after) == settings_of(a)
        }),
{
}

/// A window whose environment asks for a start, and names both directories, is due to start at
/// once; one whose environment does not ask is never due.
pub proof fn law_environment_starts_the_batch(env: Environment)
    ensures
        autostart_due(opened(env)) <==> {
            &&& env.autostart matches Some(v) && v@ == "1"@
            &&& env.input is Some && env.input_is_dir
            &&& env.output is Some
        },
{
}

/// What the user sets while no batch runs is what is set, and nothing else changes.
pub proof fn law_settings_are_what_the_user_sets(a: AppView, s: SettingsView)
    requires
        !a.running,
    ensures
        settings_of(edited(a, s)) == s,
        edited(edited(a, s), settings_of(a)) == a,
{
}

/// Without both directories nothing starts: the log gets one line that asks for them, and all
/// else stays.
pub proof fn law_start_asks_for_the_directories(a: AppView)
    ensures
        not_started(a).logs == a.logs.push("请先选择输入目录和输出目录。"@),
        (AppView { logs: a.logs, ..not_started(a) }) == a,
{
}

} // verus!
