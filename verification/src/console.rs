//! The reports of a batch as lines for a terminal.

use crate::config::{Config, Progress, ProgressView};
use crate::path::{path_text, show_path, OsPath, PathView};
use crate::text::{chain, decimal, decimal_text};
use vstd::prelude::*;

verus! {

/// What a terminal is given.
pub struct Output {
    pub text: String,
    /// A line break follows.
    pub newline: bool,
    /// The text goes where errors go.
    pub to_stderr: bool,
}

/// The mathematical value of an [`Output`].
pub struct OutputView {
    pub text: Seq<char>,
    pub newline: bool,
    pub to_stderr: bool,
}

impl View for Output {
    type V = OutputView;

    open spec fn view(&self) -> OutputView {
        OutputView { text: self.text@, newline: self.newline, to_stderr: self.to_stderr }
    }
}

/// The closing line of a batch.
pub open spec fn closing_text(ok: usize, failed: usize) -> Seq<char> {
    "==== 完成：成功 "@ + decimal(ok as nat) + "，失败 "@ + decimal(failed as nat) + " ===="@
}

/// The closing line of a batch.
pub fn closing_line(ok: usize, failed: usize) -> (s: String)
    ensures
        s@ == closing_text(ok, failed),
{
    let mut s = chain("==== 完成：成功 ", decimal_text(ok).as_str());
    s.append("，失败 ");
    s.append(decimal_text(failed).as_str());
    s.append(" ====");
    s
}

/// An image by its number, counted from 1, and its name.
pub open spec fn numbered_text(idx: usize, total: usize, name: Seq<char>) -> Seq<char> {
    "["@ + decimal((idx + 1) as nat) + "/"@ + decimal(total as nat) + "] 翻译: "@ + name
}

/// An image by its number, counted from 1, and its name.
pub fn numbered_line(idx: usize, total: usize, name: &str) -> (s: String)
    requires
        idx < usize::MAX,
    ensures
        s@ == numbered_text(idx, total, name@),
{
    let mut s = chain("[", decimal_text(idx + 1).as_str());
    s.append("/");
    s.append(decimal_text(total).as_str());
    s.append("] 翻译: ");
    s.append(name);
    s
}

/// What the terminal is given for a report.
pub open spec fn printed(p: ProgressView) -> OutputView {
    match p {
        ProgressView::Total(t) => OutputView {
            text: "共 "@ + decimal(t as nat) + " 张图片"@,
            newline: true,
            to_stderr: false,
        },
        ProgressView::FileStart { idx, total, name } => OutputView {
            text: numbered_text(idx, total, name) + " ... "@,
            newline: false,
            to_stderr: false,
        },
        ProgressView::FileOk { path, bytes, skipped, .. } => OutputView {
            text: if skipped {
                "跳过（已存在）"@
            } else {
                "完成 -> "@ + path_text(path) + " ("@ + decimal((bytes / 1024) as nat)
                    + " KB)"@
            },
            newline: true,
            to_stderr: false,
        },
        ProgressView::FileErr { error, .. } => OutputView {
            text: "失败: "@ + error,
            newline: true,
            to_stderr: false,
        },
        ProgressView::Log(s) => OutputView { text: s, newline: true, to_stderr: false },
        ProgressView::Done { ok, failed } => OutputView {
            text: closing_text(ok, failed),
            newline: true,
            to_stderr: false,
        },
        ProgressView::Fatal(e) => OutputView {
            text: "致命错误："@ + e,
            newline: true,
            to_stderr: true,
        },
    }
}

/// The number of an image, counted from 1, can be written.
pub open spec fn printable(p: ProgressView) -> bool {
    p matches ProgressView::FileStart { idx, .. } ==> idx < usize::MAX
}

/// What the terminal is given for a report.
pub fn print_progress(p: Progress) -> (out: Output)
    requires
        printable(p@),
    ensures
        out@ == printed(p@),
{
    match p {
        Progress::Total(t) => {
            let mut text = chain("共 ", decimal_text(t).as_str());
            text.append(" 张图片");
            Output { text, newline: true, to_stderr: false }
        },
        Progress::FileStart { idx, total, name } => {
            let mut text = numbered_line(idx, total, name.as_str());
            text.append(" ... ");
            Output { text, newline: false, to_stderr: false }
        },
        Progress::FileOk { path, bytes, skipped, .. } => {
            let text = if skipped {
                "跳过（已存在）".to_owned()
            } else {
                let mut text = chain("完成 -> ", show_path(&path).as_str());
                text.append(" (");
                text.append(decimal_text(bytes / 1024).as_str());
                text.append(" KB)");
                text
            };
            Output { text, newline: true, to_stderr: false }
        },
        Progress::FileErr { error, .. } => Output {
            text: chain("失败: ", error.as_str()),
            newline: true,
            to_stderr: false,
        },
        Progress::Log(s) => Output { text: s, newline: true, to_stderr: false },
        Progress::Done { ok, failed } => Output {
            text: closing_line(ok, failed),
            newline: true,
            to_stderr: false,
        },
        Progress::Fatal(e) => Output {
            text: chain("致命错误：", e.as_str()),
            newline: true,
            to_stderr: true,
        },
    }
}

/// The arguments of the command line.
pub struct CliArgs {
    pub input: OsPath,
    pub output: OsPath,
    pub target: String,
    pub source: String,
    /// How long a result is waited for, in seconds.
    pub timeout: u64,
    pub headless: bool,
    pub chrome: Option<Vec<u8>>,
    pub overwrite: bool,
    pub no_recursive: bool,
}

/// `cfg` is what the command line asks for.
pub open spec fn is_asked_by(args: CliArgs, cfg: Config) -> bool {
    &&& cfg.input@ == args.input@
    &&& cfg.output@ == args.output@
    &&& cfg.source@ == args.source@
    &&& cfg.target@ == args.target@
    &&& cfg.timeout_nanos == args.timeout * 1_000_000_000
    &&& cfg.headless == args.headless
    &&& cfg.overwrite == args.overwrite
    &&& cfg.chrome == args.chrome
    &&& cfg.recursive != args.no_recursive
    &&& cfg.concurrency == 1
}

/// The settings of the batch that the command line asks for: one image after the other.
pub fn cli_config(args: CliArgs) -> (cfg: Config)
    ensures
        is_asked_by(args, cfg),
        cfg.input == args.input,
        cfg.output == args.output,
        cfg.source == args.source,
        cfg.target == args.target,
        cfg.timeout_nanos == args.timeout * 1_000_000_000,
        cfg.headless == args.headless,
        cfg.overwrite == args.overwrite,
        cfg.chrome == args.chrome,
        cfg.recursive == !args.no_recursive,
        cfg.concurrency == 1,
{
    Config {
        input: args.input,
        output: args.output,
        source: args.source,
        target: args.target,
        timeout_nanos: args.timeout as u128 * 1_000_000_000,
        headless: args.headless,
        overwrite: args.overwrite,
        chrome: args.chrome,
        recursive: !args.no_recursive,
        concurrency: 1,
    }
}

/// The line with which the command line begins.
pub open spec fn opening_text(cfg: Config) -> Seq<char> {
    "共开始：源语言="@ + cfg.source@ + "，目标语言="@ + cfg.target@ + "，输出="@ + path_text(
        cfg.output@,
    )
}

/// The line with which the command line begins.
pub fn opening_line(cfg: &Config) -> (s: String)
    ensures
        s@ == opening_text(*cfg),
{
    let mut s = chain("共开始：源语言=", cfg.source.as_str());
    s.append("，目标语言=");
    s.append(cfg.target.as_str());
    s.append("，输出=");
    s.append(show_path(&cfg.output).as_str());
    s
}

/// What the terminal shows of a report carries the report: numbers in decimal, images counted
/// from 1, names, paths and reasons as they are, and sizes in whole kilobytes.
pub proof fn law_lines_carry_the_reports(
    idx: usize,
    total: usize,
    name: Seq<char>,
    path: PathView,
    bytes: usize,
    reason: Seq<char>,
    failed: usize,
)
    ensures
        printed(ProgressView::Total(total)).text == "共 "@ + decimal(total as nat) + " 张图片"@,
        printed(ProgressView::FileStart { idx, total, name }).text == "["@ + decimal(
            (idx + 1) as nat,
        ) + "/"@ + decimal(total as nat) + "] 翻译: "@ + name + " ... "@,
        printed(ProgressView::FileOk { idx, name, path, bytes, skipped: true }).text
            == "跳过（已存在）"@,
        printed(ProgressView::FileOk { idx, name, path, bytes, skipped: false }).text
            == "完成 -> "@ + path_text(path) + " ("@ + decimal((bytes / 1024) as nat) + " KB)"@,
        printed(ProgressView::FileErr { idx, name, error: reason }).text == "失败: "@ + reason,
        printed(ProgressView::Log(reason)).text == reason,
        printed(ProgressView::Done { ok: total, failed }).text == "==== 完成：成功 "@ + decimal(
            total as nat,
        ) + "，失败 "@ + decimal(failed as nat) + " ===="@,
        printed(ProgressView::Fatal(reason)).text == "致命错误："@ + reason,
{
}

/// Only what ends a batch for good goes where errors go, and only the beginning of an image
/// leaves its line open, for the outcome to follow.
pub proof fn law_where_lines_go(p: ProgressView)
    ensures
        printed(p).to_stderr <==> p is Fatal,
        printed(p).newline <==> !(p is FileStart),
{
}

/// The first line names both languages and the output directory.
pub proof fn law_opening_line_names_the_settings(cfg: Config)
    ensures
        opening_text(cfg) == "共开始：源语言="@ + cfg.source@ + "，目标语言="@ + cfg.target@ + "，输出="@
            + path_text(cfg.output@),
{
}

} // verus!
