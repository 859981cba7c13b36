//! The work of one browser: it takes one image after the other until none is left.

use crate::config::{lemma_count_short, report_option_view, Config, Progress, ProgressView};
use crate::path::{
    join, joined, parent, parent_of, path_text, paths_view, rel_display, relative_or_whole,
    strip_base_or_whole, OsPath, PathView, Separator,
};
use crate::text::chain;
use crate::translate::{error_message, TranslateError};
use vstd::prelude::*;

verus! {

/// How many tries follow the first for an image that fails.
pub const RETRIES: u32 = 1;

/// What a worker waits for. The number is the position of the image at hand.
#[derive(Clone, Copy, PartialEq, Eq, Structural)]
pub enum WorkerState {
    /// The browser tab.
    Opening,
    /// Word on whether the batch was cancelled.
    Asking,
    /// The position of the next image.
    Claiming,
    /// Word on whether the result exists.
    Checking(usize),
    /// The directory of the result.
    MakingDir(usize),
    /// The translated image.
    Translating(usize),
    /// The end of writing so many bytes.
    Saving(usize, usize),
    /// The end of the pause between two images.
    Pausing,
    /// Nothing.
    Stopped,
}

/// The position of the image at hand.
pub open spec fn at_hand(state: WorkerState) -> Option<usize> {
    match state {
        WorkerState::Checking(i) => Some(i),
        WorkerState::MakingDir(i) => Some(i),
        WorkerState::Translating(i) => Some(i),
        WorkerState::Saving(i, _) => Some(i),
        _ => None,
    }
}

/// The image at hand is one of `total` images.
pub open spec fn fits(state: WorkerState, total: nat) -> bool {
    at_hand(state) matches Some(i) ==> i < total
}

/// What came of the last action.
pub enum WorkerEvent {
    /// The tab was opened.
    TabOpened(Result<(), String>),
    /// Whether the batch was cancelled.
    Cancelled(bool),
    /// The next position that no worker has taken.
    Claimed(usize),
    /// Whether the result exists.
    Exists(bool),
    /// The directory was made.
    DirMade(Result<(), String>),
    /// The image was translated.
    Translated(Result<Vec<u8>, TranslateError>),
    /// The result was written.
    Saved(Result<(), String>),
    /// The pause is over.
    Slept,
}

/// What is to be done next.
pub enum WorkerAction {
    /// Keep waiting: what came was not what is waited for.
    Wait,
    /// Find out whether the batch was cancelled.
    AskCancelled,
    /// Take the next position.
    Claim,
    /// Find out whether this file exists.
    CheckExists(OsPath),
    /// Make this directory and those above it.
    MakeDir(OsPath),
    /// Translate this image.
    Translate(OsPath),
    /// Write the bytes to the file.
    Save { path: OsPath, bytes: Vec<u8> },
    /// Pause for so many milliseconds.
    Sleep(u64),
    /// Close the tab and the browser.
    Stop,
}

/// The mathematical value of a [`WorkerAction`].
pub enum WorkerActionView {
    Wait,
    AskCancelled,
    Claim,
    CheckExists(PathView),
    MakeDir(PathView),
    Translate(PathView),
    Save { path: PathView, bytes: Seq<u8> },
    Sleep(u64),
    Stop,
}

impl View for WorkerAction {
    type V = WorkerActionView;

    open spec fn view(&self) -> WorkerActionView {
        match *self {
            WorkerAction::Wait => WorkerActionView::Wait,
            WorkerAction::AskCancelled => WorkerActionView::AskCancelled,
            WorkerAction::Claim => WorkerActionView::Claim,
            WorkerAction::CheckExists(p) => WorkerActionView::CheckExists(p@),
            WorkerAction::MakeDir(p) => WorkerActionView::MakeDir(p@),
            WorkerAction::Translate(p) => WorkerActionView::Translate(p@),
            WorkerAction::Save { path, bytes } => WorkerActionView::Save {
                path: path@,
                bytes: bytes@,
            },
            WorkerAction::Sleep(ms) => WorkerActionView::Sleep(ms),
            WorkerAction::Stop => WorkerActionView::Stop,
        }
    }
}

/// What a step of a worker gives.
pub struct WorkerStep {
    pub report: Option<Progress>,
    pub action: WorkerAction,
}

/// The mathematical value of a [`WorkerStep`].
pub struct WorkerStepView {
    pub report: Option<ProgressView>,
    pub action: WorkerActionView,
}

impl View for WorkerStep {
    type V = WorkerStepView;

    open spec fn view(&self) -> WorkerStepView {
        WorkerStepView { report: report_option_view(self.report), action: self.action@ }
    }
}

/// The name under which an image is reported: its path below the input directory.
pub open spec fn image_name(cfg: Config, image: PathView) -> Seq<char> {
    path_text(relative_or_whole(cfg.input@, image))
}

/// Where the result for an image goes: to the same place below the output directory.
pub open spec fn result_path(cfg: Config, image: PathView, separator: Separator) -> PathView {
    joined(cfg.output@, relative_or_whole(cfg.input@, image), separator)
}

/// Where the result for an image goes.
pub fn output_path(cfg: &Config, image: &OsPath, separator: Separator) -> (path: OsPath)
    ensures
        path@ == result_path(*cfg, image@, separator),
{
    join(&cfg.output, &strip_base_or_whole(&cfg.input, image), separator)
}

/// The state, report and action after an image failed.
pub open spec fn failed_image(
    cfg: Config,
    images: Seq<PathView>,
    i: usize,
    error: Seq<char>,
    state: WorkerState,
    action: WorkerActionView,
) -> (WorkerState, WorkerStepView) {
    (
        state,
        WorkerStepView {
            report: Some(
                ProgressView::FileErr {
                    idx: i,
                    name: image_name(cfg, images[i as int]),
                    error,
                },
            ),
            action,
        },
    )
}

/// A step without a report.
pub open spec fn quietly(state: WorkerState, action: WorkerActionView) -> (
    WorkerState,
    WorkerStepView,
) {
    (state, WorkerStepView { report: None, action })
}

/// What follows `event` in the work of one browser. An event that does not fit the state
/// changes nothing.
pub open spec fn worker_next(
    cfg: Config,
    images: Seq<PathView>,
    separator: Separator,
    state: WorkerState,
    event: WorkerEvent,
) -> (WorkerState, WorkerStepView) {
    match (state, event) {
        (WorkerState::Opening, WorkerEvent::TabOpened(r)) => match r {
            Ok(_) => quietly(WorkerState::Asking, WorkerActionView::AskCancelled),
            Err(e) => (
                WorkerState::Stopped,
                WorkerStepView {
                    report: Some(ProgressView::Log("创建标签页失败："@ + e@)),
                    action: WorkerActionView::Stop,
                },
            ),
        },
        (WorkerState::Asking, WorkerEvent::Cancelled(cancelled)) => if cancelled {
            quietly(WorkerState::Stopped, WorkerActionView::Stop)
        } else {
            quietly(WorkerState::Claiming, WorkerActionView::Claim)
        },
        (WorkerState::Claiming, WorkerEvent::Claimed(i)) => if i >= images.len() {
            quietly(WorkerState::Stopped, WorkerActionView::Stop)
        } else {
            (
                WorkerState::Checking(i),
                WorkerStepView {
                    report: Some(
                        ProgressView::FileStart {
                            idx: i,
                            total: images.len() as usize,
                            name: image_name(cfg, images[i as int]),
                        },
                    ),
                    action: WorkerActionView::CheckExists(
                        result_path(cfg, images[i as int], separator),
                    ),
                },
            )
        },
        (WorkerState::Checking(i), WorkerEvent::Exists(exists)) => if exists && !cfg.overwrite {
            (
                WorkerState::Asking,
                WorkerStepView {
                    report: Some(
                        ProgressView::FileOk {
                            idx: i,
                            name: image_name(cfg, images[i as int]),
                            path: result_path(cfg, images[i as int], separator),
                            bytes: 0,
                            skipped: true,
                        },
                    ),
                    action: WorkerActionView::AskCancelled,
                },
            )
        } else {
            match parent_of(result_path(cfg, images[i as int], separator)) {
                Some(dir) => quietly(WorkerState::MakingDir(i), WorkerActionView::MakeDir(dir)),
                None => quietly(
                    WorkerState::Translating(i),
                    WorkerActionView::Translate(images[i as int]),
                ),
            }
        },
        (WorkerState::MakingDir(i), WorkerEvent::DirMade(r)) => match r {
            Ok(_) => quietly(
                WorkerState::Translating(i),
                WorkerActionView::Translate(images[i as int]),
            ),
            Err(e) => failed_image(
                cfg,
                images,
                i,
                "创建输出子目录失败: "@ + e@,
                WorkerState::Asking,
                WorkerActionView::AskCancelled,
            ),
        },
        (WorkerState::Translating(i), WorkerEvent::Translated(r)) => match r {
            Ok(bytes) => quietly(
                WorkerState::Saving(i, bytes@.len() as usize),
                WorkerActionView::Save {
                    path: result_path(cfg, images[i as int], separator),
                    bytes: bytes@,
                },
            ),
            Err(e) => failed_image(
                cfg,
                images,
                i,
                error_message(e@),
                WorkerState::Pausing,
                WorkerActionView::Sleep(400),
            ),
        },
        (WorkerState::Saving(i, len), WorkerEvent::Saved(r)) => match r {
            Ok(_) => (
                WorkerState::Pausing,
                WorkerStepView {
                    report: Some(
                        ProgressView::FileOk {
                            idx: i,
                            name: image_name(cfg, images[i as int]),
                            path: result_path(cfg, images[i as int], separator),
                            bytes: len,
                            skipped: false,
                        },
                    ),
                    action: WorkerActionView::Sleep(400),
                },
            ),
            Err(e) => failed_image(
                cfg,
                images,
                i,
                "保存失败: "@ + e@,
                WorkerState::Pausing,
                WorkerActionView::Sleep(400),
            ),
        },
        (WorkerState::Pausing, WorkerEvent::Slept) => quietly(
            WorkerState::Asking,
            WorkerActionView::AskCancelled,
        ),
        _ => quietly(state, WorkerActionView::Wait),
    }
}

/// The state of a worker whose tab is to be opened.
pub fn start_worker() -> (state: WorkerState)
    ensures
        state == WorkerState::Opening,
{
    WorkerState::Opening
}

/// The report that the image at position `i` failed.
fn failure(cfg: &Config, image: &OsPath, i: usize, error: String) -> (p: Progress)
    ensures
        p@ == (ProgressView::FileErr {
            idx: i,
            name: image_name(*cfg, image@),
            error: error@,
        }),
{
    Progress::FileErr { idx: i, name: rel_display(&cfg.input, image), error }
}

/// The report that the image at position `i` is done.
fn success(
    cfg: &Config,
    image: &OsPath,
    separator: Separator,
    i: usize,
    bytes: usize,
    skipped: bool,
) -> (p: Progress)
    ensures
        p@ == (ProgressView::FileOk {
            idx: i,
            name: image_name(*cfg, image@),
            path: result_path(*cfg, image@, separator),
            bytes,
            skipped,
        }),
{
    Progress::FileOk {
        idx: i,
        name: rel_display(&cfg.input, image),
        path: output_path(cfg, image, separator),
        bytes,
        skipped,
    }
}

/// Takes the work of one browser a step further. `images` are all the images of the batch.
pub fn worker(
    cfg: &Config,
    images: &Vec<OsPath>,
    separator: Separator,
    state: &mut WorkerState,
    event: WorkerEvent,
) -> (step: WorkerStep)
    requires
        fits(*old(state), images@.len()),
    ensures
        (*final(state), step@) == worker_next(
            *cfg,
            paths_view(images@),
            separator,
            *old(state),
            event,
        ),
        fits(*final(state), images@.len()),
{
    match (*state, event) {
        (WorkerState::Opening, WorkerEvent::TabOpened(r)) => match r {
            Ok(_) => {
                *state = WorkerState::Asking;
                WorkerStep { report: None, action: WorkerAction::AskCancelled }
            },
            Err(e) => {
                *state = WorkerState::Stopped;
                WorkerStep {
                    report: Some(Progress::Log(chain("创建标签页失败：", e.as_str()))),
                    action: WorkerAction::Stop,
                }
            },
        },
        (WorkerState::Asking, WorkerEvent::Cancelled(cancelled)) => {
            if cancelled {
                *state = WorkerState::Stopped;
                WorkerStep { report: None, action: WorkerAction::Stop }
            } else {
                *state = WorkerState::Claiming;
                WorkerStep { report: None, action: WorkerAction::Claim }
            }
        },
        (WorkerState::Claiming, WorkerEvent::Claimed(i)) => {
            let total: usize = images.len();
            if i >= total {
                *state = WorkerState::Stopped;
                WorkerStep { report: None, action: WorkerAction::Stop }
            } else {
                *state = WorkerState::Checking(i);
                WorkerStep {
                    report: Some(
                        Progress::FileStart {
                            idx: i,
                            total,
                            name: rel_display(&cfg.input, &images[i]),
                        },
                    ),
                    action: WorkerAction::CheckExists(output_path(cfg, &images[i], separator)),
                }
            }
        },
        (WorkerState::Checking(i), WorkerEvent::Exists(exists)) => {
            if exists && !cfg.overwrite {
                *state = WorkerState::Asking;
                WorkerStep {
                    report: Some(success(cfg, &images[i], separator, i, 0, true)),
                    action: WorkerAction::AskCancelled,
                }
            } else {
                match parent(&output_path(cfg, &images[i], separator)) {
                    Some(dir) => {
                        *state = WorkerState::MakingDir(i);
                        WorkerStep { report: None, action: WorkerAction::MakeDir(dir) }
                    },
                    None => {
                        *state = WorkerState::Translating(i);
                        WorkerStep {
                            report: None,
                            action: WorkerAction::Translate(images[i].clone()),
                        }
                    },
                }
            }
        },
        (WorkerState::MakingDir(i), WorkerEvent::DirMade(r)) => match r {
            Ok(_) => {
                *state = WorkerState::Translating(i);
                WorkerStep { report: None, action: WorkerAction::Translate(images[i].clone()) }
            },
            Err(e) => {
                *state = WorkerState::Asking;
                WorkerStep {
                    report: Some(
                        failure(
                            cfg,
                            &images[i],
                            i,
                            chain("创建输出子目录失败: ", e.as_str()),
                        ),
                    ),
                    action: WorkerAction::AskCancelled,
                }
            },
        },
        (WorkerState::Translating(i), WorkerEvent::Translated(r)) => match r {
            Ok(bytes) => {
                *state = WorkerState::Saving(i, bytes.len());
                WorkerStep {
                    report: None,
                    action: WorkerAction::Save {
                        path: output_path(cfg, &images[i], separator),
                        bytes,
                    },
                }
            },
            Err(e) => {
                *state = WorkerState::Pausing;
                WorkerStep {
                    report: Some(failure(cfg, &images[i], i, e.message())),
                    action: WorkerAction::Sleep(400),
                }
            },
        },
        (WorkerState::Saving(i, len), WorkerEvent::Saved(r)) => {
            *state = WorkerState::Pausing;
            let report = match r {
                Ok(_) => success(cfg, &images[i], separator, i, len, false),
                Err(e) => failure(
                    cfg,
                    &images[i],
                    i,
                    chain("保存失败: ", e.as_str()),
                ),
            };
            WorkerStep { report: Some(report), action: WorkerAction::Sleep(400) }
        },
        (WorkerState::Pausing, WorkerEvent::Slept) => {
            *state = WorkerState::Asking;
            WorkerStep { report: None, action: WorkerAction::AskCancelled }
        },
        _ => WorkerStep { report: None, action: WorkerAction::Wait },
    }
}

/// The state of a worker after a sequence of events.
pub open spec fn worker_after(
    cfg: Config,
    images: Seq<PathView>,
    separator: Separator,
    state: WorkerState,
    events: Seq<WorkerEvent>,
) -> WorkerState
    decreases events.len(),
{
    if events.len() == 0 {
        state
    } else {
        worker_after(
            cfg,
            images,
            separator,
            worker_next(cfg, images, separator, state, events[0]).0,
            events.skip(1),
        )
    }
}

/// What a worker reports in the course of a sequence of events.
pub open spec fn worker_reports(
    cfg: Config,
    images: Seq<PathView>,
    separator: Separator,
    state: WorkerState,
    events: Seq<WorkerEvent>,
) -> Seq<ProgressView>
    decreases events.len(),
{
    if events.len() == 0 {
        Seq::empty()
    } else {
        let (after, step) = worker_next(cfg, images, separator, state, events[0]);
        let first = match step.report {
            Some(p) => seq![p],
            None => Seq::empty(),
        };
        first + worker_reports(cfg, images, separator, after, events.skip(1))
    }
}

/// A report that work on the image at position `i` began.
pub open spec fn is_start_of(p: ProgressView, i: usize) -> bool {
    p matches ProgressView::FileStart { idx, .. } && idx == i
}

/// A report on how work on the image at position `i` ended.
pub open spec fn is_end_of(p: ProgressView, i: usize) -> bool {
    ||| p matches ProgressView::FileOk { idx, .. } && idx == i
    ||| p matches ProgressView::FileErr { idx, .. } && idx == i
}

/// How many reports say that work on the image at position `i` began.
pub open spec fn starts(reports: Seq<ProgressView>, i: usize) -> nat {
    reports.filter(|p: ProgressView| is_start_of(p, i)).len()
}

/// How many reports say how work on the image at position `i` ended.
pub open spec fn ends(reports: Seq<ProgressView>, i: usize) -> nat {
    reports.filter(|p: ProgressView| is_end_of(p, i)).len()
}

/// Every image that a worker begins is reported as done or failed before the worker turns to
/// another, and nothing else is: at any time, the beginnings and the ends reported for an image
/// balance, but for the image at hand.
pub proof fn law_every_start_has_one_end(
    cfg: Config,
    images: Seq<PathView>,
    separator: Separator,
    state: WorkerState,
    events: Seq<WorkerEvent>,
    i: usize,
)
    ensures
        starts(worker_reports(cfg, images, separator, state, events), i) + (if at_hand(state)
            == Some(i) {
            1nat
        } else {
            0nat
        }) == ends(worker_reports(cfg, images, separator, state, events), i) + (if at_hand(
            worker_after(cfg, images, separator, state, events),
        ) == Some(i) {
            1nat
        } else {
            0nat
        }),
    decreases events.len(),
{
    let start_of = |p: ProgressView| is_start_of(p, i);
    let end_of = |p: ProgressView| is_end_of(p, i);
    if events.len() == 0 {
        lemma_count_short(Seq::empty(), start_of);
        lemma_count_short(Seq::empty(), end_of);
    } else {
        let (after, step) = worker_next(cfg, images, separator, state, events[0]);
        let rest = worker_reports(cfg, images, separator, after, events.skip(1));
        law_every_start_has_one_end(cfg, images, separator, after, events.skip(1), i);
        let first = match step.report {
            Some(p) => seq![p],
            None => Seq::empty(),
        };
        Seq::filter_distributes_over_add(first, rest, start_of);
        Seq::filter_distributes_over_add(first, rest, end_of);
        lemma_step_balance(cfg, images, separator, state, events[0], i);
    }
}

/// What one step reports of the image at position `i`.
proof fn lemma_step_balance(
    cfg: Config,
    images: Seq<PathView>,
    separator: Separator,
    state: WorkerState,
    event: WorkerEvent,
    i: usize,
)
    ensures
        ({
            let (after, step) = worker_next(cfg, images, separator, state, event);
            let first = match step.report {
                Some(p) => seq![p],
                None => Seq::empty(),
            };
            starts(first, i) + (if at_hand(state) == Some(i) {
                1nat
            } else {
                0nat
            }) == ends(first, i) + (if at_hand(after) == Some(i) {
                1nat
            } else {
                0nat
            })
        }),
{
    lemma_report_follows_image(cfg, images, separator, state, event);
    let first = match worker_next(cfg, images, separator, state, event).1.report {
        Some(p) => seq![p],
        None => Seq::empty(),
    };
    lemma_count_short(first, |p: ProgressView| is_start_of(p, i));
    lemma_count_short(first, |p: ProgressView| is_end_of(p, i));
}

/// What a step reports goes with what it does to the image at hand: a beginning comes with the
/// image that is taken, an end with the image that is left, and else it stays.
pub proof fn lemma_report_follows_image(
    cfg: Config,
    images: Seq<PathView>,
    separator: Separator,
    state: WorkerState,
    event: WorkerEvent,
)
    ensures
        ({
            let (after, step) = worker_next(cfg, images, separator, state, event);
            match step.report {
                Some(ProgressView::FileStart { idx, .. }) => {
                    &&& state == WorkerState::Claiming
                    &&& event == WorkerEvent::Claimed(idx)
                    &&& idx < images.len()
                    &&& at_hand(after) == Some(idx)
                },
                Some(ProgressView::FileOk { idx, .. }) => at_hand(state) == Some(idx) && at_hand(
                    after,
                ) is None,
                Some(ProgressView::FileErr { idx, .. }) => at_hand(state) == Some(idx) && at_hand(
                    after,
                ) is None,
                Some(ProgressView::Log(_)) => at_hand(after) == at_hand(state),
                Some(_) => false,
                None => at_hand(after) == at_hand(state) && (event matches WorkerEvent::Claimed(i)
                    ==> (state == WorkerState::Claiming ==> i >= images.len())),
            }
        }),
{
}

/// Once a worker has heard that the batch was cancelled, it stops and reports nothing more.
pub proof fn law_cancel_stops_between_images(
    cfg: Config,
    images: Seq<PathView>,
    separator: Separator,
    events: Seq<WorkerEvent>,
)
    ensures
        worker_next(
            cfg,
            images,
            separator,
            WorkerState::Asking,
            WorkerEvent::Cancelled(true),
        ) == quietly(WorkerState::Stopped, WorkerActionView::Stop),
        worker_after(cfg, images, separator, WorkerState::Stopped, events) == WorkerState::Stopped,
        worker_reports(cfg, images, separator, WorkerState::Stopped, events) == Seq::<
            ProgressView,
        >::empty(),
    decreases events.len(),
{
    if events.len() > 0 {
        law_cancel_stops_between_images(cfg, images, separator, events.skip(1));
    }
}

/// A new image is taken only after word that the batch was not cancelled.
pub proof fn law_images_are_taken_only_when_not_cancelled(
    cfg: Config,
    images: Seq<PathView>,
    separator: Separator,
    state: WorkerState,
    event: WorkerEvent,
)
    ensures
        worker_next(cfg, images, separator, state, event).1.action is Claim <==> state
            == WorkerState::Asking && event == WorkerEvent::Cancelled(false),
        at_hand(state) is None && at_hand(worker_next(cfg, images, separator, state, event).0)
            is Some ==> state == WorkerState::Claiming,
{
}

/// A result that exists is left alone unless it is to be overwritten: the image counts as done,
/// is neither translated nor written, and the worker goes on.
pub proof fn law_existing_results_are_skipped(
    cfg: Config,
    images: Seq<PathView>,
    separator: Separator,
    i: usize,
)
    requires
        i < images.len(),
        !cfg.overwrite,
    ensures
        worker_next(
            cfg,
            images,
            separator,
            WorkerState::Checking(i),
            WorkerEvent::Exists(true),
        ) == (
            WorkerState::Asking,
            WorkerStepView {
                report: Some(
                    ProgressView::FileOk {
                        idx: i,
                        name: image_name(cfg, images[i as int]),
                        path: result_path(cfg, images[i as int], separator),
                        bytes: 0,
                        skipped: true,
                    },
                ),
                action: WorkerActionView::AskCancelled,
            },
        ),
{
}

/// A translated image is saved at once, as it came, before anything else is done.
pub proof fn law_results_are_saved_at_once(
    cfg: Config,
    images: Seq<PathView>,
    separator: Separator,
    i: usize,
    bytes: Vec<u8>,
)
    requires
        i < images.len(),
    ensures
        worker_next(
            cfg,
            images,
            separator,
            WorkerState::Translating(i),
            WorkerEvent::Translated(Ok(bytes)),
        ).1.action == (WorkerActionView::Save {
            path: result_path(cfg, images[i as int], separator),
            bytes: bytes@,
        }),
{
}

/// A worker reports beginnings and ends of images and remarks, and never ends the batch.
pub proof fn law_workers_give_no_verdict(
    cfg: Config,
    images: Seq<PathView>,
    separator: Separator,
    state: WorkerState,
    event: WorkerEvent,
)
    ensures
        worker_next(cfg, images, separator, state, event).1.report matches Some(p) ==> (p
            is FileStart || p is FileOk || p is FileErr || p is Log),
{
}

/// The course of an image whose result is missing, or is to be made again: it is announced, the
/// directory of its result is made, it is translated, and what comes of that is saved as the
/// result and reported with its size. Then the worker pauses and turns to the next image.
pub proof fn law_course_of_an_image(
    cfg: Config,
    images: Seq<PathView>,
    separator: Separator,
    i: usize,
    there: bool,
    bytes: Vec<u8>,
    dir: PathView,
)
    requires
        i < images.len() <= usize::MAX,
        !there || cfg.overwrite,
        parent_of(result_path(cfg, images[i as int], separator)) == Some(dir),
    ensures
        ({
            let image = images[i as int];
            let result = result_path(cfg, image, separator);
            let name = path_text(relative_or_whole(cfg.input@, image));
            let (s1, begun) = worker_next(
                cfg,
                images,
                separator,
                WorkerState::Claiming,
                WorkerEvent::Claimed(i),
            );
            let (s2, looked) = worker_next(
                cfg,
                images,
                separator,
                s1,
                WorkerEvent::Exists(there),
            );
            let (s3, made) = worker_next(
                cfg,
                images,
                separator,
                s2,
                WorkerEvent::DirMade(Ok(())),
            );
            let (s4, translated) = worker_next(
                cfg,
                images,
                separator,
                s3,
                WorkerEvent::Translated(Ok(bytes)),
            );
            let (s5, saved) = worker_next(cfg, images, separator, s4, WorkerEvent::Saved(Ok(())));
            let (s6, rested) = worker_next(cfg, images, separator, s5, WorkerEvent::Slept);
            &&& begun.report == Some(
                ProgressView::FileStart { idx: i, total: images.len() as usize, name },
            )
            &&& begun.action == WorkerActionView::CheckExists(result)
            &&& looked.report is None && looked.action == WorkerActionView::MakeDir(dir)
            &&& made.report is None && made.action == WorkerActionView::Translate(image)
            &&& translated.report is None
            &&& translated.action == (WorkerActionView::Save { path: result, bytes: bytes@ })
            &&& saved.report == Some(
                ProgressView::FileOk {
                    idx: i,
                    name,
                    path: result,
                    bytes: bytes@.len() as usize,
                    skipped: false,
                },
            )
            &&& saved.action == WorkerActionView::Sleep(400)
            &&& rested.report is None && rested.action == WorkerActionView::AskCancelled
        }),
{
    let len = bytes@.len() as usize;
    assert(worker_next(
        cfg,
        images,
        separator,
        WorkerState::Claiming,
        WorkerEvent::Claimed(i),
    ).0 == WorkerState::Checking(i));
    assert(worker_next(
        cfg,
        images,
        separator,
        WorkerState::Checking(i),
        WorkerEvent::Exists(there),
    ).0 == WorkerState::MakingDir(i));
    assert(worker_next(
        cfg,
        images,
        separator,
        WorkerState::MakingDir(i),
        WorkerEvent::DirMade(Ok(())),
    ).0 == WorkerState::Translating(i));
    assert(worker_next(
        cfg,
        images,
        separator,
        WorkerState::Translating(i),
        WorkerEvent::Translated(Ok(bytes)),
    ).0 == WorkerState::Saving(i, len));
    assert(worker_next(
        cfg,
        images,
        separator,
        WorkerState::Saving(i, len),
        WorkerEvent::Saved(Ok(())),
    ).0 == WorkerState::Pausing);
}

/// A worker stops for one of three reasons and for no other: it got no tab, the batch was
/// cancelled, or no image is left. A failed image is none.
pub proof fn law_worker_stops_for_a_reason(
    cfg: Config,
    images: Seq<PathView>,
    separator: Separator,
    state: WorkerState,
    event: WorkerEvent,
)
    requires
        state != WorkerState::Stopped,
    ensures
        ({
            let (after, step) = worker_next(cfg, images, separator, state, event);
            let reason = {
                ||| state == WorkerState::Opening && (event matches WorkerEvent::TabOpened(r) && r
                    is Err)
                ||| state == WorkerState::Asking && event == WorkerEvent::Cancelled(true)
                ||| state == WorkerState::Claiming && (event matches WorkerEvent::Claimed(i) && i
                    >= images.len())
            };
            &&& after == WorkerState::Stopped <==> reason
            &&& step.action is Stop <==> reason
        }),
{
}

/// What fails is told: an image that fails is reported with the reason, under its position and
/// name, and the worker goes on.
pub proof fn law_failed_images_are_told(
    cfg: Config,
    images: Seq<PathView>,
    separator: Separator,
    i: usize,
    len: usize,
    e: String,
    error: TranslateError,
)
    requires
        i < images.len(),
    ensures
        ({
            let name = path_text(relative_or_whole(cfg.input@, images[i as int]));
            let (s1, undone) = worker_next(
                cfg,
                images,
                separator,
                WorkerState::MakingDir(i),
                WorkerEvent::DirMade(Err(e)),
            );
            let (s2, untranslated) = worker_next(
                cfg,
                images,
                separator,
                WorkerState::Translating(i),
                WorkerEvent::Translated(Err(error)),
            );
            let (s3, unsaved) = worker_next(
                cfg,
                images,
                separator,
                WorkerState::Saving(i, len),
                WorkerEvent::Saved(Err(e)),
            );
            &&& undone.report == Some(
                ProgressView::FileErr { idx: i, name, error: "创建输出子目录失败: "@ + e@ },
            )
            &&& undone.action == WorkerActionView::AskCancelled
            &&& untranslated.report == Some(
                ProgressView::FileErr { idx: i, name, error: error_message(error@) },
            )
            &&& untranslated.action == WorkerActionView::Sleep(400)
            &&& unsaved.report == Some(
                ProgressView::FileErr { idx: i, name, error: "保存失败: "@ + e@ },
            )
            &&& unsaved.action == WorkerActionView::Sleep(400)
            &&& worker_next(cfg, images, separator, s2, WorkerEvent::Slept).1.action
                == WorkerActionView::AskCancelled
            &&& worker_next(cfg, images, separator, s3, WorkerEvent::Slept).1.action
                == WorkerActionView::AskCancelled
        }),
{
}

/// A worker with a tab asks whether the batch was cancelled before it takes an image; without
/// one it tells why and stops.
pub proof fn law_worker_begins_with_its_tab(
    cfg: Config,
    images: Seq<PathView>,
    separator: Separator,
    e: String,
)
    ensures
        ({
            let (asking, step) = worker_next(
                cfg,
                images,
                separator,
                WorkerState::Opening,
                WorkerEvent::TabOpened(Ok(())),
            );
            let (_, failed) = worker_next(
                cfg,
                images,
                separator,
                WorkerState::Opening,
                WorkerEvent::TabOpened(Err(e)),
            );
            &&& step.action == WorkerActionView::AskCancelled && step.report is None
            &&& worker_next(
                cfg,
                images,
                separator,
                asking,
                WorkerEvent::Cancelled(false),
            ).1.action == WorkerActionView::Claim
            &&& failed.action == WorkerActionView::Stop
            &&& failed.report == Some(ProgressView::Log("创建标签页失败："@ + e@))
        }),
{
}

} // verus!
