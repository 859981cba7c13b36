//! A batch from its first check to its last report.

use crate::config::{lemma_count_short, reports_view, Config, Progress, ProgressView};
use crate::path::{path_text, show_path};
use crate::text::{chain, decimal, decimal_text};
use vstd::prelude::*;

verus! {

/// What a batch waits for.
#[derive(Clone, Copy, PartialEq, Eq, Structural)]
pub enum BatchStage {
    /// Word on whether the input is a directory.
    CheckingInput,
    /// The output directory.
    MakingOutput,
    /// The images.
    Collecting,
    /// The browser with this number, counted from 0.
    Launching(usize),
    /// The reports of the workers.
    Working,
    /// Nothing.
    Finished,
}

/// A batch under way.
#[derive(Clone, Copy, PartialEq, Eq, Structural)]
pub struct Batch {
    pub stage: BatchStage,
    /// The number of browsers, once the images are known.
    pub browsers: usize,
    /// How many images were reported as done.
    pub ok: usize,
    /// How many images were reported as failed.
    pub failed: usize,
}

/// What came of the last action.
pub enum BatchEvent {
    /// Whether the input is a directory.
    InputChecked(bool),
    /// The output directory was made.
    OutputMade(Result<(), String>),
    /// The images were collected: so many.
    Collected(Result<usize, String>),
    /// A browser was launched.
    Launched(Result<(), String>),
    /// A worker reported something.
    Reported(Progress),
    /// All workers have stopped.
    WorkersDone,
}

/// What is to be done next.
#[derive(Clone, Copy, PartialEq, Eq, Structural)]
pub enum BatchAction {
    /// Keep waiting: what came was not what is waited for.
    Wait,
    /// Make the output directory.
    MakeOutput,
    /// Collect the images.
    Collect,
    /// Launch a browser.
    Launch,
    /// Start a worker for each browser, then wait for a report.
    StartWorkers,
    /// Wait for a report, or for the end of all workers.
    Receive,
    /// Close what is open and stop.
    Stop,
}

/// What a step of a batch gives.
pub struct BatchStep {
    pub reports: Vec<Progress>,
    pub action: BatchAction,
}

/// The mathematical value of a [`BatchStep`].
#[verifier::ext_equal]
pub struct BatchStepView {
    pub reports: Seq<ProgressView>,
    pub action: BatchAction,
}

impl View for BatchStep {
    type V = BatchStepView;

    open spec fn view(&self) -> BatchStepView {
        BatchStepView { reports: reports_view(self.reports@), action: self.action }
    }
}

/// How many browsers a batch uses: as many as asked for, but at least 1, at most 8, and no more
/// than there are images.
pub open spec fn browser_count(concurrency: usize, total: usize) -> usize {
    let asked: usize = if concurrency < 1 {
        1
    } else if concurrency > 8 {
        8
    } else {
        concurrency
    };
    if asked < total {
        asked
    } else {
        total
    }
}

/// How many browsers a batch uses.
pub fn count_browsers(concurrency: usize, total: usize) -> (n: usize)
    ensures
        n == browser_count(concurrency, total),
{
    let asked: usize = if concurrency < 1 {
        1
    } else if concurrency > 8 {
        8
    } else {
        concurrency
    };
    if asked < total {
        asked
    } else {
        total
    }
}

/// A batch that has just been asked for.
pub open spec fn new_batch() -> Batch {
    Batch { stage: BatchStage::CheckingInput, browsers: 0, ok: 0, failed: 0 }
}

/// A batch that has just been asked for.
pub fn start_batch() -> (batch: Batch)
    ensures
        batch == new_batch(),
{
    Batch { stage: BatchStage::CheckingInput, browsers: 0, ok: 0, failed: 0 }
}

/// The end of a batch that cannot be carried out.
pub open spec fn abort(batch: Batch, message: Seq<char>) -> (Batch, BatchStepView) {
    (
        Batch { stage: BatchStage::Finished, ..batch },
        BatchStepView {
            reports: seq![ProgressView::Fatal(message)],
            action: BatchAction::Stop,
        },
    )
}

/// A step without a report.
pub open spec fn silently(batch: Batch, stage: BatchStage, action: BatchAction) -> (
    Batch,
    BatchStepView,
) {
    (Batch { stage, ..batch }, BatchStepView { reports: Seq::empty(), action })
}

/// The remark before the browsers are launched.
pub open spec fn launch_remark(browsers: usize, headless: bool) -> Seq<char> {
    "启动 "@ + decimal(browsers as nat) + " 个浏览器（"@ + (if headless {
        "无头"@
    } else {
        "可见窗口"@
    }) + "）..."@
}

/// What follows once `total` images are collected.
pub open spec fn after_collecting(cfg: Config, batch: Batch, total: usize) -> (
    Batch,
    BatchStepView,
) {
    if total == 0 {
        (
            Batch { stage: BatchStage::Finished, ..batch },
            BatchStepView {
                reports: seq![
                    ProgressView::Total(0),
                    ProgressView::Log("输入目录里没有支持的图片（jpg/jpeg/png/webp）。"@),
                    ProgressView::Done { ok: 0, failed: 0 },
                ],
                action: BatchAction::Stop,
            },
        )
    } else {
        let browsers = browser_count(cfg.concurrency, total);
        (
            Batch { stage: BatchStage::Launching(0), browsers, ..batch },
            BatchStepView {
                reports: seq![
                    ProgressView::Total(total),
                    ProgressView::Log(launch_remark(browsers, cfg.headless)),
                ],
                action: BatchAction::Launch,
            },
        )
    }
}

/// The batch after it has counted a report.
pub open spec fn counted(batch: Batch, report: ProgressView) -> Batch {
    match report {
        ProgressView::FileOk { .. } => Batch { ok: (batch.ok + 1) as usize, ..batch },
        ProgressView::FileErr { .. } => Batch { failed: (batch.failed + 1) as usize, ..batch },
        _ => batch,
    }
}

/// The counts of a batch can take one more.
pub open spec fn has_room(batch: Batch) -> bool {
    batch.ok < usize::MAX && batch.failed < usize::MAX
}

/// What follows `event` in a batch: the input is checked, the output directory made, the images
/// are collected, the browsers launched, and then the reports of the workers are counted and
/// passed on until all have stopped. An event that does not fit the stage changes nothing.
pub open spec fn batch_next(cfg: Config, batch: Batch, event: BatchEvent) -> (
    Batch,
    BatchStepView,
) {
    match (batch.stage, event) {
        (BatchStage::CheckingInput, BatchEvent::InputChecked(is_dir)) => if is_dir {
            silently(batch, BatchStage::MakingOutput, BatchAction::MakeOutput)
        } else {
            abort(batch, "输入目录不存在: "@ + path_text(cfg.input@))
        },
        (BatchStage::MakingOutput, BatchEvent::OutputMade(r)) => match r {
            Ok(_) => silently(batch, BatchStage::Collecting, BatchAction::Collect),
            Err(e) => abort(batch, "无法创建输出目录: "@ + e@),
        },
        (BatchStage::Collecting, BatchEvent::Collected(r)) => match r {
            Ok(total) => after_collecting(cfg, batch, total),
            Err(e) => abort(batch, "读取输入目录失败: "@ + e@),
        },
        (BatchStage::Launching(k), BatchEvent::Launched(r)) => match r {
            Ok(_) => if k + 1 < batch.browsers {
                silently(batch, BatchStage::Launching((k + 1) as usize), BatchAction::Launch)
            } else {
                silently(batch, BatchStage::Working, BatchAction::StartWorkers)
            },
            Err(e) => abort(
                batch,
                "启动第 "@ + decimal((k + 1) as nat) + " 个 Chrome 失败："@ + e@,
            ),
        },
        (BatchStage::Working, BatchEvent::Reported(p)) => (
            counted(batch, p@),
            BatchStepView { reports: seq![p@], action: BatchAction::Receive },
        ),
        (BatchStage::Working, BatchEvent::WorkersDone) => (
            Batch { stage: BatchStage::Finished, ..batch },
            BatchStepView {
                reports: seq![ProgressView::Done { ok: batch.ok, failed: batch.failed }],
                action: BatchAction::Stop,
            },
        ),
        _ => (batch, BatchStepView { reports: Seq::empty(), action: BatchAction::Wait }),
    }
}

/// The browser being launched is one of those that are used.
pub open spec fn sound(batch: Batch) -> bool {
    batch.stage matches BatchStage::Launching(k) ==> k < batch.browsers <= 8
}

/// One report and what is to be done next.
fn one_report(p: Progress, action: BatchAction) -> (step: BatchStep)
    ensures
        step@ == (BatchStepView { reports: seq![p@], action }),
{
    let mut reports: Vec<Progress> = Vec::new();
    reports.push(p);
    let step = BatchStep { reports, action };
    assert(step@.reports =~= seq![p@]);
    step
}

/// No report, and what is to be done next.
fn no_report(action: BatchAction) -> (step: BatchStep)
    ensures
        step@ == (BatchStepView { reports: Seq::empty(), action }),
{
    let step = BatchStep { reports: Vec::new(), action };
    assert(step@.reports =~= Seq::empty());
    step
}

/// Ends a batch that cannot be carried out.
fn abort_with(batch: &mut Batch, message: String) -> (step: BatchStep)
    ensures
        (*final(batch), step@) == abort(*old(batch), message@),
{
    batch.stage = BatchStage::Finished;
    one_report(Progress::Fatal(message), BatchAction::Stop)
}

/// The remark before the browsers are launched.
fn write_launch_remark(browsers: usize, headless: bool) -> (s: String)
    ensures
        s@ == launch_remark(browsers, headless),
{
    let mut s = chain("启动 ", decimal_text(browsers).as_str());
    s.append(" 个浏览器（");
    if headless {
        s.append("无头");
    } else {
        s.append("可见窗口");
    }
    s.append("）...");
    s
}

/// Goes on once `total` images are collected.
fn begin(cfg: &Config, batch: &mut Batch, total: usize) -> (step: BatchStep)
    ensures
        (*final(batch), step@) == after_collecting(*cfg, *old(batch), total),
{
    let mut reports: Vec<Progress> = Vec::new();
    reports.push(Progress::Total(total));
    if total == 0 {
        batch.stage = BatchStage::Finished;
        reports.push(
            Progress::Log("输入目录里没有支持的图片（jpg/jpeg/png/webp）。".to_owned()),
        );
        reports.push(Progress::Done { ok: 0, failed: 0 });
        let step = BatchStep { reports, action: BatchAction::Stop };
        assert(step@.reports =~= after_collecting(*cfg, *old(batch), total).1.reports);
        step
    } else {
        let browsers: usize = count_browsers(cfg.concurrency, total);
        batch.stage = BatchStage::Launching(0);
        batch.browsers = browsers;
        reports.push(Progress::Log(write_launch_remark(browsers, cfg.headless)));
        let step = BatchStep { reports, action: BatchAction::Launch };
        assert(step@.reports =~= after_collecting(*cfg, *old(batch), total).1.reports);
        step
    }
}

/// Takes a batch a step further.
pub fn run_batch(cfg: &Config, batch: &mut Batch, event: BatchEvent) -> (step: BatchStep)
    requires
        sound(*old(batch)),
        event is Reported ==> has_room(*old(batch)),
    ensures
        (*final(batch), step@) == batch_next(*cfg, *old(batch), event),
        sound(*final(batch)),
{
    match (batch.stage, event) {
        (BatchStage::CheckingInput, BatchEvent::InputChecked(is_dir)) => {
            if is_dir {
                batch.stage = BatchStage::MakingOutput;
                no_report(BatchAction::MakeOutput)
            } else {
                let shown = show_path(&cfg.input);
                abort_with(batch, chain("输入目录不存在: ", shown.as_str()))
            }
        },
        (BatchStage::MakingOutput, BatchEvent::OutputMade(r)) => match r {
            Ok(_) => {
                batch.stage = BatchStage::Collecting;
                no_report(BatchAction::Collect)
            },
            Err(e) => abort_with(batch, chain("无法创建输出目录: ", e.as_str())),
        },
        (BatchStage::Collecting, BatchEvent::Collected(r)) => match r {
            Ok(total) => begin(cfg, batch, total),
            Err(e) => abort_with(batch, chain("读取输入目录失败: ", e.as_str())),
        },
        (BatchStage::Launching(k), BatchEvent::Launched(r)) => match r {
            Ok(_) => {
                if k + 1 < batch.browsers {
                    batch.stage = BatchStage::Launching(k + 1);
                    no_report(BatchAction::Launch)
                } else {
                    batch.stage = BatchStage::Working;
                    no_report(BatchAction::StartWorkers)
                }
            },
            Err(e) => {
                let mut message = chain("启动第 ", decimal_text(k + 1).as_str());
                message.append(" 个 Chrome 失败：");
                message.append(e.as_str());
                abort_with(batch, message)
            },
        },
        (BatchStage::Working, BatchEvent::Reported(p)) => {
            match &p {
                Progress::FileOk { .. } => {
                    batch.ok = batch.ok + 1;
                },
                Progress::FileErr { .. } => {
                    batch.failed = batch.failed + 1;
                },
                _ => {},
            }
            one_report(p, BatchAction::Receive)
        },
        (BatchStage::Working, BatchEvent::WorkersDone) => {
            batch.stage = BatchStage::Finished;
            one_report(
                Progress::Done { ok: batch.ok, failed: batch.failed },
                BatchAction::Stop,
            )
        },
        _ => no_report(BatchAction::Wait),
    }
}

/// The state of a batch after a sequence of events.
pub open spec fn batch_after(cfg: Config, batch: Batch, events: Seq<BatchEvent>) -> Batch
    decreases events.len(),
{
    if events.len() == 0 {
        batch
    } else {
        batch_after(cfg, batch_next(cfg, batch, events[0]).0, events.skip(1))
    }
}

/// What a batch reports in the course of a sequence of events.
pub open spec fn batch_reports(cfg: Config, batch: Batch, events: Seq<BatchEvent>) -> Seq<
    ProgressView,
>
    decreases events.len(),
{
    if events.len() == 0 {
        Seq::empty()
    } else {
        let (after, step) = batch_next(cfg, batch, events[0]);
        step.reports + batch_reports(cfg, after, events.skip(1))
    }
}

/// A report that ends a batch.
pub open spec fn is_verdict(p: ProgressView) -> bool {
    p is Done || p is Fatal
}

/// How many reports end a batch.
pub open spec fn verdicts(reports: Seq<ProgressView>) -> nat {
    reports.filter(|p: ProgressView| is_verdict(p)).len()
}

/// How many reports say that an image is done.
pub open spec fn successes(reports: Seq<ProgressView>) -> nat {
    reports.filter(|p: ProgressView| p is FileOk).len()
}

/// How many reports say that an image failed.
pub open spec fn failures(reports: Seq<ProgressView>) -> nat {
    reports.filter(|p: ProgressView| p is FileErr).len()
}

/// A batch whose workers report no verdict gives exactly one, with which it ends: none before,
/// and nothing at all behind it.
pub proof fn law_batch_ends_with_one_verdict(cfg: Config, batch: Batch, events: Seq<BatchEvent>)
    requires
        forall|i: int|
            0 <= i < events.len() ==> ((#[trigger] events[i]) matches BatchEvent::Reported(p)
                ==> !is_verdict(p@)),
    ensures
        ({
            let reports = batch_reports(cfg, batch, events);
            let ended = batch_after(cfg, batch, events).stage == BatchStage::Finished;
            &&& batch.stage == BatchStage::Finished ==> ended && reports.len() == 0
            &&& batch.stage != BatchStage::Finished && ended ==> {
                &&& reports.len() > 0
                &&& is_verdict(reports.last())
                &&& verdicts(reports) == 1
            }
            &&& !ended ==> verdicts(reports) == 0
        }),
    decreases events.len(),
{
    reveal(Seq::filter);
    let verdict = |p: ProgressView| is_verdict(p);
    if events.len() > 0 {
        let (after, step) = batch_next(cfg, batch, events[0]);
        let rest = batch_reports(cfg, after, events.skip(1));
        assert forall|i: int| 0 <= i < events.skip(1).len() implies ((#[trigger] events.skip(
            1,
        )[i]) matches BatchEvent::Reported(p) ==> !is_verdict(p@)) by {
            assert(events.skip(1)[i] == events[i + 1]);
        }
        law_batch_ends_with_one_verdict(cfg, after, events.skip(1));
        Seq::filter_distributes_over_add(step.reports, rest, verdict);
        lemma_step_verdicts(cfg, batch, events[0]);
    }
}

/// A step gives a verdict exactly when it ends the batch, as its last report.
proof fn lemma_step_verdicts(cfg: Config, batch: Batch, event: BatchEvent)
    requires
        event matches BatchEvent::Reported(p) ==> !is_verdict(p@),
    ensures
        ({
            let (after, step) = batch_next(cfg, batch, event);
            if batch.stage != BatchStage::Finished && after.stage == BatchStage::Finished {
                &&& verdicts(step.reports) == 1
                &&& step.reports.len() > 0
                &&& is_verdict(step.reports.last())
            } else {
                verdicts(step.reports) == 0
            }
        }),
{
    reveal(Seq::filter);
    let verdict = |p: ProgressView| is_verdict(p);
    let reports = batch_next(cfg, batch, event).1.reports;
    lemma_count_short(reports, verdict);
}

/// The number of images comes first and once: a batch whose workers do not report it begins its
/// reports with it, unless it could not be carried out before the images were collected, and
/// then says only that.
pub proof fn law_total_comes_first(cfg: Config, events: Seq<BatchEvent>)
    requires
        forall|i: int|
            0 <= i < events.len() ==> ((#[trigger] events[i]) matches BatchEvent::Reported(p)
                ==> !(p@ is Total)),
    ensures
        ({
            let reports = batch_reports(cfg, new_batch(), events);
            &&& reports.len() > 0 ==> reports[0] is Total || (reports.len() == 1 && reports[0]
                is Fatal)
            &&& forall|i: int| 0 < i < reports.len() ==> !(#[trigger] reports[i] is Total)
        }),
{
    lemma_total_comes_first(cfg, new_batch(), events);
}

/// The images of a batch are not collected yet.
spec fn is_early(batch: Batch) -> bool {
    ||| batch.stage == BatchStage::CheckingInput
    ||| batch.stage == BatchStage::MakingOutput
    ||| batch.stage == BatchStage::Collecting
}

proof fn lemma_total_comes_first(cfg: Config, batch: Batch, events: Seq<BatchEvent>)
    requires
        forall|i: int|
            0 <= i < events.len() ==> ((#[trigger] events[i]) matches BatchEvent::Reported(p)
                ==> !(p@ is Total)),
    ensures
        ({
            let reports = batch_reports(cfg, batch, events);
            &&& is_early(batch) && reports.len() > 0 ==> reports[0] is Total || (reports.len()
                == 1 && reports[0] is Fatal)
            &&& batch.stage == BatchStage::Finished ==> reports.len() == 0
            &&& forall|i: int|
                0 <= i < reports.len() ==> (#[trigger] reports[i] is Total ==> i == 0
                    && is_early(batch))
        }),
    decreases events.len(),
{
    if events.len() > 0 {
        let (after, step) = batch_next(cfg, batch, events[0]);
        let later = events.skip(1);
        let rest = batch_reports(cfg, after, later);
        assert forall|i: int| 0 <= i < later.len() implies ((#[trigger] later[i]) matches
            BatchEvent::Reported(p) ==> !(p@ is Total)) by {
            assert(later[i] == events[i + 1]);
        }
        lemma_total_comes_first(cfg, after, later);
        let reports = step.reports + rest;
        assert forall|i: int| 0 <= i < reports.len() && #[trigger] reports[i] is Total implies i
            == 0 && is_early(batch) by {
            if i >= step.reports.len() {
                assert(reports[i] == rest[i - step.reports.len()]);
                assert(is_early(after));
            }
        }
    }
}

/// The counts of a batch are the numbers of images that it has reported as done and as failed,
/// and these are what its last report says.
pub proof fn law_done_counts_what_was_reported(cfg: Config, events: Seq<BatchEvent>)
    requires
        events.len() <= usize::MAX,
        batch_after(cfg, new_batch(), events).stage == BatchStage::Working,
    ensures
        ({
            let reports = batch_reports(cfg, new_batch(), events);
            let batch = batch_after(cfg, new_batch(), events);
            &&& batch.ok == successes(reports)
            &&& batch.failed == failures(reports)
            &&& batch_next(cfg, batch, BatchEvent::WorkersDone).1.reports == seq![
                ProgressView::Done { ok: batch.ok, failed: batch.failed },
            ]
        }),
{
    lemma_counts(cfg, new_batch(), events);
}

proof fn lemma_counts(cfg: Config, batch: Batch, events: Seq<BatchEvent>)
    requires
        batch.ok + events.len() <= usize::MAX,
        batch.failed + events.len() <= usize::MAX,
    ensures
        batch_after(cfg, batch, events).ok == batch.ok + successes(
            batch_reports(cfg, batch, events),
        ),
        batch_after(cfg, batch, events).failed == batch.failed + failures(
            batch_reports(cfg, batch, events),
        ),
    decreases events.len(),
{
    let ok = |p: ProgressView| p is FileOk;
    let failed = |p: ProgressView| p is FileErr;
    reveal(Seq::filter);
    if events.len() > 0 {
        let (after, step) = batch_next(cfg, batch, events[0]);
        let rest = batch_reports(cfg, after, events.skip(1));
        lemma_count_short(step.reports, ok);
        lemma_count_short(step.reports, failed);
        lemma_counts(cfg, after, events.skip(1));
        Seq::filter_distributes_over_add(step.reports, rest, ok);
        Seq::filter_distributes_over_add(step.reports, rest, failed);
    }
}

/// Events in two parts lead where the second part leads from the end of the first.
pub proof fn lemma_batch_in_parts(
    cfg: Config,
    batch: Batch,
    first: Seq<BatchEvent>,
    second: Seq<BatchEvent>,
)
    ensures
        batch_after(cfg, batch, first + second) == batch_after(
            cfg,
            batch_after(cfg, batch, first),
            second,
        ),
        batch_reports(cfg, batch, first + second) == batch_reports(cfg, batch, first)
            + batch_reports(cfg, batch_after(cfg, batch, first), second),
    decreases first.len(),
{
    if first.len() == 0 {
        assert(first + second =~= second);
        assert(batch_reports(cfg, batch, first + second) =~= Seq::<ProgressView>::empty()
            + batch_reports(cfg, batch, second));
    } else {
        let (after, step) = batch_next(cfg, batch, first[0]);
        assert((first + second)[0] == first[0]);
        assert((first + second).skip(1) =~= first.skip(1) + second);
        lemma_batch_in_parts(cfg, after, first.skip(1), second);
        assert(batch_reports(cfg, batch, first + second) =~= batch_reports(cfg, batch, first)
            + batch_reports(cfg, batch_after(cfg, batch, first), second));
    }
}

/// A working batch passes on what its workers report, and counts it.
proof fn lemma_batch_passes_reports_on(
    cfg: Config,
    batch: Batch,
    events: Seq<BatchEvent>,
    reports: Seq<ProgressView>,
)
    requires
        batch.stage == BatchStage::Working,
        events.len() == reports.len(),
        forall|i: int|
            0 <= i < events.len() ==> (#[trigger] events[i] matches BatchEvent::Reported(p) && p@
                == reports[i]),
        batch.ok + successes(reports) <= usize::MAX,
        batch.failed + failures(reports) <= usize::MAX,
    ensures
        batch_reports(cfg, batch, events) == reports,
        batch_after(cfg, batch, events) == (Batch {
            ok: (batch.ok + successes(reports)) as usize,
            failed: (batch.failed + failures(reports)) as usize,
            ..batch
        }),
    decreases events.len(),
{
    let ok = |p: ProgressView| p is FileOk;
    let failed = |p: ProgressView| p is FileErr;
    lemma_count_short(Seq::empty(), ok);
    lemma_count_short(Seq::empty(), failed);
    if events.len() == 0 {
        assert(reports =~= Seq::empty());
    } else {
        let rest = reports.skip(1);
        let later = events.skip(1);
        assert(events[0] is Reported);
        assert(reports =~= seq![reports[0]] + rest);
        Seq::filter_distributes_over_add(seq![reports[0]], rest, ok);
        Seq::filter_distributes_over_add(seq![reports[0]], rest, failed);
        lemma_count_short(seq![reports[0]], ok);
        lemma_count_short(seq![reports[0]], failed);
        assert forall|i: int| 0 <= i < later.len() implies (#[trigger] later[i] matches
            BatchEvent::Reported(p) && p@ == rest[i]) by {
            assert(later[i] == events[i + 1]);
        }
        let after = batch_next(cfg, batch, events[0]).0;
        lemma_batch_passes_reports_on(cfg, after, later, rest);
    }
}

/// The events of a batch of `total` images that is carried out: all goes well until the workers
/// start, then they report, and at last all have stopped.
pub open spec fn is_full_course(
    cfg: Config,
    total: usize,
    events: Seq<BatchEvent>,
    reports: Seq<ProgressView>,
) -> bool {
    let browsers = browser_count(cfg.concurrency, total) as int;
    &&& events.len() == 4 + browsers + reports.len()
    &&& events[0] == BatchEvent::InputChecked(true)
    &&& events[1] matches BatchEvent::OutputMade(r) && r is Ok
    &&& events[2] == BatchEvent::Collected(Ok(total))
    &&& forall|i: int|
        3 <= i < 3 + browsers ==> (#[trigger] events[i] matches BatchEvent::Launched(r) && r is Ok)
    &&& forall|i: int|
        3 + browsers <= i < 3 + browsers + reports.len() ==> (#[trigger] events[i] matches
            BatchEvent::Reported(p) && p@ == reports[i - 3 - browsers])
    &&& events.last() == BatchEvent::WorkersDone
}

/// A batch that is carried out reports the number of images, a remark, what its workers report,
/// and at last how many images they reported as done and as failed.
pub proof fn law_full_course(
    cfg: Config,
    total: usize,
    events: Seq<BatchEvent>,
    reports: Seq<ProgressView>,
)
    requires
        total > 0,
        is_full_course(cfg, total, events, reports),
        successes(reports) <= usize::MAX,
        failures(reports) <= usize::MAX,
    ensures
        batch_reports(cfg, new_batch(), events) == seq![
            ProgressView::Total(total),
            ProgressView::Log(
                launch_remark(browser_count(cfg.concurrency, total), cfg.headless),
            ),
        ] + reports + seq![
            ProgressView::Done {
                ok: successes(reports) as usize,
                failed: failures(reports) as usize,
            },
        ],
        batch_after(cfg, new_batch(), events).stage == BatchStage::Finished,
{
    let browsers = browser_count(cfg.concurrency, total) as int;
    let opening = events.subrange(0, 3);
    let launches = events.subrange(3, 3 + browsers);
    let told = events.subrange(3 + browsers, 3 + browsers + reports.len());
    let closing = events.subrange(events.len() - 1, events.len() as int);
    assert(events =~= opening + (launches + (told + closing)));
    let begun = after_collecting(
        cfg,
        Batch { stage: BatchStage::Collecting, ..new_batch() },
        total,
    );
    assert(batch_after(cfg, new_batch(), opening) == begun.0 && batch_reports(
        cfg,
        new_batch(),
        opening,
    ) == begun.1.reports) by {
        reveal_with_fuel(batch_after, 4);
        reveal_with_fuel(batch_reports, 4);
        assert(opening.skip(1)[0] == events[1]);
        assert(opening.skip(1).skip(1)[0] == events[2]);
        assert(opening.skip(1).skip(1).skip(1).len() == 0);
        assert(batch_reports(cfg, new_batch(), opening) =~= begun.1.reports);
    }
    lemma_batch_in_parts(cfg, new_batch(), opening, launches + (told + closing));
    assert forall|i: int| 0 <= i < launches.len() implies (#[trigger] launches[i] matches
        BatchEvent::Launched(r) && r is Ok) by {
        assert(launches[i] == events[i + 3]);
    }
    lemma_launching(cfg, begun.0, 0, launches);
    let working = Batch { stage: BatchStage::Working, ..begun.0 };
    lemma_batch_in_parts(cfg, begun.0, launches, told + closing);
    assert forall|i: int| 0 <= i < told.len() implies (#[trigger] told[i] matches
        BatchEvent::Reported(p) && p@ == reports[i]) by {
        assert(told[i] == events[i + 3 + browsers]);
    }
    lemma_batch_passes_reports_on(cfg, working, told, reports);
    lemma_batch_in_parts(cfg, working, told, closing);
    let last = batch_after(cfg, working, told);
    assert(closing.len() == 1 && closing[0] == BatchEvent::WorkersDone);
    assert(closing.skip(1).len() == 0);
    reveal_with_fuel(batch_after, 2);
    reveal_with_fuel(batch_reports, 2);
    assert(batch_reports(cfg, last, closing) =~= seq![
        ProgressView::Done { ok: last.ok, failed: last.failed },
    ]);
    assert(batch_reports(cfg, new_batch(), events) =~= seq![
        ProgressView::Total(total),
        ProgressView::Log(launch_remark(browser_count(cfg.concurrency, total), cfg.headless)),
    ] + reports + seq![
        ProgressView::Done {
            ok: successes(reports) as usize,
            failed: failures(reports) as usize,
        },
    ]);
}

/// A batch without images reports that there are none, a remark, and that nothing was done, and
/// is over before a browser is launched.
pub proof fn law_batch_without_images(cfg: Config, events: Seq<BatchEvent>)
    requires
        events.len() == 3,
        events[0] == BatchEvent::InputChecked(true),
        events[1] matches BatchEvent::OutputMade(r) && r is Ok,
        events[2] == BatchEvent::Collected(Ok(0)),
    ensures
        batch_reports(cfg, new_batch(), events) == seq![
            ProgressView::Total(0),
            ProgressView::Log("输入目录里没有支持的图片（jpg/jpeg/png/webp）。"@),
            ProgressView::Done { ok: 0, failed: 0 },
        ],
        batch_after(cfg, new_batch(), events).stage == BatchStage::Finished,
{
    reveal_with_fuel(batch_after, 4);
    reveal_with_fuel(batch_reports, 4);
    assert(events.skip(1)[0] == events[1]);
    assert(events.skip(1).skip(1)[0] == events[2]);
    assert(events.skip(1).skip(1).skip(1).len() == 0);
    assert(batch_reports(cfg, new_batch(), events) =~= after_collecting(
        cfg,
        Batch { stage: BatchStage::Collecting, ..new_batch() },
        0,
    ).1.reports);
}

/// A batch with images uses between 1 and 8 browsers, no more than there are images, and just
/// as many as asked for within these limits.
pub proof fn law_browser_count_is_limited(concurrency: usize, total: usize)
    requires
        total > 0,
    ensures
        1 <= browser_count(concurrency, total) <= 8,
        browser_count(concurrency, total) <= total,
        1 <= concurrency <= 8 && concurrency <= total ==> browser_count(concurrency, total)
            == concurrency,
{
}

/// The workers start when exactly the counted browsers are launched, not before.
pub proof fn law_workers_start_with_all_browsers(
    cfg: Config,
    batch: Batch,
    total: usize,
    launches: Seq<BatchEvent>,
)
    requires
        total > 0,
        launches.len() <= browser_count(cfg.concurrency, total),
        forall|i: int|
            0 <= i < launches.len() ==> (#[trigger] launches[i] matches BatchEvent::Launched(r)
                && r is Ok),
    ensures
        ({
            let begun = after_collecting(cfg, batch, total).0;
            batch_after(cfg, begun, launches).stage == if launches.len() < begun.browsers {
                BatchStage::Launching(launches.len() as usize)
            } else {
                BatchStage::Working
            }
        }),
{
    lemma_launching(cfg, after_collecting(cfg, batch, total).0, 0, launches);
}

proof fn lemma_launching(cfg: Config, batch: Batch, k: usize, launches: Seq<BatchEvent>)
    requires
        batch.stage == BatchStage::Launching(k),
        k < batch.browsers,
        k + launches.len() <= batch.browsers,
        forall|i: int|
            0 <= i < launches.len() ==> (#[trigger] launches[i] matches BatchEvent::Launched(r)
                && r is Ok),
    ensures
        batch_after(cfg, batch, launches) == (Batch {
            stage: if k + launches.len() < batch.browsers {
                BatchStage::Launching((k + launches.len()) as usize)
            } else {
                BatchStage::Working
            },
            ..batch
        }),
        batch_reports(cfg, batch, launches) == Seq::<ProgressView>::empty(),
    decreases launches.len(),
{
    if launches.len() == 0 {
        assert(batch_after(cfg, batch, launches) == batch);
    } else {
        assert(launches[0] is Launched);
        let after = batch_next(cfg, batch, launches[0]).0;
        let rest = launches.skip(1);
        assert forall|i: int| 0 <= i < rest.len() implies (#[trigger] rest[i] matches
            BatchEvent::Launched(r) && r is Ok) by {
            assert(rest[i] == launches[i + 1]);
        }
        if k + 1 < batch.browsers {
            assert(after == (Batch { stage: BatchStage::Launching((k + 1) as usize), ..batch }));
            lemma_launching(cfg, after, (k + 1) as usize, rest);
        } else {
            assert(after == (Batch { stage: BatchStage::Working, ..batch }));
            assert(rest.len() == 0);
            assert(batch_after(cfg, after, rest) == after);
        }
        assert(batch_after(cfg, batch, launches) == batch_after(cfg, after, rest));
        assert(batch_reports(cfg, batch, launches) =~= batch_reports(cfg, after, rest));
    }
}

/// What a batch is told to do in the course of a sequence of events.
pub open spec fn batch_actions(cfg: Config, batch: Batch, events: Seq<BatchEvent>) -> Seq<
    BatchAction,
>
    decreases events.len(),
{
    if events.len() == 0 {
        Seq::empty()
    } else {
        let (after, step) = batch_next(cfg, batch, events[0]);
        seq![step.action] + batch_actions(cfg, after, events.skip(1))
    }
}

/// What follows an event, by its kind and by how many events have come before it, in a batch
/// that is carried out with so many browsers.
pub open spec fn is_due(action: BatchAction, i: int, browsers: int, told: int) -> bool {
    if i == 0 {
        action == BatchAction::MakeOutput
    } else if i == 1 {
        action == BatchAction::Collect
    } else if i < 2 + browsers {
        action == BatchAction::Launch
    } else if i == 2 + browsers {
        action == BatchAction::StartWorkers
    } else if i < 3 + browsers + told {
        action == BatchAction::Receive
    } else {
        action == BatchAction::Stop
    }
}

proof fn lemma_actions_in_parts(
    cfg: Config,
    batch: Batch,
    first: Seq<BatchEvent>,
    second: Seq<BatchEvent>,
)
    ensures
        batch_actions(cfg, batch, first + second) == batch_actions(cfg, batch, first)
            + batch_actions(cfg, batch_after(cfg, batch, first), second),
        batch_actions(cfg, batch, first).len() == first.len(),
    decreases first.len(),
{
    if first.len() == 0 {
        assert(first + second =~= second);
        assert(batch_actions(cfg, batch, first + second) =~= Seq::<BatchAction>::empty()
            + batch_actions(cfg, batch, second));
    } else {
        let after = batch_next(cfg, batch, first[0]).0;
        assert((first + second)[0] == first[0]);
        assert((first + second).skip(1) =~= first.skip(1) + second);
        lemma_actions_in_parts(cfg, after, first.skip(1), second);
        assert(batch_actions(cfg, batch, first + second) =~= batch_actions(cfg, batch, first)
            + batch_actions(cfg, batch_after(cfg, batch, first), second));
    }
}

/// In its course a batch checks its input, makes the output directory, collects the images,
/// launches its browsers one after the other, starts the workers, and takes their reports in
/// until all have stopped.
pub proof fn law_full_course_of_actions(
    cfg: Config,
    total: usize,
    events: Seq<BatchEvent>,
    reports: Seq<ProgressView>,
    i: int,
)
    requires
        total > 0,
        is_full_course(cfg, total, events, reports),
        successes(reports) <= usize::MAX,
        failures(reports) <= usize::MAX,
        0 <= i < events.len(),
    ensures
        batch_actions(cfg, new_batch(), events).len() == events.len(),
        is_due(
            batch_actions(cfg, new_batch(), events)[i],
            i,
            browser_count(cfg.concurrency, total) as int,
            reports.len() as int,
        ),
{
    let browsers = browser_count(cfg.concurrency, total) as int;
    let opening = events.subrange(0, 3);
    let launches = events.subrange(3, 3 + browsers);
    let told = events.subrange(3 + browsers, 3 + browsers + reports.len());
    let closing = events.subrange(events.len() - 1, events.len() as int);
    assert(events =~= opening + (launches + (told + closing)));
    let begun = after_collecting(
        cfg,
        Batch { stage: BatchStage::Collecting, ..new_batch() },
        total,
    ).0;
    assert(batch_after(cfg, new_batch(), opening) == begun && batch_actions(
        cfg,
        new_batch(),
        opening,
    ) == seq![BatchAction::MakeOutput, BatchAction::Collect, BatchAction::Launch]) by {
        reveal_with_fuel(batch_after, 4);
        reveal_with_fuel(batch_actions, 4);
        assert(opening.skip(1)[0] == events[1]);
        assert(opening.skip(1).skip(1)[0] == events[2]);
        assert(opening.skip(1).skip(1).skip(1).len() == 0);
        assert(batch_actions(cfg, new_batch(), opening) =~= seq![
            BatchAction::MakeOutput,
            BatchAction::Collect,
            BatchAction::Launch,
        ]);
    }
    lemma_actions_in_parts(cfg, new_batch(), opening, launches + (told + closing));
    assert forall|k: int| 0 <= k < launches.len() implies (#[trigger] launches[k] matches
        BatchEvent::Launched(r) && r is Ok) by {
        assert(launches[k] == events[k + 3]);
    }
    lemma_launching(cfg, begun, 0, launches);
    lemma_launch_actions(cfg, begun, 0, launches);
    lemma_actions_in_parts(cfg, begun, launches, told + closing);
    let working = Batch { stage: BatchStage::Working, ..begun };
    assert forall|k: int| 0 <= k < told.len() implies (#[trigger] told[k] matches
        BatchEvent::Reported(p) && p@ == reports[k]) by {
        assert(told[k] == events[k + 3 + browsers]);
    }
    lemma_batch_passes_reports_on(cfg, working, told, reports);
    lemma_receive_actions(cfg, working, told);
    lemma_actions_in_parts(cfg, working, told, closing);
    let last = batch_after(cfg, working, told);
    assert(closing.len() == 1 && closing[0] == BatchEvent::WorkersDone);
    reveal_with_fuel(batch_actions, 2);
    assert(closing.skip(1).len() == 0);
    assert(batch_actions(cfg, last, closing) =~= seq![BatchAction::Stop]);
}

proof fn lemma_launch_actions(cfg: Config, batch: Batch, k: usize, launches: Seq<BatchEvent>)
    requires
        batch.stage == BatchStage::Launching(k),
        k < batch.browsers,
        k + launches.len() == batch.browsers,
        forall|i: int|
            0 <= i < launches.len() ==> (#[trigger] launches[i] matches BatchEvent::Launched(r)
                && r is Ok),
    ensures
        batch_actions(cfg, batch, launches).len() == launches.len(),
        forall|i: int|
            0 <= i < launches.len() ==> #[trigger] batch_actions(cfg, batch, launches)[i] == if i
                == launches.len() - 1 {
                BatchAction::StartWorkers
            } else {
                BatchAction::Launch
            },
    decreases launches.len(),
{
    assert(launches[0] is Launched);
    let after = batch_next(cfg, batch, launches[0]).0;
    let rest = launches.skip(1);
    assert forall|i: int| 0 <= i < rest.len() implies (#[trigger] rest[i] matches
        BatchEvent::Launched(r) && r is Ok) by {
        assert(rest[i] == launches[i + 1]);
    }
    if k + 1 < batch.browsers {
        assert(after == (Batch { stage: BatchStage::Launching((k + 1) as usize), ..batch }));
        lemma_launch_actions(cfg, after, (k + 1) as usize, rest);
    } else {
        assert(rest.len() == 0);
        assert(batch_actions(cfg, after, rest) == Seq::<BatchAction>::empty());
    }
}

proof fn lemma_receive_actions(cfg: Config, batch: Batch, events: Seq<BatchEvent>)
    requires
        batch.stage == BatchStage::Working,
        forall|i: int| 0 <= i < events.len() ==> (#[trigger] events[i]) is Reported,
    ensures
        batch_actions(cfg, batch, events).len() == events.len(),
        forall|i: int|
            0 <= i < events.len() ==> #[trigger] batch_actions(cfg, batch, events)[i]
                == BatchAction::Receive,
    decreases events.len(),
{
    if events.len() > 0 {
        assert(events[0] is Reported);
        let rest = events.skip(1);
        assert forall|i: int| 0 <= i < rest.len() implies (#[trigger] rest[i]) is Reported by {
            assert(rest[i] == events[i + 1]);
        }
        lemma_receive_actions(cfg, batch_next(cfg, batch, events[0]).0, rest);
    }
}

/// A batch that cannot be carried out says why, in its only report of that step, and is over:
/// the missing input by its path, the output directory, the input directory and a browser, by
/// its number counted from 1, with what went wrong.
pub proof fn law_batch_tells_why_it_ends(cfg: Config, batch: Batch, e: String, k: usize)
    ensures
        ({
            let missing = batch_next(
                cfg,
                Batch { stage: BatchStage::CheckingInput, ..batch },
                BatchEvent::InputChecked(false),
            );
            let unmade = batch_next(
                cfg,
                Batch { stage: BatchStage::MakingOutput, ..batch },
                BatchEvent::OutputMade(Err(e)),
            );
            let unread = batch_next(
                cfg,
                Batch { stage: BatchStage::Collecting, ..batch },
                BatchEvent::Collected(Err(e)),
            );
            let unlaunched = batch_next(
                cfg,
                Batch { stage: BatchStage::Launching(k), ..batch },
                BatchEvent::Launched(Err(e)),
            );
            &&& missing.1.reports == seq![
                ProgressView::Fatal("输入目录不存在: "@ + path_text(cfg.input@)),
            ]
            &&& unmade.1.reports == seq![ProgressView::Fatal("无法创建输出目录: "@ + e@)]
            &&& unread.1.reports == seq![ProgressView::Fatal("读取输入目录失败: "@ + e@)]
            &&& unlaunched.1.reports == seq![
                ProgressView::Fatal(
                    "启动第 "@ + decimal((k + 1) as nat) + " 个 Chrome 失败："@ + e@,
                ),
            ]
            &&& missing.0.stage == BatchStage::Finished && missing.1.action == BatchAction::Stop
            &&& unmade.0.stage == BatchStage::Finished && unmade.1.action == BatchAction::Stop
            &&& unread.0.stage == BatchStage::Finished && unread.1.action == BatchAction::Stop
            &&& unlaunched.0.stage == BatchStage::Finished && unlaunched.1.action
                == BatchAction::Stop
        }),
{
}

/// A batch uses the browsers that it is asked for, within its limits: 1 where none is asked
/// for, 8 where more are, and one for each image where there are fewer images.
pub proof fn law_browsers_are_as_asked_for(concurrency: usize, total: usize)
    ensures
        total <= 1 ==> browser_count(concurrency, total) == total,
        concurrency <= 1 && total >= 1 ==> browser_count(concurrency, total) == 1,
        2 <= concurrency <= 8 && concurrency <= total ==> browser_count(concurrency, total)
            == concurrency,
        concurrency >= 8 && total >= 8 ==> browser_count(concurrency, total) == 8,
        total <= 8 && total <= concurrency ==> browser_count(concurrency, total) == total,
{
}

/// The remark before the browsers are launched tells how many there are, and whether they are
/// seen.
pub proof fn law_launch_remark_tells_the_browsers(browsers: usize)
    ensures
        launch_remark(browsers, true) == "启动 "@ + decimal(browsers as nat) + " 个浏览器（"@
            + "无头"@ + "）..."@,
        launch_remark(browsers, false) == "启动 "@ + decimal(browsers as nat) + " 个浏览器（"@
            + "可见窗口"@ + "）..."@,
{
}

} // verus!
