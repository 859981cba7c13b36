//! The workers of a batch together: they share one counter and one disk.
//!
//! Each worker goes its own way, step by step, and the steps of several workers may come in any
//! order. The counter gives every position once. The disk holds what is there before the batch
//! and what the workers save.

use crate::batch::{
    batch_reports, browser_count, failures, is_full_course, launch_remark, law_full_course,
    new_batch, successes, BatchEvent,
};
use crate::config::{lemma_count_short, Config, ProgressView};
use crate::path::{place, PathView, Place, Separator};
use crate::worker::{
    at_hand, ends, fits, image_name, is_end_of, is_start_of, lemma_report_follows_image,
    result_path, starts, worker_next, WorkerActionView, WorkerEvent, WorkerState,
};
use vstd::prelude::*;

verus! {

/// The workers of a batch, the counter and the disk.
#[verifier::ext_equal]
pub struct Crew {
    /// What each worker waits for.
    pub states: Seq<WorkerState>,
    /// The next position that no worker has taken.
    pub next: nat,
    /// Where there are files.
    pub disk: Set<Place>,
}

/// What happens next: an event for one of the workers.
pub struct CrewStep {
    /// The worker whose event it is.
    pub worker: int,
    /// The event.
    pub event: WorkerEvent,
    /// Where the event is a failure to write, whether a file was left all the same.
    pub left_behind: bool,
}

/// Workers that wait for their tabs.
pub open spec fn new_crew(workers: nat, disk: Set<Place>) -> Crew {
    Crew { states: Seq::new(workers, |w: int| WorkerState::Opening), next: 0, disk }
}

/// Where the result for the image at position `i` goes.
pub open spec fn result_place(
    cfg: Config,
    images: Seq<PathView>,
    separator: Separator,
    i: usize,
) -> Place {
    place(result_path(cfg, images[i as int], separator))
}

/// The step can happen: the counter gives its next position, and a result exists if and only if
/// there is a file.
pub open spec fn can_happen(
    cfg: Config,
    images: Seq<PathView>,
    separator: Separator,
    crew: Crew,
    step: CrewStep,
) -> bool {
    &&& 0 <= step.worker < crew.states.len()
    &&& match (crew.states[step.worker], step.event) {
        (WorkerState::Claiming, WorkerEvent::Claimed(i)) => i == crew.next,
        (WorkerState::Checking(i), WorkerEvent::Exists(exists)) => exists == crew.disk.contains(
            result_place(cfg, images, separator, i),
        ),
        _ => true,
    }
}

/// The workers, the counter and the disk after a step.
pub open spec fn crew_next(
    cfg: Config,
    images: Seq<PathView>,
    separator: Separator,
    crew: Crew,
    step: CrewStep,
) -> Crew {
    let state = crew.states[step.worker];
    Crew {
        states: crew.states.update(
            step.worker,
            worker_next(cfg, images, separator, state, step.event).0,
        ),
        next: match (state, step.event) {
            (WorkerState::Claiming, WorkerEvent::Claimed(_)) => crew.next + 1,
            _ => crew.next,
        },
        disk: match (state, step.event) {
            (WorkerState::Saving(i, _), WorkerEvent::Saved(r)) => if r is Ok || step.left_behind {
                crew.disk.insert(result_place(cfg, images, separator, i))
            } else {
                crew.disk
            },
            _ => crew.disk,
        },
    }
}

/// What a step reports: one thing or nothing.
pub open spec fn step_reports(
    cfg: Config,
    images: Seq<PathView>,
    separator: Separator,
    crew: Crew,
    step: CrewStep,
) -> Seq<ProgressView> {
    match worker_next(cfg, images, separator, crew.states[step.worker], step.event).1.report {
        Some(p) => seq![p],
        None => Seq::empty(),
    }
}

/// The steps can happen one after the other.
pub open spec fn all_can_happen(
    cfg: Config,
    images: Seq<PathView>,
    separator: Separator,
    crew: Crew,
    steps: Seq<CrewStep>,
) -> bool
    decreases steps.len(),
{
    steps.len() == 0 || {
        &&& can_happen(cfg, images, separator, crew, steps[0])
        &&& all_can_happen(
            cfg,
            images,
            separator,
            crew_next(cfg, images, separator, crew, steps[0]),
            steps.skip(1),
        )
    }
}

/// The workers, the counter and the disk after a sequence of steps.
pub open spec fn crew_after(
    cfg: Config,
    images: Seq<PathView>,
    separator: Separator,
    crew: Crew,
    steps: Seq<CrewStep>,
) -> Crew
    decreases steps.len(),
{
    if steps.len() == 0 {
        crew
    } else {
        crew_after(
            cfg,
            images,
            separator,
            crew_next(cfg, images, separator, crew, steps[0]),
            steps.skip(1),
        )
    }
}

/// What the workers report, in the order in which it happens.
pub open spec fn crew_reports(
    cfg: Config,
    images: Seq<PathView>,
    separator: Separator,
    crew: Crew,
    steps: Seq<CrewStep>,
) -> Seq<ProgressView>
    decreases steps.len(),
{
    if steps.len() == 0 {
        Seq::empty()
    } else {
        step_reports(cfg, images, separator, crew, steps[0]) + crew_reports(
            cfg,
            images,
            separator,
            crew_next(cfg, images, separator, crew, steps[0]),
            steps.skip(1),
        )
    }
}

/// What the workers are told to do.
pub open spec fn crew_actions(
    cfg: Config,
    images: Seq<PathView>,
    separator: Separator,
    crew: Crew,
    steps: Seq<CrewStep>,
) -> Seq<WorkerActionView>
    decreases steps.len(),
{
    if steps.len() == 0 {
        Seq::empty()
    } else {
        seq![
            worker_next(
                cfg,
                images,
                separator,
                crew.states[steps[0].worker],
                steps[0].event,
            ).1.action,
        ] + crew_actions(
            cfg,
            images,
            separator,
            crew_next(cfg, images, separator, crew, steps[0]),
            steps.skip(1),
        )
    }
}

/// Every worker has stopped.
pub open spec fn all_stopped(crew: Crew) -> bool {
    forall|w: int| 0 <= w < crew.states.len() ==> #[trigger] crew.states[w] == WorkerState::Stopped
}

/// The batch is not cancelled.
pub open spec fn undisturbed(steps: Seq<CrewStep>) -> bool {
    forall|k: int| 0 <= k < steps.len() ==> (#[trigger] steps[k]).event != WorkerEvent::Cancelled(
        true,
    )
}

/// A tab is opened.
pub open spec fn a_tab_opens(
    cfg: Config,
    images: Seq<PathView>,
    separator: Separator,
    crew: Crew,
    steps: Seq<CrewStep>,
) -> bool
    decreases steps.len(),
{
    steps.len() > 0 && {
        ||| crew.states[steps[0].worker] == WorkerState::Opening && (steps[0].event matches
            WorkerEvent::TabOpened(r) && r is Ok)
        ||| a_tab_opens(
            cfg,
            images,
            separator,
            crew_next(cfg, images, separator, crew, steps[0]),
            steps.skip(1),
        )
    }
}

/// The workers see the batch through: what happens can happen, the batch is not cancelled, a
/// tab is opened, and at the end every worker has stopped.
pub open spec fn sees_it_through(
    cfg: Config,
    images: Seq<PathView>,
    separator: Separator,
    crew: Crew,
    steps: Seq<CrewStep>,
) -> bool {
    &&& all_can_happen(cfg, images, separator, crew, steps)
    &&& undisturbed(steps)
    &&& a_tab_opens(cfg, images, separator, crew, steps)
    &&& all_stopped(crew_after(cfg, images, separator, crew, steps))
}

/// How many reports say that work on an image began.
pub open spec fn beginnings(reports: Seq<ProgressView>) -> nat {
    reports.filter(|p: ProgressView| p is FileStart).len()
}

/// How many workers have the image at position `i` at hand.
pub open spec fn busy_with(states: Seq<WorkerState>, i: usize) -> nat
    decreases states.len(),
{
    if states.len() == 0 {
        0
    } else {
        busy_with(states.drop_last(), i) + (if at_hand(states.last()) == Some(i) {
            1nat
        } else {
            0nat
        })
    }
}

/// How many workers have an image at hand.
pub open spec fn busy(states: Seq<WorkerState>) -> nat
    decreases states.len(),
{
    if states.len() == 0 {
        0
    } else {
        busy(states.drop_last()) + (if at_hand(states.last()) is Some {
            1nat
        } else {
            0nat
        })
    }
}

/// Every image at hand is one of `total` images.
pub open spec fn all_fit(states: Seq<WorkerState>, total: nat) -> bool {
    forall|w: int| 0 <= w < states.len() ==> fits(#[trigger] states[w], total)
}

proof fn lemma_busy_update(states: Seq<WorkerState>, w: int, state: WorkerState, i: usize)
    requires
        0 <= w < states.len(),
    ensures
        busy_with(states.update(w, state), i) + (if at_hand(states[w]) == Some(i) {
            1nat
        } else {
            0nat
        }) == busy_with(states, i) + (if at_hand(state) == Some(i) {
            1nat
        } else {
            0nat
        }),
        busy(states.update(w, state)) + (if at_hand(states[w]) is Some {
            1nat
        } else {
            0nat
        }) == busy(states) + (if at_hand(state) is Some {
            1nat
        } else {
            0nat
        }),
    decreases states.len(),
{
    let updated = states.update(w, state);
    if w == states.len() - 1 {
        assert(updated.drop_last() =~= states.drop_last());
    } else {
        lemma_busy_update(states.drop_last(), w, state, i);
        assert(updated.drop_last() =~= states.drop_last().update(w, state));
        assert(updated.last() == states.last());
    }
}

proof fn lemma_nobody_busy(states: Seq<WorkerState>, i: usize)
    requires
        forall|w: int| 0 <= w < states.len() ==> at_hand(#[trigger] states[w]) is None,
    ensures
        busy_with(states, i) == 0,
        busy(states) == 0,
    decreases states.len(),
{
    if states.len() > 0 {
        let shorter = states.drop_last();
        assert forall|w: int| 0 <= w < shorter.len() implies at_hand(#[trigger] shorter[w])
            is None by {
            assert(shorter[w] == states[w]);
        }
        lemma_nobody_busy(shorter, i);
        assert(states.last() == states[states.len() - 1]);
    }
}

/// What one report counts for.
proof fn lemma_counts_of_one(report: Option<ProgressView>, i: usize)
    ensures
        ({
            let reports = match report {
                Some(p) => seq![p],
                None => Seq::empty(),
            };
            &&& starts(reports, i) == (if report matches Some(p) && is_start_of(p, i) {
                1nat
            } else {
                0nat
            })
            &&& ends(reports, i) == (if report matches Some(p) && is_end_of(p, i) {
                1nat
            } else {
                0nat
            })
            &&& beginnings(reports) == (if report matches Some(p) && p is FileStart {
                1nat
            } else {
                0nat
            })
            &&& successes(reports) == (if report matches Some(p) && p is FileOk {
                1nat
            } else {
                0nat
            })
            &&& failures(reports) == (if report matches Some(p) && p is FileErr {
                1nat
            } else {
                0nat
            })
        }),
{
    let reports = match report {
        Some(p) => seq![p],
        None => Seq::empty(),
    };
    lemma_count_short(reports, |p: ProgressView| is_start_of(p, i));
    lemma_count_short(reports, |p: ProgressView| is_end_of(p, i));
    lemma_count_short(reports, |p: ProgressView| p is FileStart);
    lemma_count_short(reports, |p: ProgressView| p is FileOk);
    lemma_count_short(reports, |p: ProgressView| p is FileErr);
}

/// What one step changes in the balance of beginnings and ends.
proof fn lemma_step_balance(
    cfg: Config,
    images: Seq<PathView>,
    separator: Separator,
    crew: Crew,
    step: CrewStep,
    i: usize,
)
    requires
        can_happen(cfg, images, separator, crew, step),
    ensures
        ({
            let after = crew_next(cfg, images, separator, crew, step);
            let reports = step_reports(cfg, images, separator, crew, step);
            &&& starts(reports, i) + busy_with(crew.states, i) == ends(reports, i) + busy_with(
                after.states,
                i,
            )
            &&& beginnings(reports) + busy(crew.states) == successes(reports) + failures(reports)
                + busy(after.states)
            &&& starts(reports, i) == (if crew.next == i && i < images.len() && after.next
                == crew.next + 1 {
                1nat
            } else {
                0nat
            })
            &&& beginnings(reports) == (if crew.next < images.len() && after.next == crew.next
                + 1 {
                1nat
            } else {
                0nat
            })
        }),
{
    let state = crew.states[step.worker];
    let next = worker_next(cfg, images, separator, state, step.event);
    lemma_busy_update(crew.states, step.worker, next.0, i);
    lemma_counts_of_one(next.1.report, i);
    lemma_report_follows_image(cfg, images, separator, state, step.event);
}

/// The counts of reports in two parts add up.
proof fn lemma_counts_add(a: Seq<ProgressView>, b: Seq<ProgressView>, i: usize)
    ensures
        starts(a + b, i) == starts(a, i) + starts(b, i),
        ends(a + b, i) == ends(a, i) + ends(b, i),
        beginnings(a + b) == beginnings(a) + beginnings(b),
        successes(a + b) == successes(a) + successes(b),
        failures(a + b) == failures(a) + failures(b),
{
    Seq::filter_distributes_over_add(a, b, |p: ProgressView| is_start_of(p, i));
    Seq::filter_distributes_over_add(a, b, |p: ProgressView| is_end_of(p, i));
    Seq::filter_distributes_over_add(a, b, |p: ProgressView| p is FileStart);
    Seq::filter_distributes_over_add(a, b, |p: ProgressView| p is FileOk);
    Seq::filter_distributes_over_add(a, b, |p: ProgressView| p is FileErr);
}

/// Nothing is counted in no reports.
proof fn lemma_counts_of_none(i: usize)
    ensures
        starts(Seq::empty(), i) == 0,
        ends(Seq::empty(), i) == 0,
        beginnings(Seq::empty()) == 0,
        successes(Seq::empty()) == 0,
        failures(Seq::empty()) == 0,
{
    reveal(Seq::filter);
}

/// Beginnings and ends balance but for the images at hand, and the images begun are those that
/// the counter has passed.
proof fn lemma_crew_balance(
    cfg: Config,
    images: Seq<PathView>,
    separator: Separator,
    crew: Crew,
    steps: Seq<CrewStep>,
    i: usize,
)
    requires
        all_can_happen(cfg, images, separator, crew, steps),
    ensures
        ({
            let after = crew_after(cfg, images, separator, crew, steps);
            let reports = crew_reports(cfg, images, separator, crew, steps);
            &&& crew.next <= after.next
            &&& after.states.len() == crew.states.len()
            &&& starts(reports, i) + busy_with(crew.states, i) == ends(reports, i) + busy_with(
                after.states,
                i,
            )
            &&& beginnings(reports) + busy(crew.states) == successes(reports) + failures(reports)
                + busy(after.states)
            &&& starts(reports, i) == (if crew.next <= i < after.next && i < images.len() {
                1nat
            } else {
                0nat
            })
            &&& beginnings(reports) + (if crew.next < images.len() {
                crew.next
            } else {
                images.len()
            }) == (if after.next < images.len() {
                after.next
            } else {
                images.len()
            })
        }),
    decreases steps.len(),
{
    lemma_counts_of_none(i);
    if steps.len() > 0 {
        let between = crew_next(cfg, images, separator, crew, steps[0]);
        lemma_step_balance(cfg, images, separator, crew, steps[0], i);
        lemma_crew_balance(cfg, images, separator, between, steps.skip(1), i);
        lemma_counts_add(
            step_reports(cfg, images, separator, crew, steps[0]),
            crew_reports(cfg, images, separator, between, steps.skip(1)),
            i,
        );
    }
}

/// No image ends before it begins.
proof fn lemma_ends_follow_starts(
    cfg: Config,
    images: Seq<PathView>,
    separator: Separator,
    crew: Crew,
    steps: Seq<CrewStep>,
    i: usize,
    k: int,
)
    requires
        all_can_happen(cfg, images, separator, crew, steps),
        0 <= k <= crew_reports(cfg, images, separator, crew, steps).len(),
    ensures
        ends(crew_reports(cfg, images, separator, crew, steps).take(k), i) <= starts(
            crew_reports(cfg, images, separator, crew, steps).take(k),
            i,
        ) + busy_with(crew.states, i),
    decreases steps.len(),
{
    let reports = crew_reports(cfg, images, separator, crew, steps);
    lemma_counts_of_none(i);
    if k == 0 || steps.len() == 0 {
        assert(reports.take(k) =~= Seq::empty());
    } else {
        let between = crew_next(cfg, images, separator, crew, steps[0]);
        let first = step_reports(cfg, images, separator, crew, steps[0]);
        let rest = crew_reports(cfg, images, separator, between, steps.skip(1));
        lemma_step_balance(cfg, images, separator, crew, steps[0], i);
        lemma_ends_follow_starts(
            cfg,
            images,
            separator,
            between,
            steps.skip(1),
            i,
            k - first.len(),
        );
        assert(reports.take(k) =~= first + rest.take(k - first.len()));
        lemma_counts_add(first, rest.take(k - first.len()), i);
    }
}

/// However many workers share the images, none is begun twice: the counter gives every position
/// once, an image is begun exactly when the counter has passed it, and it is reported as done
/// or failed at most once, never before it is begun. When every worker has stopped, each image
/// begun has been reported as done or failed.
pub proof fn law_no_image_is_taken_twice(
    cfg: Config,
    images: Seq<PathView>,
    separator: Separator,
    workers: nat,
    disk: Set<Place>,
    steps: Seq<CrewStep>,
    i: usize,
)
    requires
        all_can_happen(cfg, images, separator, new_crew(workers, disk), steps),
    ensures
        ({
            let crew = new_crew(workers, disk);
            let after = crew_after(cfg, images, separator, crew, steps);
            let reports = crew_reports(cfg, images, separator, crew, steps);
            &&& starts(reports, i) == (if i < after.next && i < images.len() {
                1nat
            } else {
                0nat
            })
            &&& ends(reports, i) <= starts(reports, i)
            &&& all_stopped(after) ==> ends(reports, i) == starts(reports, i)
            &&& forall|k: int|
                0 <= k <= reports.len() ==> ends(#[trigger] reports.take(k), i) <= starts(
                    reports.take(k),
                    i,
                )
        }),
{
    let crew = new_crew(workers, disk);
    let after = crew_after(cfg, images, separator, crew, steps);
    let reports = crew_reports(cfg, images, separator, crew, steps);
    lemma_nobody_busy(crew.states, i);
    lemma_crew_balance(cfg, images, separator, crew, steps, i);
    if all_stopped(after) {
        lemma_nobody_busy(after.states, i);
    }
    assert forall|k: int| 0 <= k <= reports.len() implies ends(#[trigger] reports.take(k), i)
        <= starts(reports.take(k), i) by {
        lemma_ends_follow_starts(cfg, images, separator, crew, steps, i, k);
    }
}

/// A worker is on its way: it has its tab and has not stopped.
spec fn on_its_way(state: WorkerState) -> bool {
    state != WorkerState::Opening && state != WorkerState::Stopped
}

/// Somebody is on the way, or the counter has passed all images.
spec fn goes_on(crew: Crew, total: nat) -> bool {
    crew.next > total || exists|w: int|
        0 <= w < crew.states.len() && on_its_way(#[trigger] crew.states[w])
}

proof fn lemma_step_goes_on(
    cfg: Config,
    images: Seq<PathView>,
    separator: Separator,
    crew: Crew,
    step: CrewStep,
)
    requires
        can_happen(cfg, images, separator, crew, step),
        step.event != WorkerEvent::Cancelled(true),
        goes_on(crew, images.len()) || (crew.states[step.worker] == WorkerState::Opening && (
        step.event matches WorkerEvent::TabOpened(r) && r is Ok)),
    ensures
        goes_on(crew_next(cfg, images, separator, crew, step), images.len()),
{
    let after = crew_next(cfg, images, separator, crew, step);
    let w = step.worker;
    if !(crew.next > images.len()) {
        if crew.states[w] == WorkerState::Opening && (step.event matches WorkerEvent::TabOpened(r)
            && r is Ok) {
            assert(on_its_way(after.states[w]));
        } else {
            let v = choose|v: int|
                0 <= v < crew.states.len() && on_its_way(#[trigger] crew.states[v]);
            if v != w {
                assert(after.states[v] == crew.states[v]);
            } else if after.next <= images.len() {
                assert(on_its_way(after.states[w]));
            }
        }
    }
}

proof fn lemma_goes_on(
    cfg: Config,
    images: Seq<PathView>,
    separator: Separator,
    crew: Crew,
    steps: Seq<CrewStep>,
)
    requires
        all_can_happen(cfg, images, separator, crew, steps),
        undisturbed(steps),
        goes_on(crew, images.len()) || a_tab_opens(cfg, images, separator, crew, steps),
    ensures
        goes_on(crew_after(cfg, images, separator, crew, steps), images.len()),
    decreases steps.len(),
{
    if steps.len() > 0 {
        let between = crew_next(cfg, images, separator, crew, steps[0]);
        let rest = steps.skip(1);
        assert(undisturbed(rest)) by {
            assert forall|k: int| 0 <= k < rest.len() implies (#[trigger] rest[k]).event
                != WorkerEvent::Cancelled(true) by {
                assert(rest[k] == steps[k + 1]);
            }
        }
        assert(steps[0].event != WorkerEvent::Cancelled(true));
        if goes_on(crew, images.len()) || (crew.states[steps[0].worker] == WorkerState::Opening
            && (steps[0].event matches WorkerEvent::TabOpened(r) && r is Ok)) {
            lemma_step_goes_on(cfg, images, separator, crew, steps[0]);
        }
        lemma_goes_on(cfg, images, separator, between, rest);
    }
}

/// Workers that see a batch through miss no image: whatever their number and however their
/// steps mingle, every image is begun exactly once and reported exactly once as done or failed,
/// and in all there are as many beginnings, and as many ends, as images.
pub proof fn law_every_image_is_taken_once(
    cfg: Config,
    images: Seq<PathView>,
    separator: Separator,
    workers: nat,
    disk: Set<Place>,
    steps: Seq<CrewStep>,
    i: usize,
)
    requires
        sees_it_through(cfg, images, separator, new_crew(workers, disk), steps),
        i < images.len(),
    ensures
        ({
            let reports = crew_reports(cfg, images, separator, new_crew(workers, disk), steps);
            &&& starts(reports, i) == 1
            &&& ends(reports, i) == 1
            &&& beginnings(reports) == images.len()
            &&& successes(reports) + failures(reports) == images.len()
        }),
{
    let crew = new_crew(workers, disk);
    let after = crew_after(cfg, images, separator, crew, steps);
    lemma_goes_on(cfg, images, separator, crew, steps);
    lemma_nobody_busy(crew.states, i);
    lemma_crew_balance(cfg, images, separator, crew, steps, i);
    lemma_nobody_busy(after.states, i);
}

/// A report says the truth about its image: the position is that of an image, the name is how
/// that image is shown, the number of images is right, and the path is where the result goes.
pub open spec fn is_right(
    cfg: Config,
    images: Seq<PathView>,
    separator: Separator,
    p: ProgressView,
) -> bool {
    match p {
        ProgressView::FileStart { idx, total, name } => {
            &&& idx < images.len()
            &&& total == images.len()
            &&& name == image_name(cfg, images[idx as int])
        },
        ProgressView::FileOk { idx, name, path, .. } => {
            &&& idx < images.len()
            &&& name == image_name(cfg, images[idx as int])
            &&& path == result_path(cfg, images[idx as int], separator)
        },
        ProgressView::FileErr { idx, name, .. } => {
            &&& idx < images.len()
            &&& name == image_name(cfg, images[idx as int])
        },
        ProgressView::Log(_) => true,
        _ => false,
    }
}

/// Everything that the workers report is right, and is a beginning, an end or a remark.
pub proof fn law_reports_are_right(
    cfg: Config,
    images: Seq<PathView>,
    separator: Separator,
    crew: Crew,
    steps: Seq<CrewStep>,
    k: int,
)
    requires
        images.len() <= usize::MAX,
        all_fit(crew.states, images.len()),
        all_can_happen(cfg, images, separator, crew, steps),
        0 <= k < crew_reports(cfg, images, separator, crew, steps).len(),
    ensures
        is_right(
            cfg,
            images,
            separator,
            crew_reports(cfg, images, separator, crew, steps)[k],
        ),
    decreases steps.len(),
{
    let between = crew_next(cfg, images, separator, crew, steps[0]);
    let first = step_reports(cfg, images, separator, crew, steps[0]);
    let state = crew.states[steps[0].worker];
    assert(fits(state, images.len()));
    if k >= first.len() {
        assert forall|w: int| 0 <= w < between.states.len() implies fits(
            #[trigger] between.states[w],
            images.len(),
        ) by {
            if w != steps[0].worker {
                assert(between.states[w] == crew.states[w]);
            }
        }
        law_reports_are_right(cfg, images, separator, between, steps.skip(1), k - first.len());
    }
}

/// The counts with which a batch ends add up: its reports begin with the number of images and
/// end with the counts, which are the numbers of images reported as done and as failed; their
/// sum is the number of images begun and never exceeds the number of images. Where the workers
/// see the batch through, it is the number of images.
pub proof fn law_counts_add_up(
    cfg: Config,
    images: Seq<PathView>,
    separator: Separator,
    disk: Set<Place>,
    steps: Seq<CrewStep>,
    events: Seq<BatchEvent>,
)
    requires
        0 < images.len() <= usize::MAX,
        ({
            let total = images.len() as usize;
            let crew = new_crew(browser_count(cfg.concurrency, total) as nat, disk);
            &&& all_can_happen(cfg, images, separator, crew, steps)
            &&& all_stopped(crew_after(cfg, images, separator, crew, steps))
            &&& is_full_course(
                cfg,
                total,
                events,
                crew_reports(cfg, images, separator, crew, steps),
            )
        }),
    ensures
        ({
            let total = images.len() as usize;
            let browsers = browser_count(cfg.concurrency, total);
            let crew = new_crew(browsers as nat, disk);
            let told = crew_reports(cfg, images, separator, crew, steps);
            let reports = batch_reports(cfg, new_batch(), events);
            &&& reports == seq![
                ProgressView::Total(total),
                ProgressView::Log(launch_remark(browsers, cfg.headless)),
            ] + told + seq![
                ProgressView::Done {
                    ok: successes(told) as usize,
                    failed: failures(told) as usize,
                },
            ]
            &&& reports[0] == ProgressView::Total(total)
            &&& reports.last() == (ProgressView::Done {
                ok: successes(reports) as usize,
                failed: failures(reports) as usize,
            })
            &&& successes(reports) + failures(reports) == beginnings(reports)
            &&& beginnings(reports) <= total
            &&& sees_it_through(cfg, images, separator, crew, steps) ==> successes(reports)
                + failures(reports) == total
        }),
{
    let total = images.len() as usize;
    let browsers = browser_count(cfg.concurrency, total);
    let crew = new_crew(browsers as nat, disk);
    let after = crew_after(cfg, images, separator, crew, steps);
    let told = crew_reports(cfg, images, separator, crew, steps);
    lemma_nobody_busy(crew.states, 0);
    lemma_crew_balance(cfg, images, separator, crew, steps, 0);
    lemma_nobody_busy(after.states, 0);
    law_full_course(cfg, total, events, told);
    let head = seq![
        ProgressView::Total(total),
        ProgressView::Log(launch_remark(browsers, cfg.headless)),
    ];
    let tail = seq![
        ProgressView::Done { ok: successes(told) as usize, failed: failures(told) as usize },
    ];
    lemma_counts_add(head + told, tail, 0);
    lemma_counts_add(head, told, 0);
    lemma_count_short(head, |p: ProgressView| p is FileStart);
    lemma_count_short(head, |p: ProgressView| p is FileOk);
    lemma_count_short(head, |p: ProgressView| p is FileErr);
    lemma_count_short(tail, |p: ProgressView| p is FileStart);
    lemma_count_short(tail, |p: ProgressView| p is FileOk);
    lemma_count_short(tail, |p: ProgressView| p is FileErr);
    let reports = batch_reports(cfg, new_batch(), events);
    assert(reports == head + told + tail);
    assert(reports.last() == tail[0]);
    if sees_it_through(cfg, images, separator, crew, steps) {
        law_every_image_is_taken_once(
            cfg,
            images,
            separator,
            browsers as nat,
            disk,
            steps,
            0,
        );
    }
}

/// A batch that its workers see through takes every image once: its reports hold exactly one
/// beginning of the image, with the number of images and the name by which it is shown, and
/// behind it exactly one end, with the same name.
pub proof fn law_batch_takes_every_image_once(
    cfg: Config,
    images: Seq<PathView>,
    separator: Separator,
    disk: Set<Place>,
    steps: Seq<CrewStep>,
    events: Seq<BatchEvent>,
    i: usize,
)
    requires
        i < images.len() <= usize::MAX,
        ({
            let total = images.len() as usize;
            let crew = new_crew(browser_count(cfg.concurrency, total) as nat, disk);
            &&& sees_it_through(cfg, images, separator, crew, steps)
            &&& is_full_course(
                cfg,
                total,
                events,
                crew_reports(cfg, images, separator, crew, steps),
            )
        }),
    ensures
        ({
            let reports = batch_reports(cfg, new_batch(), events);
            &&& starts(reports, i) == 1
            &&& ends(reports, i) == 1
            &&& exists|s: int, e: int|
                0 <= s < e < reports.len() && #[trigger] reports[s] == (ProgressView::FileStart {
                    idx: i,
                    total: images.len() as usize,
                    name: image_name(cfg, images[i as int]),
                }) && is_end_of(#[trigger] reports[e], i) && is_right(
                    cfg,
                    images,
                    separator,
                    reports[e],
                )
        }),
{
    let total = images.len() as usize;
    let browsers = browser_count(cfg.concurrency, total);
    let crew = new_crew(browsers as nat, disk);
    let told = crew_reports(cfg, images, separator, crew, steps);
    let reports = batch_reports(cfg, new_batch(), events);
    let start_of = |p: ProgressView| is_start_of(p, i);
    let end_of = |p: ProgressView| is_end_of(p, i);
    law_counts_add_up(cfg, images, separator, disk, steps, events);
    law_every_image_is_taken_once(cfg, images, separator, browsers as nat, disk, steps, i);
    let head = seq![
        ProgressView::Total(total),
        ProgressView::Log(launch_remark(browsers, cfg.headless)),
    ];
    let tail = seq![
        ProgressView::Done { ok: successes(told) as usize, failed: failures(told) as usize },
    ];
    lemma_counts_add(head + told, tail, i);
    lemma_counts_add(head, told, i);
    lemma_count_short(head, start_of);
    lemma_count_short(head, end_of);
    lemma_count_short(tail, start_of);
    lemma_count_short(tail, end_of);
    lemma_start_before_end(cfg, images, separator, browsers as nat, disk, steps, i);
    let (s, e) = choose|s: int, e: int|
        0 <= s < e < told.len() && #[trigger] told[s] == (ProgressView::FileStart {
            idx: i,
            total,
            name: image_name(cfg, images[i as int]),
        }) && is_end_of(#[trigger] told[e], i) && is_right(cfg, images, separator, told[e]);
    assert(reports[s + 2] == told[s]);
    assert(reports[e + 2] == told[e]);
}

/// Among the reports of workers that see a batch through, an image begins before it ends.
proof fn lemma_start_before_end(
    cfg: Config,
    images: Seq<PathView>,
    separator: Separator,
    workers: nat,
    disk: Set<Place>,
    steps: Seq<CrewStep>,
    i: usize,
)
    requires
        i < images.len() <= usize::MAX,
        sees_it_through(cfg, images, separator, new_crew(workers, disk), steps),
    ensures
        ({
            let told = crew_reports(cfg, images, separator, new_crew(workers, disk), steps);
            exists|s: int, e: int|
                0 <= s < e < told.len() && #[trigger] told[s] == (ProgressView::FileStart {
                    idx: i,
                    total: images.len() as usize,
                    name: image_name(cfg, images[i as int]),
                }) && is_end_of(#[trigger] told[e], i) && is_right(
                    cfg,
                    images,
                    separator,
                    told[e],
                )
        }),
{
    let crew = new_crew(workers, disk);
    let told = crew_reports(cfg, images, separator, crew, steps);
    let start_of = |p: ProgressView| is_start_of(p, i);
    let end_of = |p: ProgressView| is_end_of(p, i);
    law_every_image_is_taken_once(cfg, images, separator, workers, disk, steps, i);
    law_no_image_is_taken_twice(cfg, images, separator, workers, disk, steps, i);
    lemma_some_counted(told, end_of);
    let e = choose|e: int| 0 <= e < told.len() && end_of(#[trigger] told[e]);
    let before = told.take(e + 1);
    assert(before[e] == told[e]);
    lemma_each_counted(before, end_of, e);
    assert(ends(before, i) <= starts(before, i));
    lemma_some_counted(before, start_of);
    let s = choose|s: int| 0 <= s < before.len() && start_of(#[trigger] before[s]);
    assert(before[s] == told[s]);
    assert(all_fit(crew.states, images.len()));
    law_reports_are_right(cfg, images, separator, crew, steps, s);
    law_reports_are_right(cfg, images, separator, crew, steps, e);
}

/// Every result exists.
pub open spec fn all_results_exist(
    cfg: Config,
    images: Seq<PathView>,
    separator: Separator,
    disk: Set<Place>,
) -> bool {
    forall|i: usize|
        i < images.len() ==> disk.contains(#[trigger] result_place(cfg, images, separator, i))
}

/// A report of a batch that finds every result: an image begins, an image is skipped, or a
/// remark.
pub open spec fn is_of_skipping(p: ProgressView) -> bool {
    match p {
        ProgressView::FileStart { .. } => true,
        ProgressView::FileOk { bytes, skipped, .. } => bytes == 0 && skipped,
        ProgressView::Log(_) => true,
        _ => false,
    }
}

/// Nothing is written or translated, and no directory is made.
pub open spec fn leaves_alone(action: WorkerActionView) -> bool {
    !(action is MakeDir || action is Translate || action is Save)
}

/// A worker that writes nothing: no image of it is past the look for its result.
spec fn only_looks(state: WorkerState) -> bool {
    !(state is MakingDir || state is Translating || state is Saving)
}

/// Where every result exists and none is to be overwritten, the workers skip every image that
/// they begin: nothing is written, translated or made, and no image fails.
pub proof fn law_existing_results_are_all_skipped(
    cfg: Config,
    images: Seq<PathView>,
    separator: Separator,
    workers: nat,
    disk: Set<Place>,
    steps: Seq<CrewStep>,
)
    requires
        !cfg.overwrite,
        all_results_exist(cfg, images, separator, disk),
        all_can_happen(cfg, images, separator, new_crew(workers, disk), steps),
    ensures
        ({
            let crew = new_crew(workers, disk);
            let reports = crew_reports(cfg, images, separator, crew, steps);
            let actions = crew_actions(cfg, images, separator, crew, steps);
            &&& crew_after(cfg, images, separator, crew, steps).disk == disk
            &&& forall|k: int| 0 <= k < reports.len() ==> is_of_skipping(#[trigger] reports[k])
            &&& forall|k: int| 0 <= k < actions.len() ==> leaves_alone(#[trigger] actions[k])
            &&& failures(reports) == 0
        }),
{
    lemma_only_skips(cfg, images, separator, new_crew(workers, disk), steps);
    lemma_none_counted(
        crew_reports(cfg, images, separator, new_crew(workers, disk), steps),
        |p: ProgressView| p is FileErr,
    );
}

proof fn lemma_only_skips(
    cfg: Config,
    images: Seq<PathView>,
    separator: Separator,
    crew: Crew,
    steps: Seq<CrewStep>,
)
    requires
        !cfg.overwrite,
        all_results_exist(cfg, images, separator, crew.disk),
        all_fit(crew.states, images.len()),
        forall|w: int| 0 <= w < crew.states.len() ==> only_looks(#[trigger] crew.states[w]),
        all_can_happen(cfg, images, separator, crew, steps),
    ensures
        ({
            let reports = crew_reports(cfg, images, separator, crew, steps);
            let actions = crew_actions(cfg, images, separator, crew, steps);
            &&& crew_after(cfg, images, separator, crew, steps).disk == crew.disk
            &&& forall|k: int| 0 <= k < reports.len() ==> is_of_skipping(#[trigger] reports[k])
            &&& forall|k: int| 0 <= k < actions.len() ==> leaves_alone(#[trigger] actions[k])
        }),
    decreases steps.len(),
{
    if steps.len() > 0 {
        let step = steps[0];
        let between = crew_next(cfg, images, separator, crew, step);
        let state = crew.states[step.worker];
        assert(only_looks(state));
        assert(fits(state, images.len()));
        if let WorkerState::Checking(i) = state {
            assert(crew.disk.contains(result_place(cfg, images, separator, i)));
        }
        let first = step_reports(cfg, images, separator, crew, step);
        let rest = crew_reports(cfg, images, separator, between, steps.skip(1));
        let action = worker_next(cfg, images, separator, state, step.event).1.action;
        let later = crew_actions(cfg, images, separator, between, steps.skip(1));
        assert(between.disk == crew.disk);
        assert forall|w: int| 0 <= w < between.states.len() implies only_looks(
            #[trigger] between.states[w],
        ) by {
            if w != step.worker {
                assert(between.states[w] == crew.states[w]);
            }
        }
        assert forall|w: int| 0 <= w < between.states.len() implies fits(
            #[trigger] between.states[w],
            images.len(),
        ) by {
            if w != step.worker {
                assert(between.states[w] == crew.states[w]);
            }
        }
        lemma_only_skips(cfg, images, separator, between, steps.skip(1));
        let reports = first + rest;
        assert forall|k: int| 0 <= k < reports.len() implies is_of_skipping(
            #[trigger] reports[k],
        ) by {
            if k >= first.len() {
                assert(reports[k] == rest[k - first.len()]);
            }
        }
        let actions = seq![action] + later;
        assert forall|k: int| 0 <= k < actions.len() implies leaves_alone(
            #[trigger] actions[k],
        ) by {
            if k > 0 {
                assert(actions[k] == later[k - 1]);
            }
        }
    }
}

/// What no report is, none is counted as.
proof fn lemma_none_counted(reports: Seq<ProgressView>, pred: spec_fn(ProgressView) -> bool)
    requires
        forall|k: int| 0 <= k < reports.len() ==> !pred(#[trigger] reports[k]),
    ensures
        reports.filter(pred).len() == 0,
    decreases reports.len(),
{
    reveal(Seq::filter);
    if reports.len() > 0 {
        let shorter = reports.drop_last();
        assert forall|k: int| 0 <= k < shorter.len() implies !pred(#[trigger] shorter[k]) by {
            assert(shorter[k] == reports[k]);
        }
        lemma_none_counted(shorter, pred);
        assert(!pred(reports[reports.len() - 1]));
    }
}

/// A batch in which every result exists only skips: where the workers see it through, it ends
/// with all images done and none failed, and the disk is as it was.
pub proof fn law_finished_batch_is_skipped(
    cfg: Config,
    images: Seq<PathView>,
    separator: Separator,
    disk: Set<Place>,
    steps: Seq<CrewStep>,
    events: Seq<BatchEvent>,
)
    requires
        0 < images.len() <= usize::MAX,
        !cfg.overwrite,
        all_results_exist(cfg, images, separator, disk),
        ({
            let total = images.len() as usize;
            let crew = new_crew(browser_count(cfg.concurrency, total) as nat, disk);
            &&& sees_it_through(cfg, images, separator, crew, steps)
            &&& is_full_course(
                cfg,
                total,
                events,
                crew_reports(cfg, images, separator, crew, steps),
            )
        }),
    ensures
        ({
            let total = images.len() as usize;
            let crew = new_crew(browser_count(cfg.concurrency, total) as nat, disk);
            let reports = batch_reports(cfg, new_batch(), events);
            let actions = crew_actions(cfg, images, separator, crew, steps);
            &&& reports.last() == (ProgressView::Done { ok: total, failed: 0 })
            &&& forall|k: int|
                0 < k < reports.len() - 1 ==> is_of_skipping(#[trigger] reports[k])
            &&& forall|k: int| 0 <= k < actions.len() ==> leaves_alone(#[trigger] actions[k])
            &&& crew_after(cfg, images, separator, crew, steps).disk == disk
        }),
{
    let total = images.len() as usize;
    let browsers = browser_count(cfg.concurrency, total);
    let crew = new_crew(browsers as nat, disk);
    let told = crew_reports(cfg, images, separator, crew, steps);
    let reports = batch_reports(cfg, new_batch(), events);
    law_counts_add_up(cfg, images, separator, disk, steps, events);
    law_existing_results_are_all_skipped(cfg, images, separator, browsers as nat, disk, steps);
    law_every_image_is_taken_once(cfg, images, separator, browsers as nat, disk, steps, 0);
    assert forall|k: int| 0 < k < reports.len() - 1 implies is_of_skipping(
        #[trigger] reports[k],
    ) by {
        if k >= 2 {
            assert(reports[k] == told[k - 2]);
        }
    }
}

/// Once a file is there, it stays.
proof fn lemma_disk_grows(
    cfg: Config,
    images: Seq<PathView>,
    separator: Separator,
    crew: Crew,
    steps: Seq<CrewStep>,
    file: Place,
)
    requires
        crew.disk.contains(file),
    ensures
        crew_after(cfg, images, separator, crew, steps).disk.contains(file),
    decreases steps.len(),
{
    if steps.len() > 0 {
        lemma_disk_grows(
            cfg,
            images,
            separator,
            crew_next(cfg, images, separator, crew, steps[0]),
            steps.skip(1),
            file,
        );
    }
}

/// An image that is reported as done has its result on the disk.
pub proof fn law_done_images_have_results(
    cfg: Config,
    images: Seq<PathView>,
    separator: Separator,
    crew: Crew,
    steps: Seq<CrewStep>,
    k: int,
)
    requires
        all_can_happen(cfg, images, separator, crew, steps),
        0 <= k < crew_reports(cfg, images, separator, crew, steps).len(),
    ensures
        crew_reports(cfg, images, separator, crew, steps)[k] matches ProgressView::FileOk {
            idx,
            ..
        } ==> crew_after(cfg, images, separator, crew, steps).disk.contains(
            result_place(cfg, images, separator, idx),
        ),
    decreases steps.len(),
{
    let between = crew_next(cfg, images, separator, crew, steps[0]);
    let first = step_reports(cfg, images, separator, crew, steps[0]);
    let rest = crew_reports(cfg, images, separator, between, steps.skip(1));
    if k < first.len() {
        if let ProgressView::FileOk { idx, .. } = first[k] {
            assert(between.disk.contains(result_place(cfg, images, separator, idx)));
            lemma_disk_grows(
                cfg,
                images,
                separator,
                between,
                steps.skip(1),
                result_place(cfg, images, separator, idx),
            );
        }
    } else {
        law_done_images_have_results(
            cfg,
            images,
            separator,
            between,
            steps.skip(1),
            k - first.len(),
        );
        assert((first + rest)[k] == rest[k - first.len()]);
    }
}

/// What is counted is among the reports.
proof fn lemma_some_counted(reports: Seq<ProgressView>, pred: spec_fn(ProgressView) -> bool)
    requires
        reports.filter(pred).len() > 0,
    ensures
        exists|k: int| 0 <= k < reports.len() && pred(#[trigger] reports[k]),
{
    if forall|k: int| 0 <= k < reports.len() ==> !pred(#[trigger] reports[k]) {
        lemma_none_counted(reports, pred);
    }
}

/// What is among the reports is counted.
proof fn lemma_each_counted(
    reports: Seq<ProgressView>,
    pred: spec_fn(ProgressView) -> bool,
    k: int,
)
    requires
        0 <= k < reports.len(),
        pred(reports[k]),
    ensures
        reports.filter(pred).len() > 0,
    decreases reports.len(),
{
    reveal(Seq::filter);
    if k < reports.len() - 1 {
        assert(reports.drop_last()[k] == reports[k]);
        lemma_each_counted(reports.drop_last(), pred, k);
    }
}

/// After a batch that was seen through without a failure, every result exists: a second batch
/// with the same directories that does not overwrite finds all of them.
pub proof fn law_results_exist_after_success(
    cfg: Config,
    images: Seq<PathView>,
    separator: Separator,
    workers: nat,
    disk: Set<Place>,
    steps: Seq<CrewStep>,
    second: Config,
)
    requires
        images.len() <= usize::MAX,
        sees_it_through(cfg, images, separator, new_crew(workers, disk), steps),
        failures(crew_reports(cfg, images, separator, new_crew(workers, disk), steps)) == 0,
        second.input@ == cfg.input@,
        second.output@ == cfg.output@,
    ensures
        all_results_exist(
            second,
            images,
            separator,
            crew_after(cfg, images, separator, new_crew(workers, disk), steps).disk,
        ),
{
    let crew = new_crew(workers, disk);
    let after = crew_after(cfg, images, separator, crew, steps);
    let reports = crew_reports(cfg, images, separator, crew, steps);
    let end_failed = |p: ProgressView| p is FileErr;
    assert forall|i: usize| i < images.len() implies after.disk.contains(
        #[trigger] result_place(second, images, separator, i),
    ) by {
        let end_of = |p: ProgressView| is_end_of(p, i);
        law_every_image_is_taken_once(cfg, images, separator, workers, disk, steps, i);
        lemma_some_counted(reports, end_of);
        let k = choose|k: int| 0 <= k < reports.len() && end_of(#[trigger] reports[k]);
        if reports[k] is FileErr {
            lemma_each_counted(reports, end_failed, k);
        }
        law_done_images_have_results(cfg, images, separator, crew, steps, k);
        assert(result_place(second, images, separator, i) == result_place(
            cfg,
            images,
            separator,
            i,
        ));
    }
}

} // verus!
