use google_img_translate::batch::{
    count_browsers, run_batch, start_batch, BatchAction, BatchEvent, BatchStage,
};
use google_img_translate::config::{Config, Progress};
use google_img_translate::path::{show_path, Name, OsPath, Separator};
use google_img_translate::translate::{job_for, TranslateError};
use google_img_translate::worker::{
    start_worker, worker, WorkerAction, WorkerEvent, WorkerState, WorkerStep, RETRIES,
};

fn name(gap: &str, text: &str) -> Name {
    Name { gap: gap.to_string(), bytes: text.as_bytes().to_vec(), text: text.to_string() }
}

fn path(names: &[&str]) -> OsPath {
    OsPath {
        prefix: None,
        root: Some("/".to_string()),
        names: names
            .iter()
            .enumerate()
            .map(|(i, n)| name(if i == 0 { "" } else { "/" }, n))
            .collect(),
        trail: String::new(),
    }
}

fn config() -> Config {
    Config {
        input: path(&["in"]),
        output: path(&["out"]),
        source: "auto".to_string(),
        target: "en".to_string(),
        timeout_nanos: 90_000_000_000,
        headless: false,
        overwrite: false,
        chrome: None,
        recursive: true,
        concurrency: 1,
    }
}

fn images() -> Vec<OsPath> {
    vec![path(&["in", "a.jpg"]), path(&["in", "详情", "1.jpg"])]
}

fn shown(p: &OsPath) -> String {
    show_path(p)
}

fn step(state: &mut WorkerState, event: WorkerEvent) -> WorkerStep {
    worker(&config(), &images(), Separator::Slash, state, event)
}

#[test]
fn a_worker_takes_an_image_from_start_to_end() {
    let mut state = start_worker();
    assert!(matches!(
        step(&mut state, WorkerEvent::TabOpened(Ok(()))).action,
        WorkerAction::AskCancelled
    ));
    assert!(matches!(
        step(&mut state, WorkerEvent::Cancelled(false)).action,
        WorkerAction::Claim
    ));
    let begun = step(&mut state, WorkerEvent::Claimed(1));
    match begun.report {
        Some(Progress::FileStart { idx, total, name }) => {
            assert_eq!((idx, total, name.as_str()), (1, 2, "详情/1.jpg"))
        }
        _ => panic!(),
    }
    assert!(matches!(begun.action, WorkerAction::CheckExists(p) if shown(&p) == "/out/详情/1.jpg"));
    assert!(matches!(
        step(&mut state, WorkerEvent::Exists(false)).action,
        WorkerAction::MakeDir(p) if shown(&p) == "/out/详情"
    ));
    assert!(matches!(
        step(&mut state, WorkerEvent::DirMade(Ok(()))).action,
        WorkerAction::Translate(p) if shown(&p) == "/in/详情/1.jpg"
    ));
    match step(&mut state, WorkerEvent::Translated(Ok(vec![1, 2, 3]))).action {
        WorkerAction::Save { path, bytes } => {
            assert_eq!(shown(&path), "/out/详情/1.jpg");
            assert_eq!(bytes, vec![1, 2, 3]);
        }
        _ => panic!(),
    }
    let saved = step(&mut state, WorkerEvent::Saved(Ok(())));
    match saved.report {
        Some(Progress::FileOk { idx, name, path, bytes, skipped }) => {
            assert_eq!((idx, name.as_str(), bytes, skipped), (1, "详情/1.jpg", 3, false));
            assert_eq!(shown(&path), "/out/详情/1.jpg");
        }
        _ => panic!(),
    }
    assert!(matches!(saved.action, WorkerAction::Sleep(400)));
    assert!(matches!(step(&mut state, WorkerEvent::Slept).action, WorkerAction::AskCancelled));
}

#[test]
fn a_worker_without_a_tab_stops_with_a_remark() {
    let mut state = start_worker();
    let s = step(&mut state, WorkerEvent::TabOpened(Err("no".to_string())));
    assert!(matches!(s.report, Some(Progress::Log(m)) if m == "创建标签页失败：no"));
    assert!(matches!(s.action, WorkerAction::Stop) && state == WorkerState::Stopped);
}

#[test]
fn a_worker_stops_when_cancelled_or_out_of_images() {
    let mut state = WorkerState::Asking;
    assert!(matches!(step(&mut state, WorkerEvent::Cancelled(true)).action, WorkerAction::Stop));
    assert!(matches!(
        step(&mut state, WorkerEvent::Cancelled(false)).action,
        WorkerAction::Wait
    ));
    let mut state = WorkerState::Claiming;
    assert!(matches!(step(&mut state, WorkerEvent::Claimed(2)).action, WorkerAction::Stop));
}

#[test]
fn existing_results_are_skipped_unless_overwritten() {
    let mut state = WorkerState::Checking(0);
    let s = step(&mut state, WorkerEvent::Exists(true));
    match s.report {
        Some(Progress::FileOk { idx, name, path, bytes, skipped }) => {
            assert_eq!((idx, name.as_str(), bytes, skipped), (0, "a.jpg", 0, true));
            assert_eq!(shown(&path), "/out/a.jpg");
        }
        _ => panic!(),
    }
    assert!(matches!(s.action, WorkerAction::AskCancelled));
    let mut cfg = config();
    cfg.overwrite = true;
    let mut state = WorkerState::Checking(0);
    let s = worker(&cfg, &images(), Separator::Slash, &mut state, WorkerEvent::Exists(true));
    assert!(s.report.is_none());
    assert!(matches!(s.action, WorkerAction::MakeDir(p) if shown(&p) == "/out"));
}

#[test]
fn a_result_at_a_bare_root_needs_no_directory() {
    let mut cfg = config();
    cfg.output = path(&[]);
    cfg.input = path(&["in"]);
    let images = vec![path(&["in"])];
    let mut state = WorkerState::Checking(0);
    let s = worker(&cfg, &images, Separator::Slash, &mut state, WorkerEvent::Exists(false));
    assert!(matches!(s.action, WorkerAction::Translate(p) if shown(&p) == "/in"));
}

fn failure(state: WorkerState, event: WorkerEvent) -> (String, bool) {
    let mut state = state;
    let s = step(&mut state, event);
    let pauses = matches!(s.action, WorkerAction::Sleep(400));
    match s.report {
        Some(Progress::FileErr { idx: 0, name, error }) => {
            assert_eq!(name, "a.jpg");
            (error, pauses)
        }
        _ => panic!(),
    }
}

#[test]
fn failures_of_an_image_are_reported() {
    assert_eq!(
        failure(WorkerState::MakingDir(0), WorkerEvent::DirMade(Err("denied".to_string()))),
        ("创建输出子目录失败: denied".to_string(), false)
    );
    assert_eq!(
        failure(
            WorkerState::Translating(0),
            WorkerEvent::Translated(Err(TranslateError::Timeout))
        ),
        ("超时未返回翻译结果".to_string(), true)
    );
    assert_eq!(
        failure(WorkerState::Saving(0, 9), WorkerEvent::Saved(Err("full".to_string()))),
        ("保存失败: full".to_string(), true)
    );
}

#[test]
fn every_started_image_is_reported_once() {
    let mut state = start_worker();
    let mut reports: Vec<Progress> = Vec::new();
    let mut next = 0usize;
    let mut event = WorkerEvent::TabOpened(Ok(()));
    loop {
        let s = step(&mut state, event);
        reports.extend(s.report);
        event = match s.action {
            WorkerAction::AskCancelled => WorkerEvent::Cancelled(false),
            WorkerAction::Claim => {
                next += 1;
                WorkerEvent::Claimed(next - 1)
            }
            WorkerAction::CheckExists(_) => WorkerEvent::Exists(false),
            WorkerAction::MakeDir(_) => WorkerEvent::DirMade(Ok(())),
            WorkerAction::Translate(p) if shown(&p) == "/in/a.jpg" => {
                WorkerEvent::Translated(Err(TranslateError::Empty))
            }
            WorkerAction::Translate(_) => WorkerEvent::Translated(Ok(vec![0; 4])),
            WorkerAction::Save { .. } => WorkerEvent::Saved(Ok(())),
            WorkerAction::Sleep(_) => WorkerEvent::Slept,
            WorkerAction::Stop => break,
            WorkerAction::Wait => panic!(),
        };
    }
    assert_eq!(reports.len(), 4);
    assert!(matches!(reports[0], Progress::FileStart { idx: 0, .. }));
    assert!(matches!(reports[1], Progress::FileErr { idx: 0, .. }));
    assert!(matches!(reports[2], Progress::FileStart { idx: 1, .. }));
    assert!(matches!(reports[3], Progress::FileOk { idx: 1, bytes: 4, skipped: false, .. }));
}

#[test]
fn the_job_of_an_image_takes_over_the_settings() {
    let job = job_for(&config(), &images()[1]);
    assert_eq!((job.source.as_str(), job.target.as_str()), ("auto", "en"));
    assert_eq!(shown(&job.image), "/in/详情/1.jpg");
    assert_eq!(job.timeout_nanos, 90_000_000_000);
    assert_eq!(RETRIES, 1);
}

#[test]
fn browsers_are_limited() {
    assert_eq!(count_browsers(0, 10), 1);
    assert_eq!(count_browsers(1, 10), 1);
    assert_eq!(count_browsers(5, 10), 5);
    assert_eq!(count_browsers(20, 10), 8);
    assert_eq!(count_browsers(8, 3), 3);
}

fn fatal(reports: &[Progress]) -> &str {
    match reports {
        [Progress::Fatal(m)] => m,
        _ => panic!(),
    }
}

#[test]
fn a_batch_without_its_directories_is_fatal() {
    let cfg = config();
    let mut batch = start_batch();
    let s = run_batch(&cfg, &mut batch, BatchEvent::InputChecked(false));
    assert_eq!(fatal(&s.reports), "输入目录不存在: /in");
    assert!(s.action == BatchAction::Stop && batch.stage == BatchStage::Finished);

    let mut batch = start_batch();
    let s = run_batch(&cfg, &mut batch, BatchEvent::InputChecked(true));
    assert!(s.action == BatchAction::MakeOutput && s.reports.is_empty());
    let s = run_batch(&cfg, &mut batch, BatchEvent::OutputMade(Err("ro".to_string())));
    assert_eq!(fatal(&s.reports), "无法创建输出目录: ro");

    let mut batch = start_batch();
    run_batch(&cfg, &mut batch, BatchEvent::InputChecked(true));
    let s = run_batch(&cfg, &mut batch, BatchEvent::OutputMade(Ok(())));
    assert!(s.action == BatchAction::Collect);
    let s = run_batch(&cfg, &mut batch, BatchEvent::Collected(Err("io".to_string())));
    assert_eq!(fatal(&s.reports), "读取输入目录失败: io");
}

#[test]
fn a_batch_without_images_is_done_at_once() {
    let cfg = config();
    let mut batch = start_batch();
    run_batch(&cfg, &mut batch, BatchEvent::InputChecked(true));
    run_batch(&cfg, &mut batch, BatchEvent::OutputMade(Ok(())));
    let s = run_batch(&cfg, &mut batch, BatchEvent::Collected(Ok(0)));
    assert!(matches!(s.reports[0], Progress::Total(0)));
    assert!(matches!(
        &s.reports[1],
        Progress::Log(m) if m == "输入目录里没有支持的图片（jpg/jpeg/png/webp）。"
    ));
    assert!(matches!(s.reports[2], Progress::Done { ok: 0, failed: 0 }));
    assert!(s.reports.len() == 3 && s.action == BatchAction::Stop);
}

#[test]
fn a_batch_launches_its_browsers_and_counts_reports() {
    let mut cfg = config();
    cfg.concurrency = 2;
    cfg.headless = true;
    let mut batch = start_batch();
    run_batch(&cfg, &mut batch, BatchEvent::InputChecked(true));
    run_batch(&cfg, &mut batch, BatchEvent::OutputMade(Ok(())));
    let s = run_batch(&cfg, &mut batch, BatchEvent::Collected(Ok(3)));
    assert!(matches!(s.reports[0], Progress::Total(3)));
    assert!(matches!(&s.reports[1], Progress::Log(m) if m == "启动 2 个浏览器（无头）..."));
    assert!(s.action == BatchAction::Launch);
    let s = run_batch(&cfg, &mut batch, BatchEvent::Launched(Ok(())));
    assert!(s.action == BatchAction::Launch);
    let s = run_batch(&cfg, &mut batch, BatchEvent::Launched(Ok(())));
    assert!(s.action == BatchAction::StartWorkers && s.reports.is_empty());
    let ok = || Progress::FileOk {
        idx: 0,
        name: "a".to_string(),
        path: path(&["out", "a"]),
        bytes: 1,
        skipped: false,
    };
    let err = Progress::FileErr { idx: 1, name: "b".to_string(), error: "e".to_string() };
    for p in [ok(), err, Progress::Log("x".to_string()), ok()] {
        let s = run_batch(&cfg, &mut batch, BatchEvent::Reported(p));
        assert!(s.action == BatchAction::Receive && s.reports.len() == 1);
    }
    let s = run_batch(&cfg, &mut batch, BatchEvent::WorkersDone);
    assert!(matches!(s.reports[0], Progress::Done { ok: 2, failed: 1 }));
    assert!(s.reports.len() == 1 && s.action == BatchAction::Stop);
    let s = run_batch(&cfg, &mut batch, BatchEvent::WorkersDone);
    assert!(s.reports.is_empty() && s.action == BatchAction::Wait);
}

#[test]
fn a_browser_that_does_not_start_is_fatal() {
    let mut cfg = config();
    cfg.concurrency = 3;
    let mut batch = start_batch();
    run_batch(&cfg, &mut batch, BatchEvent::InputChecked(true));
    run_batch(&cfg, &mut batch, BatchEvent::OutputMade(Ok(())));
    let s = run_batch(&cfg, &mut batch, BatchEvent::Collected(Ok(3)));
    assert!(matches!(&s.reports[1], Progress::Log(m) if m == "启动 3 个浏览器（可见窗口）..."));
    run_batch(&cfg, &mut batch, BatchEvent::Launched(Ok(())));
    let s = run_batch(&cfg, &mut batch, BatchEvent::Launched(Err("boom".to_string())));
    assert_eq!(fatal(&s.reports), "启动第 2 个 Chrome 失败：boom");
    assert!(s.action == BatchAction::Stop);
}

#[test]
fn the_missing_input_is_named_as_it_was_given() {
    let mut cfg = config();
    cfg.input = OsPath { trail: "/".to_string(), ..path(&["in"]) };
    cfg.input.root = None;
    let mut batch = start_batch();
    let s = run_batch(&cfg, &mut batch, BatchEvent::InputChecked(false));
    assert_eq!(fatal(&s.reports), "输入目录不存在: in/");
}

fn three_images() -> Vec<OsPath> {
    vec![path(&["in", "a.jpg"]), path(&["in", "b.jpg"]), path(&["in", "c.jpg"])]
}

/// Workers that share a counter and a list of files, each a step at a time in turn; the reports
/// go through a batch. Images whose path holds `failing` fail.
struct Crew {
    reports: Vec<Progress>,
    touched: usize,
}

fn run_crew(
    cfg: &Config,
    images: &Vec<OsPath>,
    files: &mut Vec<String>,
    failing: &str,
    cancel_after: usize,
    tabs: &[bool],
) -> Crew {
    let mut batch = start_batch();
    let mut reports: Vec<Progress> = Vec::new();
    let mut touched = 0usize;
    run_batch(cfg, &mut batch, BatchEvent::InputChecked(true));
    run_batch(cfg, &mut batch, BatchEvent::OutputMade(Ok(())));
    let s = run_batch(cfg, &mut batch, BatchEvent::Collected(Ok(images.len())));
    reports.extend(s.reports);
    for _ in tabs {
        run_batch(cfg, &mut batch, BatchEvent::Launched(Ok(())));
    }
    assert!(batch.stage == BatchStage::Working);
    let mut next = 0usize;
    let mut begun = 0usize;
    let mut workers: Vec<(WorkerState, Option<WorkerEvent>)> = tabs
        .iter()
        .map(|opens| {
            let opened = if *opens { Ok(()) } else { Err("no tab".to_string()) };
            (start_worker(), Some(WorkerEvent::TabOpened(opened)))
        })
        .collect();
    while workers.iter().any(|w| w.1.is_some()) {
        for w in workers.iter_mut() {
            let Some(event) = w.1.take() else { continue };
            let s = worker(cfg, images, Separator::Slash, &mut w.0, event);
            if let Some(p) = s.report {
                if let Progress::FileStart { .. } = p {
                    begun += 1;
                }
                let step = run_batch(cfg, &mut batch, BatchEvent::Reported(p));
                reports.extend(step.reports);
            }
            w.1 = match s.action {
                WorkerAction::AskCancelled => Some(WorkerEvent::Cancelled(begun >= cancel_after)),
                WorkerAction::Claim => {
                    next += 1;
                    Some(WorkerEvent::Claimed(next - 1))
                }
                WorkerAction::CheckExists(p) => {
                    Some(WorkerEvent::Exists(files.contains(&shown(&p))))
                }
                WorkerAction::MakeDir(_) => {
                    touched += 1;
                    Some(WorkerEvent::DirMade(Ok(())))
                }
                WorkerAction::Translate(p) => {
                    touched += 1;
                    Some(WorkerEvent::Translated(if shown(&p).contains(failing) {
                        Err(TranslateError::Timeout)
                    } else {
                        Ok(vec![1, 2, 3])
                    }))
                }
                WorkerAction::Save { path, .. } => {
                    touched += 1;
                    files.push(shown(&path));
                    Some(WorkerEvent::Saved(Ok(())))
                }
                WorkerAction::Sleep(_) => Some(WorkerEvent::Slept),
                WorkerAction::Stop | WorkerAction::Wait => None,
            };
        }
    }
    let s = run_batch(cfg, &mut batch, BatchEvent::WorkersDone);
    reports.extend(s.reports);
    Crew { reports, touched }
}

fn starts_and_ends(reports: &[Progress], i: usize) -> (usize, usize) {
    let starts = reports
        .iter()
        .filter(|p| matches!(p, Progress::FileStart { idx, .. } if *idx == i))
        .count();
    let ends = reports
        .iter()
        .filter(|p| {
            matches!(p, Progress::FileOk { idx, .. } if *idx == i)
                || matches!(p, Progress::FileErr { idx, .. } if *idx == i)
        })
        .count();
    (starts, ends)
}

#[test]
fn several_workers_take_every_image_once() {
    let mut cfg = config();
    cfg.concurrency = 2;
    let crew = run_crew(&cfg, &three_images(), &mut vec![], "b.jpg", 9, &[true, true]);
    for i in 0..3 {
        assert_eq!(starts_and_ends(&crew.reports, i), (1, 1));
    }
    assert!(matches!(crew.reports[0], Progress::Total(3)));
    assert!(matches!(crew.reports.last(), Some(Progress::Done { ok: 2, failed: 1 })));
    assert!(crew.reports.iter().any(|p| matches!(
        p,
        Progress::FileStart { idx: 2, total: 3, name } if name == "c.jpg"
    )));
}

#[test]
fn one_tab_is_enough_for_all_images() {
    let mut cfg = config();
    cfg.concurrency = 3;
    let crew = run_crew(&cfg, &three_images(), &mut vec![], "-", 9, &[false, true, false]);
    for i in 0..3 {
        assert_eq!(starts_and_ends(&crew.reports, i), (1, 1));
    }
    assert!(matches!(crew.reports.last(), Some(Progress::Done { ok: 3, failed: 0 })));
}

#[test]
fn a_cancelled_batch_counts_the_images_begun() {
    let mut cfg = config();
    cfg.concurrency = 2;
    let crew = run_crew(&cfg, &three_images(), &mut vec![], "-", 1, &[true, true]);
    assert_eq!(starts_and_ends(&crew.reports, 0), (1, 1));
    assert_eq!(starts_and_ends(&crew.reports, 1), (1, 1));
    assert_eq!(starts_and_ends(&crew.reports, 2), (0, 0));
    assert!(matches!(crew.reports.last(), Some(Progress::Done { ok: 2, failed: 0 })));
}

#[test]
fn a_second_batch_only_skips() {
    let mut cfg = config();
    cfg.concurrency = 2;
    let mut files: Vec<String> = Vec::new();
    let first = run_crew(&cfg, &three_images(), &mut files, "-", 9, &[true, true]);
    assert!(matches!(first.reports.last(), Some(Progress::Done { ok: 3, failed: 0 })));
    assert_eq!(files.len(), 3);
    let second = run_crew(&cfg, &three_images(), &mut files, "-", 9, &[true, true]);
    assert_eq!((files.len(), second.touched), (3, 0));
    assert!(matches!(second.reports.last(), Some(Progress::Done { ok: 3, failed: 0 })));
    for p in &second.reports {
        match p {
            Progress::FileOk { bytes, skipped, .. } => assert!(*bytes == 0 && *skipped),
            Progress::FileErr { .. } => panic!(),
            _ => {}
        }
    }
}

#[test]
fn the_number_of_images_comes_first_and_once() {
    let mut cfg = config();
    cfg.concurrency = 2;
    let crew = run_crew(&cfg, &three_images(), &mut vec![], "-", 9, &[true, true]);
    let totals: Vec<usize> = (0..crew.reports.len())
        .filter(|i| matches!(crew.reports[*i], Progress::Total(_)))
        .collect();
    assert_eq!(totals, vec![0]);
}
