//! The translation of one image: what to do next in the browser, step by step.

use crate::codec::{
    base64_bytes, base64_text, decode_image, encodable, encode_image, eval_str, evaluated_text,
    is_base64_char, is_plain_json_string,
};
use crate::config::Config;
use crate::page::{
    extraction, input_wait, page_address, page_url, read_extraction, upload_script, upload_text,
    wait_for_input, Extracted, ExtractedView, InputWait, EXTRACT_JS, INPUT_PRESENT_JS,
    INPUT_WAIT_NANOS,
};
use crate::path::{media_type, mime_of, path_text, show_path, OsPath, PathView};
use crate::text::{chain, has_prefix, starts_with};
use vstd::prelude::*;

verus! {

/// What is to be translated.
pub struct Job {
    pub source: String,
    pub target: String,
    pub image: OsPath,
    pub timeout_nanos: u128,
}

/// `job` is the job of translating `image` as `cfg` says.
pub open spec fn is_job_of(cfg: Config, image: PathView, job: Job) -> bool {
    &&& job.source@ == cfg.source@
    &&& job.target@ == cfg.target@
    &&& job.image@ == image
    &&& job.timeout_nanos == cfg.timeout_nanos
}

/// The job of translating `image` as `cfg` says.
pub fn job_for(cfg: &Config, image: &OsPath) -> (job: Job)
    ensures
        is_job_of(*cfg, image@, job),
        job.source@ == cfg.source@,
        job.target@ == cfg.target@,
        job.image@ == image@,
        job.timeout_nanos == cfg.timeout_nanos,
{
    Job {
        source: cfg.source.clone(),
        target: cfg.target.clone(),
        image: image.clone(),
        timeout_nanos: cfg.timeout_nanos,
    }
}

/// Why an image was not translated.
pub enum TranslateError {
    /// The image file, whose path is given, could not be read.
    ReadImage(String),
    /// The page could not be opened.
    Navigate,
    /// The page did not load.
    Load,
    /// The page has no file input for images.
    NoInput,
    /// A script could not be run.
    Evaluate(String),
    /// The upload script refused.
    Upload(String),
    /// The reply is not base64.
    Decode,
    /// The reply holds no image.
    Empty,
    /// The extraction script failed.
    Script(String),
    /// The extraction script said something else.
    Unknown(String),
    /// No result came in time.
    Timeout,
}

/// The mathematical value of a [`TranslateError`].
pub enum ErrorView {
    ReadImage(Seq<char>),
    Navigate,
    Load,
    NoInput,
    Evaluate(Seq<char>),
    Upload(Seq<char>),
    Decode,
    Empty,
    Script(Seq<char>),
    Unknown(Seq<char>),
    Timeout,
}

impl View for TranslateError {
    type V = ErrorView;

    open spec fn view(&self) -> ErrorView {
        match *self {
            TranslateError::ReadImage(s) => ErrorView::ReadImage(s@),
            TranslateError::Navigate => ErrorView::Navigate,
            TranslateError::Load => ErrorView::Load,
            TranslateError::NoInput => ErrorView::NoInput,
            TranslateError::Evaluate(s) => ErrorView::Evaluate(s@),
            TranslateError::Upload(s) => ErrorView::Upload(s@),
            TranslateError::Decode => ErrorView::Decode,
            TranslateError::Empty => ErrorView::Empty,
            TranslateError::Script(s) => ErrorView::Script(s@),
            TranslateError::Unknown(s) => ErrorView::Unknown(s@),
            TranslateError::Timeout => ErrorView::Timeout,
        }
    }
}

/// The message of an error.
pub open spec fn error_message(e: ErrorView) -> Seq<char> {
    match e {
        ErrorView::ReadImage(path) => "读取图片失败: "@ + path,
        ErrorView::Navigate => "导航到图片翻译页失败"@,
        ErrorView::Load => "等待页面加载失败"@,
        ErrorView::NoInput => "未找到图片上传输入框"@,
        ErrorView::Evaluate(s) => s,
        ErrorView::Upload(s) => "上传触发失败: "@ + s,
        ErrorView::Decode => "base64 解码翻译图片失败"@,
        ErrorView::Empty => "响应中无图片（可能未识别到可翻译文字）"@,
        ErrorView::Script(s) => "解析响应出错: "@ + s,
        ErrorView::Unknown(s) => "未知响应: "@ + s,
        ErrorView::Timeout => "超时未返回翻译结果"@,
    }
}

impl TranslateError {
    /// The message of the error.
    pub fn message(&self) -> (s: String)
        ensures
            s@ == error_message(self@),
    {
        match self {
            TranslateError::ReadImage(path) => chain("读取图片失败: ", path.as_str()),
            TranslateError::Navigate => "导航到图片翻译页失败".to_owned(),
            TranslateError::Load => "等待页面加载失败".to_owned(),
            TranslateError::NoInput => "未找到图片上传输入框".to_owned(),
            TranslateError::Evaluate(s) => s.clone(),
            TranslateError::Upload(s) => chain("上传触发失败: ", s.as_str()),
            TranslateError::Decode => "base64 解码翻译图片失败".to_owned(),
            TranslateError::Empty => "响应中无图片（可能未识别到可翻译文字）".to_owned(),
            TranslateError::Script(s) => chain("解析响应出错: ", s.as_str()),
            TranslateError::Unknown(s) => chain("未知响应: ", s.as_str()),
            TranslateError::Timeout => "超时未返回翻译结果".to_owned(),
        }
    }
}

/// How far the translation of an image has come, by what is being waited for.
#[derive(Clone, Copy, PartialEq, Eq, Structural)]
pub enum Stage {
    /// The image file is read.
    Reading,
    /// The page is opened.
    Navigating,
    /// The page loads.
    Loading,
    /// The file input is looked for.
    Finding,
    /// There is a pause before the next look.
    FindingPause,
    /// The image is uploaded.
    Uploading,
    /// The result is asked for.
    Polling,
    /// There is a pause before the result is asked for again.
    PollingPause,
    /// Nothing more is done.
    Finished,
}

/// The translation of one image under way.
pub struct Run {
    pub stage: Stage,
    /// The upload script, once the image is read.
    pub upload: String,
}

/// The mathematical value of a [`Run`].
pub struct RunView {
    pub stage: Stage,
    pub upload: Seq<char>,
}

impl View for Run {
    type V = RunView;

    open spec fn view(&self) -> RunView {
        RunView { stage: self.stage, upload: self.upload@ }
    }
}

/// A translation that waits for its image file.
pub fn start_run() -> (run: Run)
    ensures
        run.stage == Stage::Reading,
        run.upload@ == Seq::<char>::empty(),
{
    Run { stage: Stage::Reading, upload: String::new() }
}

/// What came of the last action, as the browser and the file system gave it.
pub enum TranslateEvent {
    /// The image file was read.
    ImageRead(Result<Vec<u8>, String>),
    /// The page was opened.
    Navigated(Result<(), String>),
    /// The page was loaded.
    Loaded(Result<(), String>),
    /// A script was run: the JSON notation of its value, and the nanoseconds since the clock
    /// was last started.
    Evaluated { value: Result<Option<String>, String>, elapsed_nanos: u128 },
    /// The pause is over.
    Slept,
}

/// What came of the last action, with the data in the notation of the page.
pub enum PageEvent {
    /// The image in base64 notation, where its file could be read.
    Encoded(Option<String>),
    /// The page was opened.
    Navigated(bool),
    /// The page was loaded.
    Loaded(bool),
    /// A script replied.
    Replied { text: Result<String, String>, elapsed_nanos: u128 },
    /// The pause is over.
    Slept,
}

/// The mathematical value of a [`PageEvent`].
pub enum PageEventView {
    Encoded(Option<Seq<char>>),
    Navigated(bool),
    Loaded(bool),
    Replied { text: Result<Seq<char>, Seq<char>>, elapsed_nanos: u128 },
    Slept,
}

impl View for PageEvent {
    type V = PageEventView;

    open spec fn view(&self) -> PageEventView {
        match *self {
            PageEvent::Encoded(b64) => PageEventView::Encoded(
                match b64 {
                    Some(s) => Some(s@),
                    None => None,
                },
            ),
            PageEvent::Navigated(ok) => PageEventView::Navigated(ok),
            PageEvent::Loaded(ok) => PageEventView::Loaded(ok),
            PageEvent::Replied { text, elapsed_nanos } => PageEventView::Replied {
                text: match text {
                    Ok(s) => Ok(s@),
                    Err(e) => Err(e@),
                },
                elapsed_nanos,
            },
            PageEvent::Slept => PageEventView::Slept,
        }
    }
}

/// What is to be done next.
pub enum TranslateAction {
    /// Keep waiting: what came was not what is waited for.
    Wait,
    /// Open the page with this address.
    Navigate(String),
    /// Wait until the page is loaded.
    AwaitLoad,
    /// Run a script, after starting the clock where `start_clock` is set.
    Evaluate { script: String, await_promise: bool, start_clock: bool },
    /// Pause for so many milliseconds.
    Sleep(u64),
    /// Take the image from its base64 notation.
    Decode(String),
    /// The translated image, or why there is none.
    Finish(Result<Vec<u8>, TranslateError>),
}

/// The mathematical value of a [`TranslateAction`].
pub enum ActionView {
    Wait,
    Navigate(Seq<char>),
    AwaitLoad,
    Evaluate { script: Seq<char>, await_promise: bool, start_clock: bool },
    Sleep(u64),
    Decode(Seq<char>),
    Finish(Result<Seq<u8>, ErrorView>),
}

impl View for TranslateAction {
    type V = ActionView;

    open spec fn view(&self) -> ActionView {
        match *self {
            TranslateAction::Wait => ActionView::Wait,
            TranslateAction::Navigate(s) => ActionView::Navigate(s@),
            TranslateAction::AwaitLoad => ActionView::AwaitLoad,
            TranslateAction::Evaluate { script, await_promise, start_clock } => ActionView::Evaluate {
                script: script@,
                await_promise,
                start_clock,
            },
            TranslateAction::Sleep(ms) => ActionView::Sleep(ms),
            TranslateAction::Decode(s) => ActionView::Decode(s@),
            TranslateAction::Finish(r) => ActionView::Finish(
                match r {
                    Ok(bytes) => Ok(bytes@),
                    Err(e) => Err(e@),
                },
            ),
        }
    }
}

/// A stage and an action that follows it.
pub open spec fn go(run: RunView, stage: Stage, action: ActionView) -> (RunView, ActionView) {
    (RunView { stage, upload: run.upload }, action)
}

/// The end of a translation that failed.
pub open spec fn give_up(run: RunView, e: ErrorView) -> (RunView, ActionView) {
    go(run, Stage::Finished, ActionView::Finish(Err(e)))
}

/// The look for the file input.
pub open spec fn look(start_clock: bool) -> ActionView {
    ActionView::Evaluate { script: INPUT_PRESENT_JS@, await_promise: false, start_clock }
}

/// The question for the result.
pub open spec fn poll(start_clock: bool) -> ActionView {
    ActionView::Evaluate { script: EXTRACT_JS@, await_promise: true, start_clock }
}

/// What follows the reply `text` to the question for the result.
pub open spec fn after_poll(
    job: Job,
    run: RunView,
    text: Seq<char>,
    elapsed_nanos: u128,
) -> (RunView, ActionView) {
    match extraction(text) {
        ExtractedView::Image(b64) => go(run, Stage::Finished, ActionView::Decode(b64)),
        ExtractedView::Pending => if elapsed_nanos >= job.timeout_nanos {
            give_up(run, ErrorView::Timeout)
        } else {
            go(run, Stage::PollingPause, ActionView::Sleep(500))
        },
        ExtractedView::Empty => give_up(run, ErrorView::Empty),
        ExtractedView::ScriptError(s) => give_up(run, ErrorView::Script(s)),
        ExtractedView::Unknown(s) => give_up(run, ErrorView::Unknown(s)),
    }
}

/// What follows `event` in the translation of one image: the image is read, the page opened and
/// loaded, its file input found, the image uploaded, and the result asked for until it comes or
/// the time is up. An event that does not fit the stage changes nothing.
pub open spec fn next(job: Job, run: RunView, event: PageEventView) -> (RunView, ActionView) {
    match (run.stage, event) {
        (Stage::Reading, PageEventView::Encoded(Some(b64))) => (
            RunView {
                stage: Stage::Navigating,
                upload: upload_text(b64, media_type(job.image@)),
            },
            ActionView::Navigate(page_address(job.source@, job.target@)),
        ),
        (Stage::Reading, PageEventView::Encoded(None)) => give_up(
            run,
            ErrorView::ReadImage(path_text(job.image@)),
        ),
        (Stage::Navigating, PageEventView::Navigated(ok)) => if ok {
            go(run, Stage::Loading, ActionView::AwaitLoad)
        } else {
            give_up(run, ErrorView::Navigate)
        },
        (Stage::Loading, PageEventView::Loaded(ok)) => if ok {
            go(run, Stage::Finding, look(true))
        } else {
            give_up(run, ErrorView::Load)
        },
        (Stage::Finding, PageEventView::Replied { text: Ok(text), elapsed_nanos }) => match input_wait(
            text,
            elapsed_nanos,
            INPUT_WAIT_NANOS,
        ) {
            InputWait::Present => go(
                run,
                Stage::Uploading,
                ActionView::Evaluate {
                    script: run.upload,
                    await_promise: true,
                    start_clock: false,
                },
            ),
            InputWait::Again => go(run, Stage::FindingPause, ActionView::Sleep(300)),
            InputWait::TimedOut => give_up(run, ErrorView::NoInput),
        },
        (Stage::Finding, PageEventView::Replied { text: Err(_), .. }) => give_up(
            run,
            ErrorView::NoInput,
        ),
        (Stage::FindingPause, PageEventView::Slept) => go(run, Stage::Finding, look(false)),
        (Stage::Uploading, PageEventView::Replied { text: Ok(text), .. }) => if has_prefix(
            text,
            "OK"@,
        ) {
            go(run, Stage::Polling, poll(true))
        } else {
            give_up(run, ErrorView::Upload(text))
        },
        (Stage::Uploading, PageEventView::Replied { text: Err(e), .. }) => give_up(
            run,
            ErrorView::Evaluate(e),
        ),
        (Stage::Polling, PageEventView::Replied { text: Ok(text), elapsed_nanos }) => after_poll(
            job,
            run,
            text,
            elapsed_nanos,
        ),
        (Stage::Polling, PageEventView::Replied { text: Err(e), .. }) => give_up(
            run,
            ErrorView::Evaluate(e),
        ),
        (Stage::PollingPause, PageEventView::Slept) => go(run, Stage::Polling, poll(false)),
        _ => (run, ActionView::Wait),
    }
}

/// Ends a translation that failed.
fn fail(run: &mut Run, e: TranslateError) -> (action: TranslateAction)
    ensures
        (final(run)@, action@) == give_up(old(run)@, e@),
{
    run.stage = Stage::Finished;
    TranslateAction::Finish(Err(e))
}

/// Goes on after the reply `text` to the question for the result.
fn advance_poll(job: &Job, run: &mut Run, text: &str, elapsed_nanos: u128) -> (action:
    TranslateAction)
    ensures
        (final(run)@, action@) == after_poll(*job, old(run)@, text@, elapsed_nanos),
{
    match read_extraction(text) {
        Extracted::Image(b64) => {
            run.stage = Stage::Finished;
            TranslateAction::Decode(b64)
        },
        Extracted::Pending => {
            if elapsed_nanos >= job.timeout_nanos {
                fail(run, TranslateError::Timeout)
            } else {
                run.stage = Stage::PollingPause;
                TranslateAction::Sleep(500)
            }
        },
        Extracted::Empty => fail(run, TranslateError::Empty),
        Extracted::ScriptError(s) => fail(run, TranslateError::Script(s)),
        Extracted::Unknown(s) => fail(run, TranslateError::Unknown(s)),
    }
}

/// The evaluation of a script of the library.
fn evaluate(script: &str, await_promise: bool, start_clock: bool) -> (action: TranslateAction)
    ensures
        action@ == (ActionView::Evaluate { script: script@, await_promise, start_clock }),
{
    TranslateAction::Evaluate { script: script.to_owned(), await_promise, start_clock }
}

/// Takes the translation of one image a step further, with the data in the notation of the
/// page.
pub fn advance(job: &Job, run: &mut Run, event: PageEvent) -> (action: TranslateAction)
    ensures
        (final(run)@, action@) == next(*job, old(run)@, event@),
{
    match (run.stage, event) {
        (Stage::Reading, PageEvent::Encoded(Some(b64))) => {
            run.upload = upload_script(b64.as_str(), mime_of(&job.image));
            run.stage = Stage::Navigating;
            TranslateAction::Navigate(page_url(job.source.as_str(), job.target.as_str()))
        },
        (Stage::Reading, PageEvent::Encoded(None)) => {
            let shown = show_path(&job.image);
            fail(run, TranslateError::ReadImage(shown))
        },
        (Stage::Navigating, PageEvent::Navigated(ok)) => {
            if ok {
                run.stage = Stage::Loading;
                TranslateAction::AwaitLoad
            } else {
                fail(run, TranslateError::Navigate)
            }
        },
        (Stage::Loading, PageEvent::Loaded(ok)) => {
            if ok {
                run.stage = Stage::Finding;
                evaluate(INPUT_PRESENT_JS, false, true)
            } else {
                fail(run, TranslateError::Load)
            }
        },
        (Stage::Finding, PageEvent::Replied { text, elapsed_nanos }) => match text {
            Ok(text) => match wait_for_input(text.as_str(), elapsed_nanos, INPUT_WAIT_NANOS) {
                InputWait::Present => {
                    run.stage = Stage::Uploading;
                    evaluate(run.upload.as_str(), true, false)
                },
                InputWait::Again => {
                    run.stage = Stage::FindingPause;
                    TranslateAction::Sleep(300)
                },
                InputWait::TimedOut => fail(run, TranslateError::NoInput),
            },
            Err(_) => fail(run, TranslateError::NoInput),
        },
        (Stage::FindingPause, PageEvent::Slept) => {
            run.stage = Stage::Finding;
            evaluate(INPUT_PRESENT_JS, false, false)
        },
        (Stage::Uploading, PageEvent::Replied { text, elapsed_nanos }) => match text {
            Ok(text) => {
                if starts_with(text.as_str(), "OK") {
                    run.stage = Stage::Polling;
                    evaluate(EXTRACT_JS, true, true)
                } else {
                    fail(run, TranslateError::Upload(text))
                }
            },
            Err(e) => fail(run, TranslateError::Evaluate(e)),
        },
        (Stage::Polling, PageEvent::Replied { text, elapsed_nanos }) => match text {
            Ok(text) => advance_poll(job, run, text.as_str(), elapsed_nanos),
            Err(e) => fail(run, TranslateError::Evaluate(e)),
        },
        (Stage::PollingPause, PageEvent::Slept) => {
            run.stage = Stage::Polling;
            evaluate(EXTRACT_JS, true, false)
        },
        _ => TranslateAction::Wait,
    }
}

/// An event with its data in the notation of the page: the image in base64, and for a script's
/// value the text that stands for it.
pub open spec fn in_page_notation(event: TranslateEvent) -> PageEventView {
    match event {
        TranslateEvent::ImageRead(r) => PageEventView::Encoded(
            match r {
                Ok(raw) => Some(base64_text(raw@)),
                Err(_) => None,
            },
        ),
        TranslateEvent::Navigated(r) => PageEventView::Navigated(r is Ok),
        TranslateEvent::Loaded(r) => PageEventView::Loaded(r is Ok),
        TranslateEvent::Evaluated { value, elapsed_nanos } => PageEventView::Replied {
            text: match value {
                Ok(json) => Ok(
                    evaluated_text(
                        match json {
                            Some(j) => Some(j@),
                            None => None,
                        },
                    ),
                ),
                Err(e) => Err(e@),
            },
            elapsed_nanos,
        },
        TranslateEvent::Slept => PageEventView::Slept,
    }
}

/// An action with the image decoded: a text that is not base64 makes the translation fail.
pub open spec fn decoded(action: ActionView) -> ActionView {
    match action {
        ActionView::Decode(b64) => ActionView::Finish(
            match base64_bytes(b64) {
                Some(bytes) => Ok(bytes),
                None => Err(ErrorView::Decode),
            },
        ),
        _ => action,
    }
}

/// What follows `event` in the translation of one image.
pub open spec fn translate_next(job: Job, run: RunView, event: TranslateEvent) -> (
    RunView,
    ActionView,
) {
    let (after, action) = next(job, run, in_page_notation(event));
    (after, decoded(action))
}

/// Ends a translation with what decoding the result gave.
pub fn finish_with(image: Option<Vec<u8>>) -> (action: TranslateAction)
    ensures
        action@ == ActionView::Finish(
            match image {
                Some(bytes) => Ok(bytes@),
                None => Err(ErrorView::Decode),
            },
        ),
{
    match image {
        Some(bytes) => TranslateAction::Finish(Ok(bytes)),
        None => TranslateAction::Finish(Err(TranslateError::Decode)),
    }
}

/// Takes the translation of one image a step further.
pub fn translate_one(job: &Job, run: &mut Run, event: TranslateEvent) -> (action: TranslateAction)
    requires
        event matches TranslateEvent::ImageRead(Ok(raw)) ==> encodable(raw@.len()),
    ensures
        (final(run)@, action@) == translate_next(*job, old(run)@, event),
        !(action is Decode),
{
    let page_event = match event {
        TranslateEvent::ImageRead(r) => match r {
            Ok(raw) => PageEvent::Encoded(Some(encode_image(&raw))),
            Err(_) => PageEvent::Encoded(None),
        },
        TranslateEvent::Navigated(r) => PageEvent::Navigated(r.is_ok()),
        TranslateEvent::Loaded(r) => PageEvent::Loaded(r.is_ok()),
        TranslateEvent::Evaluated { value, elapsed_nanos } => match value {
            Ok(json) => PageEvent::Replied { text: Ok(eval_str(&json)), elapsed_nanos },
            Err(e) => PageEvent::Replied { text: Err(e), elapsed_nanos },
        },
        TranslateEvent::Slept => PageEvent::Slept,
    };
    assert(page_event@ == in_page_notation(event));
    match advance(job, run, page_event) {
        TranslateAction::Decode(b64) => finish_with(decode_image(b64.as_str())),
        action => action,
    }
}

/// How far a stage is on the way through a translation.
pub open spec fn rank(stage: Stage) -> int {
    match stage {
        Stage::Reading => 0,
        Stage::Navigating => 1,
        Stage::Loading => 2,
        Stage::Finding => 3,
        Stage::FindingPause => 3,
        Stage::Uploading => 4,
        Stage::Polling => 5,
        Stage::PollingPause => 5,
        Stage::Finished => 6,
    }
}

/// The state of a translation after a sequence of events.
pub open spec fn run_after(job: Job, run: RunView, events: Seq<TranslateEvent>) -> RunView
    decreases events.len(),
{
    if events.len() == 0 {
        run
    } else {
        run_after(job, translate_next(job, run, events[0]).0, events.skip(1))
    }
}

/// How many uploads a translation asks for in the course of a sequence of events.
pub open spec fn uploads(job: Job, run: RunView, events: Seq<TranslateEvent>) -> nat
    decreases events.len(),
{
    if events.len() == 0 {
        0
    } else {
        let (after, action) = translate_next(job, run, events[0]);
        uploads(job, after, events.skip(1)) + if action is Evaluate && after.stage
            == Stage::Uploading {
            1nat
        } else {
            0nat
        }
    }
}

/// How many results a translation gives in the course of a sequence of events.
pub open spec fn results(job: Job, run: RunView, events: Seq<TranslateEvent>) -> nat
    decreases events.len(),
{
    if events.len() == 0 {
        0
    } else {
        let (after, action) = translate_next(job, run, events[0]);
        results(job, after, events.skip(1)) + if action is Finish {
            1nat
        } else {
            0nat
        }
    }
}

/// A translation never goes back to an earlier stage, and gives a result exactly when it comes
/// to its end.
pub proof fn law_stages_only_advance(job: Job, run: RunView, event: TranslateEvent)
    ensures
        rank(run.stage) <= rank(translate_next(job, run, event).0.stage),
        translate_next(job, run, event).1 is Finish <==> run.stage != Stage::Finished
            && translate_next(job, run, event).0.stage == Stage::Finished,
        !(translate_next(job, run, event).1 is Decode),
{
}

/// Whatever happens, a translation uploads its image at most once.
pub proof fn law_uploads_at_most_once(job: Job, run: RunView, events: Seq<TranslateEvent>)
    ensures
        uploads(job, run, events) <= 1,
        rank(run.stage) >= rank(Stage::Uploading) ==> uploads(job, run, events) == 0,
    decreases events.len(),
{
    if events.len() > 0 {
        law_uploads_at_most_once(job, translate_next(job, run, events[0]).0, events.skip(1));
    }
}

/// Whatever happens, a translation gives at most one result, and none once it has ended.
pub proof fn law_gives_at_most_one_result(job: Job, run: RunView, events: Seq<TranslateEvent>)
    ensures
        results(job, run, events) <= 1,
        run.stage == Stage::Finished ==> results(job, run, events) == 0,
    decreases events.len(),
{
    if events.len() > 0 {
        law_gives_at_most_one_result(job, translate_next(job, run, events[0]).0, events.skip(1));
    }
}

/// The script that is run for the upload carries the image that was read and its media type,
/// whatever happened since.
pub proof fn law_upload_carries_the_image(
    job: Job,
    run: RunView,
    raw: Vec<u8>,
    events: Seq<TranslateEvent>,
    event: TranslateEvent,
)
    requires
        run.stage == Stage::Reading,
    ensures
        ({
            let read = translate_next(job, run, TranslateEvent::ImageRead(Ok(raw))).0;
            let before = run_after(job, read, events);
            let (after, action) = translate_next(job, before, event);
            after.stage == Stage::Uploading && action is Evaluate ==> action == (
            ActionView::Evaluate {
                script: upload_text(base64_text(raw@), media_type(job.image@)),
                await_promise: true,
                start_clock: false,
            })
        }),
{
    let read = translate_next(job, run, TranslateEvent::ImageRead(Ok(raw))).0;
    lemma_upload_is_kept(job, read, events);
}

proof fn lemma_upload_is_kept(job: Job, run: RunView, events: Seq<TranslateEvent>)
    requires
        run.stage != Stage::Reading,
    ensures
        run_after(job, run, events).upload == run.upload,
        run_after(job, run, events).stage != Stage::Reading,
    decreases events.len(),
{
    if events.len() > 0 {
        lemma_upload_is_kept(job, translate_next(job, run, events[0]).0, events.skip(1));
    }
}

/// The image that the page gives back in base64 notation is the result.
pub proof fn law_result_is_the_image_of_the_reply(
    job: Job,
    run: RunView,
    json: String,
    elapsed_nanos: u128,
    b64: Seq<char>,
    image: Seq<u8>,
)
    requires
        run.stage == Stage::Polling,
        evaluated_text(Some(json@)) == "B64:"@ + b64,
        base64_bytes(b64) == Some(image),
    ensures
        translate_next(
            job,
            run,
            TranslateEvent::Evaluated { value: Ok(Some(json)), elapsed_nanos },
        ).1 == ActionView::Finish(Ok(image)),
{
    let text = "B64:"@ + b64;
    assert("B64:"@ =~= text.subrange(0, "B64:"@.len() as int));
    assert(has_prefix(text, "B64:"@));
    assert(text.skip("B64:"@.len() as int) =~= b64);
}

/// What the page sends back as a plain JSON string, `B64:` and the base64 notation of an image,
/// is that image.
pub proof fn law_quoted_reply_is_the_result(
    job: Job,
    run: RunView,
    json: String,
    elapsed_nanos: u128,
    b64: Seq<char>,
    image: Seq<u8>,
)
    requires
        run.stage == Stage::Polling,
        json@ == seq!['"'] + ("B64:"@ + b64) + seq!['"'],
        forall|i: int| 0 <= i < b64.len() ==> is_base64_char(#[trigger] b64[i]),
        base64_bytes(b64) == Some(image),
    ensures
        translate_next(
            job,
            run,
            TranslateEvent::Evaluated { value: Ok(Some(json)), elapsed_nanos },
        ).1 == ActionView::Finish(Ok(image)),
{
    reveal_strlit("B64:");
    let text = "B64:"@ + b64;
    assert forall|i: int| 1 <= i < json@.len() - 1 implies #[trigger] json@[i] != '"' && json@[i]
        != '\\' && json@[i] as int >= 32 by {
        assert(json@[i] == text[i - 1]);
        if i - 1 >= 4 {
            assert(text[i - 1] == b64[i - 5]);
        }
    }
    assert(is_plain_json_string(json@));
    assert(json@.subrange(1, json@.len() - 1) =~= text);
    law_result_is_the_image_of_the_reply(job, run, json, elapsed_nanos, b64, image);
}

/// A pause is made only while there is time left: 20 seconds to find the file input, and the
/// job's timeout for the result.
pub proof fn law_waits_only_within_the_limits(
    job: Job,
    run: RunView,
    value: Result<Option<String>, String>,
    elapsed_nanos: u128,
)
    ensures
        translate_next(
            job,
            run,
            TranslateEvent::Evaluated { value, elapsed_nanos },
        ).1 is Sleep ==> elapsed_nanos < (if run.stage == Stage::Finding {
            INPUT_WAIT_NANOS
        } else {
            job.timeout_nanos
        }),
{
}

} // verus!
