//! The course of a translation: what is done when, and why it ends.

use crate::codec::{
    base64_bytes, base64_text, begins_no_string, evaluated_text, is_plain_json_string, json_string,
};
use crate::config::Config;
use crate::console::{is_asked_by, CliArgs};
use crate::gui::{asks_for, AppView};
use crate::lang::{source_lang_list, TARGET_LANGS};
use crate::page::{
    extraction, law_address_carries_both_languages, law_different_languages_open_different_pages,
    law_replies_are_read_as_they_say, law_upload_script_carries_the_image, ExtractedView,
    EXTRACT_JS, INPUT_PRESENT_JS,
};
use crate::path::{media_type, path_text, PathView};
use crate::text::{has_prefix, has_suffix, stands_in};
use crate::translate::{
    error_message, is_job_of, translate_next, ActionView, ErrorView, Job, RunView, Stage,
    TranslateEvent,
};
use vstd::prelude::*;

verus! {

/// The value of a script is read as the text that it stands for: a string as what it holds,
/// anything else as its notation, and no value as nothing.
pub proof fn law_values_are_read_as_text(text: Seq<char>, json: Seq<char>)
    ensures
        is_plain_json_string(seq!['"'] + text + seq!['"']) ==> evaluated_text(
            Some(seq!['"'] + text + seq!['"']),
        ) == text,
        begins_no_string(json) ==> evaluated_text(Some(json)) == json,
        !is_plain_json_string(json) && !begins_no_string(json) ==> evaluated_text(Some(json))
            == match json_string(json) {
            Some(held) => held,
            None => json,
        },
        evaluated_text(None) == Seq::<char>::empty(),
{
    let quoted = seq!['"'] + text + seq!['"'];
    assert(quoted.subrange(1, quoted.len() - 1) =~= text);
}

/// The reply of a script.
pub open spec fn replies(event: TranslateEvent, text: Seq<char>, elapsed_nanos: u128) -> bool {
    &&& event matches TranslateEvent::Evaluated { value, elapsed_nanos: t }
    &&& t == elapsed_nanos
    &&& value matches Ok(json)
    &&& text == evaluated_text(
        match json {
            Some(j) => Some(j@),
            None => None,
        },
    )
}

/// The script could not be run, and this is why.
pub open spec fn breaks(event: TranslateEvent, reason: Seq<char>) -> bool {
    &&& event matches TranslateEvent::Evaluated { value, .. }
    &&& value matches Err(e)
    &&& reason == e@
}

/// Once the image is read, the page of the service is opened, with the languages of the job.
pub proof fn law_page_of_the_job_is_opened(job: Job, run: RunView, raw: Vec<u8>)
    requires
        run.stage == Stage::Reading,
    ensures
        ({
            let (after, action) = translate_next(job, run, TranslateEvent::ImageRead(Ok(raw)));
            &&& after.stage == Stage::Navigating
            &&& action matches ActionView::Navigate(url) && url
                == "https://translate.google.com/?sl="@ + job.source@ + "&tl="@ + job.target@
                + "&op=images"@
        }),
{
    law_address_carries_both_languages(job.source@, job.target@);
}

/// Two jobs open the same page only if they have the same languages.
pub proof fn law_jobs_open_their_own_pages(
    job: Job,
    run: RunView,
    raw: Vec<u8>,
    other_job: Job,
    other_run: RunView,
    other_raw: Vec<u8>,
)
    requires
        run.stage == Stage::Reading,
        other_run.stage == Stage::Reading,
        !job.source@.contains('&') && !job.target@.contains('&'),
        !other_job.source@.contains('&') && !other_job.target@.contains('&'),
        translate_next(job, run, TranslateEvent::ImageRead(Ok(raw))).1 == translate_next(
            other_job,
            other_run,
            TranslateEvent::ImageRead(Ok(other_raw)),
        ).1,
    ensures
        job.source@ == other_job.source@,
        job.target@ == other_job.target@,
{
    law_different_languages_open_different_pages(
        job.source@,
        job.target@,
        other_job.source@,
        other_job.target@,
    );
}

/// When the file input is there, the script is run that carries the image which was read, in
/// base64, under the media type of its name.
pub proof fn law_image_that_was_read_is_uploaded(
    job: Job,
    run: RunView,
    raw: Vec<u8>,
    found: TranslateEvent,
    elapsed_nanos: u128,
)
    requires
        run.stage == Stage::Reading,
        replies(found, "YES"@, elapsed_nanos),
    ensures
        ({
            let read = translate_next(job, run, TranslateEvent::ImageRead(Ok(raw))).0;
            let opened = translate_next(job, read, TranslateEvent::Navigated(Ok(())));
            let loaded = translate_next(job, opened.0, TranslateEvent::Loaded(Ok(())));
            let (after, action) = translate_next(job, loaded.0, found);
            &&& opened.1 == ActionView::AwaitLoad
            &&& loaded.1 == (ActionView::Evaluate {
                script: INPUT_PRESENT_JS@,
                await_promise: false,
                start_clock: true,
            })
            &&& after.stage == Stage::Uploading
            &&& action matches ActionView::Evaluate { script, await_promise, start_clock } && {
                &&& await_promise
                &&& !start_clock
                &&& stands_in("const b64 = \""@ + base64_text(raw@) + "\";"@, script)
                &&& stands_in(
                    "new File([arr], \"image\", {type:\""@ + media_type(job.image@) + "\"});"@,
                    script,
                )
            }
        }),
{
    law_upload_script_carries_the_image(base64_text(raw@), media_type(job.image@));
}

/// As long as the file input is not there and 20 seconds have not passed, it is looked for
/// again after a pause.
pub proof fn law_input_is_looked_for_again(
    job: Job,
    run: RunView,
    event: TranslateEvent,
    text: Seq<char>,
    elapsed_nanos: u128,
)
    requires
        run.stage == Stage::Finding,
        replies(event, text, elapsed_nanos),
        text != "YES"@,
    ensures
        ({
            let (after, action) = translate_next(job, run, event);
            if elapsed_nanos < 20_000_000_000 {
                &&& action == ActionView::Sleep(300)
                &&& translate_next(job, after, TranslateEvent::Slept) == (
                    RunView { stage: Stage::Finding, ..run },
                    ActionView::Evaluate {
                        script: INPUT_PRESENT_JS@,
                        await_promise: false,
                        start_clock: false,
                    },
                )
            } else {
                action == ActionView::Finish(Err(ErrorView::NoInput))
            }
        }),
{
}

/// After the upload the result is asked for, and the time for it begins.
pub proof fn law_result_is_asked_for_after_the_upload(
    job: Job,
    run: RunView,
    event: TranslateEvent,
    rest: Seq<char>,
    elapsed_nanos: u128,
)
    requires
        run.stage == Stage::Uploading,
        replies(event, "OK"@ + rest, elapsed_nanos),
    ensures
        translate_next(job, run, event) == (
            RunView { stage: Stage::Polling, ..run },
            ActionView::Evaluate {
                script: EXTRACT_JS@,
                await_promise: true,
                start_clock: true,
            },
        ),
{
    let text = "OK"@ + rest;
    assert("OK"@ =~= text.subrange(0, "OK"@.len() as int));
}

/// As long as the result has not come and the timeout of the job has not passed, it is asked
/// for again after a pause; once it has passed, the translation ends.
pub proof fn law_result_is_asked_for_again(
    job: Job,
    run: RunView,
    event: TranslateEvent,
    elapsed_nanos: u128,
)
    requires
        run.stage == Stage::Polling,
        replies(event, "PENDING"@, elapsed_nanos),
    ensures
        ({
            let (after, action) = translate_next(job, run, event);
            if elapsed_nanos < job.timeout_nanos {
                &&& action == ActionView::Sleep(500)
                &&& translate_next(job, after, TranslateEvent::Slept) == (
                    RunView { stage: Stage::Polling, ..run },
                    ActionView::Evaluate {
                        script: EXTRACT_JS@,
                        await_promise: true,
                        start_clock: false,
                    },
                )
            } else {
                action == ActionView::Finish(Err(ErrorView::Timeout))
            }
        }),
{
    law_replies_are_read_as_they_say("PENDING"@, Seq::empty());
}

/// The clock is started for the first look for the file input and for the first question for
/// the result, and never else: the time runs over all the pauses.
pub proof fn law_clock_is_started_twice(job: Job, run: RunView, event: TranslateEvent)
    ensures
        translate_next(job, run, event).1 matches ActionView::Evaluate { start_clock, .. } ==> (
        start_clock <==> (run.stage == Stage::Loading || (run.stage == Stage::Uploading))),
{
}

/// A translation gives an image exactly where the reply to the question for the result holds
/// one: `B64:` and the base64 notation of that image.
pub proof fn law_success_has_its_cause(
    job: Job,
    run: RunView,
    event: TranslateEvent,
    image: Seq<u8>,
)
    ensures
        translate_next(job, run, event).1 == ActionView::Finish(Ok(image)) <==> {
            &&& run.stage == Stage::Polling
            &&& exists|b64: Seq<char>, t: u128| #[trigger]
                replies(event, "B64:"@ + b64, t) && base64_bytes(b64) == Some(image)
        },
{
    lemma_image_reply(job, run, event);
    if run.stage == Stage::Polling {
        if let TranslateEvent::Evaluated { value: Ok(json), elapsed_nanos } = event {
            let text = evaluated_text(
                match json {
                    Some(j) => Some(j@),
                    None => None,
                },
            );
            assert forall|b64: Seq<char>, t: u128| #[trigger]
                replies(event, "B64:"@ + b64, t) implies extraction(text)
                == ExtractedView::Image(b64) by {
                law_replies_are_read_as_they_say(text, b64);
            }
            if let ExtractedView::Image(b64) = extraction(text) {
                law_replies_are_read_as_they_say(text, b64);
                assert(replies(event, "B64:"@ + b64, elapsed_nanos));
            }
        }
    }
}

/// Where a reply holds an image, that is what the translation ends with.
proof fn lemma_image_reply(job: Job, run: RunView, event: TranslateEvent)
    ensures
        translate_next(job, run, event).1 matches ActionView::Finish(r) ==> (r is Ok
            ==> run.stage == Stage::Polling && event is Evaluated),
{
}

/// What brings a failure about.
pub open spec fn is_cause(job: Job, run: RunView, event: TranslateEvent, error: ErrorView) -> bool {
    match error {
        ErrorView::ReadImage(path) => {
            &&& run.stage == Stage::Reading
            &&& event matches TranslateEvent::ImageRead(r) && r is Err
            &&& path == path_text(job.image@)
        },
        ErrorView::Navigate => {
            &&& run.stage == Stage::Navigating
            &&& event matches TranslateEvent::Navigated(r) && r is Err
        },
        ErrorView::Load => {
            &&& run.stage == Stage::Loading
            &&& event matches TranslateEvent::Loaded(r) && r is Err
        },
        ErrorView::NoInput => {
            &&& run.stage == Stage::Finding
            &&& event matches TranslateEvent::Evaluated { value, elapsed_nanos } && (value
                is Err || elapsed_nanos >= 20_000_000_000)
        },
        ErrorView::Evaluate(reason) => {
            &&& run.stage == Stage::Uploading || run.stage == Stage::Polling
            &&& breaks(event, reason)
        },
        ErrorView::Upload(text) => {
            &&& run.stage == Stage::Uploading
            &&& !has_prefix(text, "OK"@)
            &&& exists|t: u128| #[trigger] replies(event, text, t)
        },
        ErrorView::Decode => {
            &&& run.stage == Stage::Polling
            &&& exists|b64: Seq<char>, t: u128| #[trigger]
                replies(event, "B64:"@ + b64, t) && base64_bytes(b64) is None
        },
        ErrorView::Empty => {
            &&& run.stage == Stage::Polling
            &&& exists|t: u128| #[trigger] replies(event, "EMPTY"@, t)
        },
        ErrorView::Script(text) => {
            &&& run.stage == Stage::Polling
            &&& has_prefix(text, "ERRX:"@)
            &&& exists|t: u128| #[trigger] replies(event, text, t)
        },
        ErrorView::Unknown(text) => {
            &&& run.stage == Stage::Polling
            &&& text != "PENDING"@ && text != "EMPTY"@
            &&& !has_prefix(text, "B64:"@) && !has_prefix(text, "ERRX:"@)
            &&& exists|t: u128| #[trigger] replies(event, text, t)
        },
        ErrorView::Timeout => {
            &&& run.stage == Stage::Polling
            &&& exists|t: u128| #[trigger]
                replies(event, "PENDING"@, t) && t >= job.timeout_nanos
        },
    }
}

/// A translation fails for a reason, and tells it: each failure comes of its own cause and of
/// no other.
pub proof fn law_failures_have_their_causes(
    job: Job,
    run: RunView,
    event: TranslateEvent,
    error: ErrorView,
)
    requires
        translate_next(job, run, event).1 == ActionView::Finish(Err(error)),
    ensures
        is_cause(job, run, event, error),
{
    if run.stage == Stage::Polling {
        lemma_polling_failure(job, run, event, error);
    } else if run.stage == Stage::Uploading {
        if let TranslateEvent::Evaluated { value: Ok(json), elapsed_nanos } = event {
            if let ErrorView::Upload(text) = error {
                assert(replies(event, text, elapsed_nanos));
            }
        }
    }
}

proof fn lemma_polling_failure(
    job: Job,
    run: RunView,
    event: TranslateEvent,
    error: ErrorView,
)
    requires
        run.stage == Stage::Polling,
        translate_next(job, run, event).1 == ActionView::Finish(Err(error)),
    ensures
        is_cause(job, run, event, error),
{
    match event {
        TranslateEvent::Evaluated { value: Ok(json), elapsed_nanos } => {
            let text = evaluated_text(
                match json {
                    Some(j) => Some(j@),
                    None => None,
                },
            );
            assert(replies(event, text, elapsed_nanos));
            match extraction(text) {
                ExtractedView::Image(b64) => {
                    law_replies_are_read_as_they_say(text, b64);
                    assert(error == ErrorView::Decode);
                    assert(replies(event, "B64:"@ + b64, elapsed_nanos));
                },
                ExtractedView::Pending => {
                    law_replies_are_read_as_they_say(text, Seq::empty());
                    assert(error == ErrorView::Timeout);
                    assert(replies(event, "PENDING"@, elapsed_nanos));
                },
                ExtractedView::Empty => {
                    law_replies_are_read_as_they_say(text, Seq::empty());
                    assert(error == ErrorView::Empty);
                    assert(replies(event, "EMPTY"@, elapsed_nanos));
                },
                ExtractedView::ScriptError(s) => {
                    law_replies_are_read_as_they_say(text, Seq::empty());
                    assert(error == ErrorView::Script(text));
                },
                ExtractedView::Unknown(s) => {
                    law_replies_are_read_as_they_say(text, Seq::empty());
                    assert(error == ErrorView::Unknown(text));
                },
            }
        },
        _ => {},
    }
}

/// What breaks a step ends the translation at once, with the failure that belongs to it.
pub proof fn law_broken_steps_end_the_translation(
    job: Job,
    run: RunView,
    event: TranslateEvent,
    reason: Seq<char>,
)
    ensures
        run.stage == Stage::Reading && (event matches TranslateEvent::ImageRead(r) && r is Err)
            ==> translate_next(job, run, event).1 == ActionView::Finish(
            Err(ErrorView::ReadImage(path_text(job.image@))),
        ),
        run.stage == Stage::Navigating && (event matches TranslateEvent::Navigated(r) && r is Err)
            ==> translate_next(job, run, event).1 == ActionView::Finish(Err(ErrorView::Navigate)),
        run.stage == Stage::Loading && (event matches TranslateEvent::Loaded(r) && r is Err)
            ==> translate_next(job, run, event).1 == ActionView::Finish(Err(ErrorView::Load)),
        run.stage == Stage::Finding && breaks(event, reason) ==> translate_next(job, run, event).1
            == ActionView::Finish(Err(ErrorView::NoInput)),
        (run.stage == Stage::Uploading || run.stage == Stage::Polling) && breaks(event, reason)
            ==> translate_next(job, run, event).1 == ActionView::Finish(
            Err(ErrorView::Evaluate(reason)),
        ),
{
}

/// What a failure tells ends with its reason, and each kind of failure tells of itself.
pub proof fn law_messages_tell_the_reason(reason: Seq<char>)
    ensures
        error_message(ErrorView::Evaluate(reason)) == reason,
        error_message(ErrorView::ReadImage(reason)) == "读取图片失败: "@ + reason,
        error_message(ErrorView::Upload(reason)) == "上传触发失败: "@ + reason,
        error_message(ErrorView::Script(reason)) == "解析响应出错: "@ + reason,
        error_message(ErrorView::Unknown(reason)) == "未知响应: "@ + reason,
        has_suffix(error_message(ErrorView::ReadImage(reason)), reason),
        has_suffix(error_message(ErrorView::Upload(reason)), reason),
        has_suffix(error_message(ErrorView::Script(reason)), reason),
        has_suffix(error_message(ErrorView::Unknown(reason)), reason),
        error_message(ErrorView::Navigate) == "导航到图片翻译页失败"@,
        error_message(ErrorView::Load) == "等待页面加载失败"@,
        error_message(ErrorView::NoInput) == "未找到图片上传输入框"@,
        error_message(ErrorView::Decode) == "base64 解码翻译图片失败"@,
        error_message(ErrorView::Empty) == "响应中无图片（可能未识别到可翻译文字）"@,
        error_message(ErrorView::Timeout) == "超时未返回翻译结果"@,
{
}

/// What the command line asks for is what is done with an image: its page is opened with the
/// languages given, its file is what is read and uploaded, and as long as the seconds given
/// have not passed since the upload a result that has not come is asked for again.
pub proof fn law_command_line_reaches_the_page(
    args: CliArgs,
    cfg: Config,
    image: PathView,
    job: Job,
    reading: RunView,
    raw: Vec<u8>,
    polling: RunView,
    event: TranslateEvent,
    elapsed_nanos: u128,
)
    requires
        is_asked_by(args, cfg),
        is_job_of(cfg, image, job),
        reading.stage == Stage::Reading,
        polling.stage == Stage::Polling,
        replies(event, "PENDING"@, elapsed_nanos),
    ensures
        job.image@ == image,
        translate_next(job, reading, TranslateEvent::ImageRead(Ok(raw))).1 == ActionView::Navigate(
            "https://translate.google.com/?sl="@ + args.source@ + "&tl="@ + args.target@
                + "&op=images"@,
        ),
        elapsed_nanos < args.timeout * 1_000_000_000 ==> translate_next(job, polling, event).1
            == ActionView::Sleep(500),
        elapsed_nanos >= args.timeout * 1_000_000_000 ==> translate_next(job, polling, event).1
            == ActionView::Finish(Err(ErrorView::Timeout)),
        cfg.recursive <==> !args.no_recursive,
        cfg.input@ == args.input@ && cfg.output@ == args.output@,
        cfg.headless == args.headless && cfg.overwrite == args.overwrite,
        cfg.chrome == args.chrome && cfg.concurrency == 1,
{
    law_page_of_the_job_is_opened(job, reading, raw);
    law_result_is_asked_for_again(job, polling, event, elapsed_nanos);
}

/// What the window asks for is what is done with an image, in the same way.
pub proof fn law_window_reaches_the_page(
    a: AppView,
    cfg: Config,
    image: PathView,
    job: Job,
    reading: RunView,
    raw: Vec<u8>,
    polling: RunView,
    event: TranslateEvent,
    elapsed_nanos: u128,
)
    requires
        asks_for(a, cfg),
        is_job_of(cfg, image, job),
        reading.stage == Stage::Reading,
        polling.stage == Stage::Polling,
        replies(event, "PENDING"@, elapsed_nanos),
        a.timeout_secs >= 10,
    ensures
        translate_next(job, reading, TranslateEvent::ImageRead(Ok(raw))).1 == ActionView::Navigate(
            "https://translate.google.com/?sl="@ + source_lang_list()[a.source_idx as int].0@
                + "&tl="@ + TARGET_LANGS@[a.target_idx as int].0@ + "&op=images"@,
        ),
        elapsed_nanos < a.timeout_secs * 1_000_000_000 ==> translate_next(job, polling, event).1
            == ActionView::Sleep(500),
        elapsed_nanos >= a.timeout_secs * 1_000_000_000 ==> translate_next(job, polling, event).1
            == ActionView::Finish(Err(ErrorView::Timeout)),
{
    law_page_of_the_job_is_opened(job, reading, raw);
    law_result_is_asked_for_again(job, polling, event, elapsed_nanos);
}

/// An event for a translation that is over changes nothing.
pub proof fn law_nothing_follows_the_end(job: Job, run: RunView, event: TranslateEvent)
    requires
        run.stage == Stage::Finished,
    ensures
        translate_next(job, run, event) == (run, ActionView::Wait),
{
}

} // verus!
