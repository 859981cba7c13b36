use google_img_translate::codec::encode_image;
use google_img_translate::page::{upload_script, EXTRACT_JS, INPUT_PRESENT_JS};
use google_img_translate::path::{Name, OsPath};
use google_img_translate::retry::{start_retry, translate_with_retry, RetryAction, RetryEvent};
use google_img_translate::translate::{
    advance, finish_with, start_run, translate_one, Job, PageEvent, Run, Stage, TranslateAction,
    TranslateError, TranslateEvent,
};

fn name(gap: &str, text: &str) -> Name {
    Name { gap: gap.to_string(), bytes: text.as_bytes().to_vec(), text: text.to_string() }
}

fn job() -> Job {
    Job {
        source: "auto".to_string(),
        target: "en".to_string(),
        image: OsPath {
            prefix: None,
            root: Some("/".to_string()),
            names: vec![name("", "in"), name("/", "a.png")],
            trail: String::new(),
        },
        timeout_nanos: 1000,
    }
}

fn at(stage: Stage) -> Run {
    Run { stage, upload: "upload".to_string() }
}

fn reply(text: &str, elapsed_nanos: u128) -> TranslateEvent {
    TranslateEvent::Evaluated {
        value: Ok(Some(serde_json::Value::String(text.to_string()).to_string())),
        elapsed_nanos,
    }
}

fn error_of(action: TranslateAction) -> String {
    match action {
        TranslateAction::Finish(Err(e)) => e.message(),
        _ => panic!("the translation goes on"),
    }
}

#[test]
fn an_image_is_translated_step_by_step() {
    let job = job();
    let mut run = start_run();
    match translate_one(&job, &mut run, TranslateEvent::ImageRead(Ok(b"raw".to_vec()))) {
        TranslateAction::Navigate(url) => {
            assert_eq!(url, "https://translate.google.com/?sl=auto&tl=en&op=images")
        }
        _ => panic!(),
    }
    assert!(matches!(
        translate_one(&job, &mut run, TranslateEvent::Navigated(Ok(()))),
        TranslateAction::AwaitLoad
    ));
    match translate_one(&job, &mut run, TranslateEvent::Loaded(Ok(()))) {
        TranslateAction::Evaluate { script, await_promise, start_clock } => {
            assert_eq!(script, INPUT_PRESENT_JS);
            assert!(!await_promise && start_clock);
        }
        _ => panic!(),
    }
    assert!(matches!(
        translate_one(&job, &mut run, reply("NO", 19_999_999_999)),
        TranslateAction::Sleep(300)
    ));
    match translate_one(&job, &mut run, TranslateEvent::Slept) {
        TranslateAction::Evaluate { script, await_promise, start_clock } => {
            assert_eq!(script, INPUT_PRESENT_JS);
            assert!(!await_promise && !start_clock);
        }
        _ => panic!(),
    }
    match translate_one(&job, &mut run, reply("YES", 30_000_000_000)) {
        TranslateAction::Evaluate { script, await_promise, start_clock } => {
            assert_eq!(script, upload_script(&encode_image(&b"raw".to_vec()), "image/png"));
            assert!(await_promise && !start_clock);
        }
        _ => panic!(),
    }
    match translate_one(&job, &mut run, reply("OK:1", 5)) {
        TranslateAction::Evaluate { script, await_promise, start_clock } => {
            assert_eq!(script, EXTRACT_JS);
            assert!(await_promise && start_clock);
        }
        _ => panic!(),
    }
    assert!(matches!(
        translate_one(&job, &mut run, reply("PENDING", 999)),
        TranslateAction::Sleep(500)
    ));
    match translate_one(&job, &mut run, TranslateEvent::Slept) {
        TranslateAction::Evaluate { script, await_promise, start_clock } => {
            assert_eq!(script, EXTRACT_JS);
            assert!(await_promise && !start_clock);
        }
        _ => panic!(),
    }
    let b64 = encode_image(&b"translated".to_vec());
    match translate_one(&job, &mut run, reply(&format!("B64:{}", b64), 2000)) {
        TranslateAction::Finish(Ok(bytes)) => assert_eq!(bytes, b"translated"),
        _ => panic!(),
    }
    assert!(run.stage == Stage::Finished);
}

#[test]
fn an_unreadable_image_is_named_in_the_error() {
    let mut run = start_run();
    let action =
        translate_one(&job(), &mut run, TranslateEvent::ImageRead(Err("denied".to_string())));
    assert_eq!(error_of(action), "读取图片失败: /in/a.png");
    assert!(run.stage == Stage::Finished);
}

#[test]
fn a_page_that_does_not_open_or_load_fails() {
    let action = translate_one(
        &job(),
        &mut at(Stage::Navigating),
        TranslateEvent::Navigated(Err("x".to_string())),
    );
    assert_eq!(error_of(action), "导航到图片翻译页失败");
    let action = translate_one(
        &job(),
        &mut at(Stage::Loading),
        TranslateEvent::Loaded(Err("x".to_string())),
    );
    assert_eq!(error_of(action), "等待页面加载失败");
}

#[test]
fn a_missing_file_input_fails_after_twenty_seconds() {
    let action = translate_one(&job(), &mut at(Stage::Finding), reply("NO", 20_000_000_000));
    assert_eq!(error_of(action), "未找到图片上传输入框");
    let broken = TranslateEvent::Evaluated { value: Err("gone".to_string()), elapsed_nanos: 0 };
    let action = translate_one(&job(), &mut at(Stage::Finding), broken);
    assert_eq!(error_of(action), "未找到图片上传输入框");
}

#[test]
fn a_refused_upload_fails_with_the_reply() {
    let action = translate_one(&job(), &mut at(Stage::Uploading), reply("ERR:no-image-input", 0));
    assert_eq!(error_of(action), "上传触发失败: ERR:no-image-input");
    let none = TranslateEvent::Evaluated { value: Ok(None), elapsed_nanos: 0 };
    assert_eq!(error_of(translate_one(&job(), &mut at(Stage::Uploading), none)), "上传触发失败: ");
}

#[test]
fn a_script_that_cannot_run_fails_with_its_error() {
    for stage in [Stage::Uploading, Stage::Polling] {
        let broken = TranslateEvent::Evaluated { value: Err("gone".to_string()), elapsed_nanos: 0 };
        assert_eq!(error_of(translate_one(&job(), &mut at(stage), broken)), "gone");
    }
}

#[test]
fn results_other_than_an_image_fail() {
    for (text, message) in [
        ("EMPTY", "响应中无图片（可能未识别到可翻译文字）"),
        ("ERRX:boom", "解析响应出错: ERRX:boom"),
        ("what", "未知响应: what"),
        ("B64:***", "base64 解码翻译图片失败"),
    ] {
        assert_eq!(error_of(translate_one(&job(), &mut at(Stage::Polling), reply(text, 0))), message);
    }
}

#[test]
fn a_value_that_is_no_string_is_reported_in_json() {
    let number =
        TranslateEvent::Evaluated { value: Ok(Some("42".to_string())), elapsed_nanos: 0 };
    assert_eq!(error_of(translate_one(&job(), &mut at(Stage::Polling), number)), "未知响应: 42");
}

#[test]
fn the_timeout_ends_the_wait_for_a_result() {
    let action = translate_one(&job(), &mut at(Stage::Polling), reply("PENDING", 1000));
    assert_eq!(error_of(action), "超时未返回翻译结果");
}

#[test]
fn stray_events_change_nothing() {
    let mut run = at(Stage::Polling);
    assert!(matches!(
        translate_one(&job(), &mut run, TranslateEvent::Slept),
        TranslateAction::Wait
    ));
    assert!(run.stage == Stage::Polling && run.upload == "upload");
    let mut over = at(Stage::Finished);
    assert!(matches!(translate_one(&job(), &mut over, reply("B64:", 0)), TranslateAction::Wait));
}

#[test]
fn page_events_lead_to_a_decode_request() {
    let event = PageEvent::Replied { text: Ok("B64:aGk=".to_string()), elapsed_nanos: 0 };
    match advance(&job(), &mut at(Stage::Polling), event) {
        TranslateAction::Decode(b64) => assert_eq!(b64, "aGk="),
        _ => panic!(),
    }
    assert!(matches!(finish_with(Some(vec![1])), TranslateAction::Finish(Ok(b)) if b == vec![1]));
    assert!(matches!(
        finish_with(None),
        TranslateAction::Finish(Err(TranslateError::Decode))
    ));
}

#[test]
fn a_failure_is_tried_again_after_a_pause() {
    let mut state = start_retry(1);
    assert!(matches!(
        translate_with_retry(&mut state, RetryEvent::Tried(Err(TranslateError::Timeout))),
        RetryAction::Sleep(700)
    ));
    assert!(matches!(translate_with_retry(&mut state, RetryEvent::Slept), RetryAction::Try));
    match translate_with_retry(&mut state, RetryEvent::Tried(Ok(vec![7]))) {
        RetryAction::Finish(Ok(bytes)) => assert_eq!(bytes, vec![7]),
        _ => panic!(),
    }
    assert!(matches!(translate_with_retry(&mut state, RetryEvent::Slept), RetryAction::Wait));
}

#[test]
fn the_error_of_the_last_try_is_reported() {
    let mut state = start_retry(1);
    translate_with_retry(&mut state, RetryEvent::Tried(Err(TranslateError::Timeout)));
    translate_with_retry(&mut state, RetryEvent::Slept);
    match translate_with_retry(&mut state, RetryEvent::Tried(Err(TranslateError::Empty))) {
        RetryAction::Finish(Err(e)) => {
            assert_eq!(e.message(), "响应中无图片（可能未识别到可翻译文字）")
        }
        _ => panic!(),
    }
}

#[test]
fn a_success_needs_no_second_try() {
    let mut state = start_retry(1);
    assert!(matches!(
        translate_with_retry(&mut state, RetryEvent::Tried(Ok(vec![]))),
        RetryAction::Finish(Ok(_))
    ));
    let mut state = start_retry(0);
    assert!(matches!(
        translate_with_retry(&mut state, RetryEvent::Tried(Err(TranslateError::Load))),
        RetryAction::Finish(Err(TranslateError::Load))
    ));
}

#[test]
fn an_uploaded_image_is_not_uploaded_again() {
    for stage in [Stage::Uploading, Stage::Polling] {
        let mut run = at(stage);
        assert!(matches!(
            translate_one(&job(), &mut run, reply("YES", 0)),
            TranslateAction::Finish(Err(_))
        ));
        assert!(run.stage == Stage::Finished);
        assert!(matches!(
            translate_one(&job(), &mut run, reply("YES", 0)),
            TranslateAction::Wait
        ));
    }
}

#[test]
fn the_upload_script_is_kept_while_the_page_loads() {
    let mut run = start_run();
    translate_one(&job(), &mut run, TranslateEvent::ImageRead(Ok(vec![1, 2])));
    let script = run.upload.clone();
    assert_eq!(script, upload_script("AQI=", "image/png"));
    translate_one(&job(), &mut run, TranslateEvent::Navigated(Ok(())));
    translate_one(&job(), &mut run, TranslateEvent::Slept);
    translate_one(&job(), &mut run, TranslateEvent::Loaded(Ok(())));
    assert_eq!(run.upload, script);
}
