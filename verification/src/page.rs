//! The image page: its address, the scripts that run in it, and what their replies mean.

use crate::text::{
    fields, has_prefix, has_suffix, lemma_fields_cut, lemma_one_field, same_text, stands_in,
    starts_with, strip_prefix,
};
use vstd::prelude::*;

verus! {

/// The upload script up to the base64 notation of the image: it hooks the page's requests, so
/// that the reply of the image service is kept, and finds the file input.
pub const UPLOAD_HEAD: &'static str = r#"(async () => {
  try {
    window.__caps = [];
    if (!window.__hooked) {
      window.__hooked = true;
      const oOpen = XMLHttpRequest.prototype.open, oSend = XMLHttpRequest.prototype.send;
      XMLHttpRequest.prototype.open = function(m,u){ this.__u=u; return oOpen.apply(this,arguments); };
      XMLHttpRequest.prototype.send = function(){
        this.addEventListener('load', function(){
          try { if (this.__u && this.__u.indexOf('batchexecute')>=0 && this.__u.indexOf('WqWDPb')>=0) window.__caps.push(this.responseText); } catch(e){}
        });
        return oSend.apply(this,arguments);
      };
      const oF = window.fetch;
      window.fetch = function(){
        const a=arguments; const u=(a[0]&&a[0].url)||a[0]; const p=oF.apply(this,a);
        try { if (typeof u==='string' && u.indexOf('batchexecute')>=0) p.then(r=>{ r.clone().text().then(t=>{ if (t.indexOf('WqWDPb')>=0) window.__caps.push(t); }); }); } catch(e){}
        return p;
      };
    }
    const input = document.querySelector('input[type=file][accept*="image"]');
    if (!input) return 'ERR:no-image-input';
    const b64 = ""#;

/// The upload script between the base64 notation and the media type.
pub const UPLOAD_MIDDLE: &'static str = r#"";
    const bin = atob(b64); const arr = new Uint8Array(bin.length);
    for (let i=0;i<bin.length;i++) arr[i]=bin.charCodeAt(i);
    const file = new File([arr], "image", {type:""#;

/// The upload script behind the media type: it puts the image into the file input.
pub const UPLOAD_TAIL: &'static str = r#""});
    const dt = new DataTransfer(); dt.items.add(file);
    input.files = dt.files;
    input.dispatchEvent(new Event('change', {bubbles:true}));
    return 'OK:'+input.files.length;
  } catch(e) { return 'ERR:'+(e&&e.message||e); }
})()"#;

/// The script that looks for the image in the kept reply.
pub const EXTRACT_JS: &'static str = r#"(async () => {
  try {
    if (!window.__caps || !window.__caps.length) return 'PENDING';
    const t = window.__caps[0];
    const idx = t.indexOf('[["wrb.fr","WqWDPb"');
    if (idx < 0) return 'PENDING';
    let depth=0,inStr=false,esc=false,end=-1;
    for (let j=idx;j<t.length;j++){const c=t[j];if(esc){esc=false;continue;}if(c==='\\'){esc=true;continue;}if(c==='"'){inStr=!inStr;continue;}if(inStr)continue;if(c==='[')depth++;else if(c===']'){depth--;if(depth===0){end=j+1;break;}}}
    if (end<0) return 'PENDING';
    const env = JSON.parse(t.slice(idx,end));
    const data = JSON.parse(env[0][2]);
    if (!data[0] || !data[0][0]) return 'EMPTY';
    return 'B64:'+data[0][0];
  } catch(e) { return 'ERRX:'+(e&&e.message||e); }
})()"#;

/// The script that looks for the file input.
pub const INPUT_PRESENT_JS: &'static str = r#"(document.querySelector('input[type=file][accept*="image"]') ? 'YES' : 'NO')"#;

/// How long the file input is waited for: 20 seconds, in nanoseconds.
pub const INPUT_WAIT_NANOS: u128 = 20_000_000_000;

/// The address of the image page for a pair of languages.
pub open spec fn page_address(source: Seq<char>, target: Seq<char>) -> Seq<char> {
    "https://translate.google.com/?sl="@ + source + "&tl="@ + target + "&op=images"@
}

/// The address of the image page for a pair of languages.
pub fn page_url(source: &str, target: &str) -> (url: String)
    ensures
        url@ == page_address(source@, target@),
{
    let mut url = "https://translate.google.com/?sl=".to_owned();
    url.append(source);
    url.append("&tl=");
    url.append(target);
    url.append("&op=images");
    url
}

/// The upload script for an image in base64 notation and its media type.
pub open spec fn upload_text(b64: Seq<char>, mime: Seq<char>) -> Seq<char> {
    UPLOAD_HEAD@ + b64 + UPLOAD_MIDDLE@ + mime + UPLOAD_TAIL@
}

/// The upload script for an image in base64 notation and its media type.
pub fn upload_script(b64: &str, mime: &str) -> (script: String)
    ensures
        script@ == upload_text(b64@, mime@),
{
    let mut script = UPLOAD_HEAD.to_owned();
    script.append(b64);
    script.append(UPLOAD_MIDDLE);
    script.append(mime);
    script.append(UPLOAD_TAIL);
    script
}

/// What a reply of the extraction script says.
pub enum Extracted {
    /// The image in base64 notation.
    Image(String),
    /// Nothing has come back yet.
    Pending,
    /// The service sent no image back.
    Empty,
    /// The script failed.
    ScriptError(String),
    /// Anything else.
    Unknown(String),
}

/// The mathematical value of an [`Extracted`].
pub enum ExtractedView {
    Image(Seq<char>),
    Pending,
    Empty,
    ScriptError(Seq<char>),
    Unknown(Seq<char>),
}

impl View for Extracted {
    type V = ExtractedView;

    open spec fn view(&self) -> ExtractedView {
        match *self {
            Extracted::Image(s) => ExtractedView::Image(s@),
            Extracted::Pending => ExtractedView::Pending,
            Extracted::Empty => ExtractedView::Empty,
            Extracted::ScriptError(s) => ExtractedView::ScriptError(s@),
            Extracted::Unknown(s) => ExtractedView::Unknown(s@),
        }
    }
}

/// What the reply `text` of the extraction script says.
pub open spec fn extraction(text: Seq<char>) -> ExtractedView {
    if has_prefix(text, "B64:"@) {
        ExtractedView::Image(text.skip("B64:"@.len() as int))
    } else if text == "PENDING"@ {
        ExtractedView::Pending
    } else if text == "EMPTY"@ {
        ExtractedView::Empty
    } else if has_prefix(text, "ERRX:"@) {
        ExtractedView::ScriptError(text)
    } else {
        ExtractedView::Unknown(text)
    }
}

/// Reads a reply of the extraction script.
pub fn read_extraction(text: &str) -> (r: Extracted)
    ensures
        r@ == extraction(text@),
{
    if let Some(b64) = strip_prefix(text, "B64:") {
        return Extracted::Image(b64);
    }
    if same_text(text, "PENDING") {
        Extracted::Pending
    } else if same_text(text, "EMPTY") {
        Extracted::Empty
    } else if starts_with(text, "ERRX:") {
        Extracted::ScriptError(text.to_owned())
    } else {
        Extracted::Unknown(text.to_owned())
    }
}

/// What is done after a look for the file input.
#[derive(Clone, Copy, PartialEq, Eq, Structural)]
pub enum InputWait {
    /// The input is there.
    Present,
    /// It is looked for again.
    Again,
    /// The time is up.
    TimedOut,
}

/// The file input is there where the script says `YES`; else the look is repeated until
/// `timeout_nanos` have passed.
pub open spec fn input_wait(text: Seq<char>, elapsed_nanos: u128, timeout_nanos: u128) -> InputWait {
    if text == "YES"@ {
        InputWait::Present
    } else if elapsed_nanos >= timeout_nanos {
        InputWait::TimedOut
    } else {
        InputWait::Again
    }
}

/// Decides after a look for the file input, whose script replied `text`.
pub fn wait_for_input(text: &str, elapsed_nanos: u128, timeout_nanos: u128) -> (r: InputWait)
    ensures
        r == input_wait(text@, elapsed_nanos, timeout_nanos),
{
    if same_text(text, "YES") {
        InputWait::Present
    } else if elapsed_nanos >= timeout_nanos {
        InputWait::TimedOut
    } else {
        InputWait::Again
    }
}

/// The address of the page carries both languages: it is the page of the service for images,
/// with the source as the parameter `sl` and the target as the parameter `tl`. Codes without
/// `&` are read back from it as they are.
pub proof fn law_address_carries_both_languages(source: Seq<char>, target: Seq<char>)
    ensures
        page_address(source, target) == "https://translate.google.com/?sl="@ + source + "&tl="@
            + target + "&op=images"@,
        !source.contains('&') && !target.contains('&') ==> fields(
            page_address(source, target),
            '&',
        ) == seq![
            "https://translate.google.com/?sl="@ + source,
            "tl="@ + target,
            "op=images"@,
        ],
{
    reveal_strlit("https://translate.google.com/?sl=");
    reveal_strlit("&tl=");
    reveal_strlit("tl=");
    reveal_strlit("&op=images");
    reveal_strlit("op=images");
    if !source.contains('&') && !target.contains('&') {
        let first = "https://translate.google.com/?sl="@ + source;
        let second = "tl="@ + target;
        let third = "op=images"@;
        let rest = second.push('&') + third;
        let url = page_address(source, target);
        assert(url =~= first.push('&') + rest);
        assert(!first.contains('&')) by {
            if first.contains('&') {
                let i = choose|i: int| 0 <= i < first.len() && first[i] == '&';
                if i >= "https://translate.google.com/?sl="@.len() {
                    assert(source[i - "https://translate.google.com/?sl="@.len()] == '&');
                }
            }
        }
        assert(!second.contains('&')) by {
            if second.contains('&') {
                let i = choose|i: int| 0 <= i < second.len() && second[i] == '&';
                if i >= 3 {
                    assert(target[i - 3] == '&');
                }
            }
        }
        assert(!third.contains('&'));
        lemma_one_field(first, '&');
        lemma_one_field(second, '&');
        lemma_one_field(third, '&');
        lemma_fields_cut(first, '&', rest);
        lemma_fields_cut(second, '&', third);
        assert(fields(url, '&') =~= seq![first, second, third]);
    }
}

/// Different languages open different pages.
pub proof fn law_different_languages_open_different_pages(
    source: Seq<char>,
    target: Seq<char>,
    other_source: Seq<char>,
    other_target: Seq<char>,
)
    requires
        !source.contains('&') && !target.contains('&'),
        !other_source.contains('&') && !other_target.contains('&'),
        page_address(source, target) == page_address(other_source, other_target),
    ensures
        source == other_source,
        target == other_target,
{
    law_address_carries_both_languages(source, target);
    law_address_carries_both_languages(other_source, other_target);
    let a = fields(page_address(source, target), '&');
    let b = fields(page_address(other_source, other_target), '&');
    let n = "https://translate.google.com/?sl="@.len() as int;
    assert(a[0].skip(n) =~= source);
    assert(b[0].skip(n) =~= other_source);
    assert(a[1].skip("tl="@.len() as int) =~= target);
    assert(b[1].skip("tl="@.len() as int) =~= other_target);
}

/// A part that stands at a position of a text stands in it.
proof fn lemma_stands_at(part: Seq<char>, text: Seq<char>, i: int)
    requires
        0 <= i,
        i + part.len() <= text.len(),
        text.subrange(i, i + part.len()) =~= part,
    ensures
        stands_in(part, text),
{
}

/// What the library relies on in its scripts.
proof fn lemma_scripts()
    ensures
        has_suffix(UPLOAD_HEAD@, "const b64 = \""@),
        has_prefix(UPLOAD_MIDDLE@, "\";"@),
        has_suffix(UPLOAD_MIDDLE@, "new File([arr], \"image\", {type:\""@),
        has_prefix(UPLOAD_TAIL@, "\"});"@),
        stands_in("return 'PENDING'"@, EXTRACT_JS@),
        stands_in("return 'EMPTY'"@, EXTRACT_JS@),
        stands_in("return 'B64:'+data[0][0]"@, EXTRACT_JS@),
        stands_in("return 'ERRX:'"@, EXTRACT_JS@),
        stands_in("window.__caps[0]"@, EXTRACT_JS@),
        stands_in("WqWDPb"@, EXTRACT_JS@),
        stands_in("window.__caps.push(this.responseText)"@, UPLOAD_HEAD@),
        stands_in("WqWDPb"@, UPLOAD_HEAD@),
        stands_in("input[type=file][accept*=\"image\"]"@, UPLOAD_HEAD@),
        stands_in("atob(b64)"@, UPLOAD_MIDDLE@),
        stands_in("input.files = dt.files"@, UPLOAD_TAIL@),
        stands_in("return 'OK:'"@, UPLOAD_TAIL@),
        stands_in("'YES' : 'NO'"@, INPUT_PRESENT_JS@),
        stands_in("input[type=file][accept*=\"image\"]"@, INPUT_PRESENT_JS@),
{
    reveal_strlit(r#"(async () => {
  try {
    window.__caps = [];
    if (!window.__hooked) {
      window.__hooked = true;
      const oOpen = XMLHttpRequest.prototype.open, oSend = XMLHttpRequest.prototype.send;
      XMLHttpRequest.prototype.open = function(m,u){ this.__u=u; return oOpen.apply(this,arguments); };
      XMLHttpRequest.prototype.send = function(){
        this.addEventListener('load', function(){
          try { if (this.__u && this.__u.indexOf('batchexecute')>=0 && this.__u.indexOf('WqWDPb')>=0) window.__caps.push(this.responseText); } catch(e){}
        });
        return oSend.apply(this,arguments);
      };
      const oF = window.fetch;
      window.fetch = function(){
        const a=arguments; const u=(a[0]&&a[0].url)||a[0]; const p=oF.apply(this,a);
        try { if (typeof u==='string' && u.indexOf('batchexecute')>=0) p.then(r=>{ r.clone().text().then(t=>{ if (t.indexOf('WqWDPb')>=0) window.__caps.push(t); }); }); } catch(e){}
        return p;
      };
    }
    const input = document.querySelector('input[type=file][accept*="image"]');
    if (!input) return 'ERR:no-image-input';
    const b64 = ""#);
    reveal_strlit(r#"";
    const bin = atob(b64); const arr = new Uint8Array(bin.length);
    for (let i=0;i<bin.length;i++) arr[i]=bin.charCodeAt(i);
    const file = new File([arr], "image", {type:""#);
    reveal_strlit(r#""});
    const dt = new DataTransfer(); dt.items.add(file);
    input.files = dt.files;
    input.dispatchEvent(new Event('change', {bubbles:true}));
    return 'OK:'+input.files.length;
  } catch(e) { return 'ERR:'+(e&&e.message||e); }
})()"#);
    reveal_strlit(r#"(async () => {
  try {
    if (!window.__caps || !window.__caps.length) return 'PENDING';
    const t = window.__caps[0];
    const idx = t.indexOf('[["wrb.fr","WqWDPb"');
    if (idx < 0) return 'PENDING';
    let depth=0,inStr=false,esc=false,end=-1;
    for (let j=idx;j<t.length;j++){const c=t[j];if(esc){esc=false;continue;}if(c==='\\'){esc=true;continue;}if(c==='"'){inStr=!inStr;continue;}if(inStr)continue;if(c==='[')depth++;else if(c===']'){depth--;if(depth===0){end=j+1;break;}}}
    if (end<0) return 'PENDING';
    const env = JSON.parse(t.slice(idx,end));
    const data = JSON.parse(env[0][2]);
    if (!data[0] || !data[0][0]) return 'EMPTY';
    return 'B64:'+data[0][0];
  } catch(e) { return 'ERRX:'+(e&&e.message||e); }
})()"#);
    reveal_strlit(r#"(document.querySelector('input[type=file][accept*="image"]') ? 'YES' : 'NO')"#);
    reveal_strlit("const b64 = \"");
    reveal_strlit("\";");
    reveal_strlit("new File([arr], \"image\", {type:\"");
    reveal_strlit("\"});");
    reveal_strlit("return 'PENDING'");
    reveal_strlit("return 'EMPTY'");
    reveal_strlit("return 'B64:'+data[0][0]");
    reveal_strlit("return 'ERRX:'");
    reveal_strlit("window.__caps[0]");
    reveal_strlit("WqWDPb");
    reveal_strlit("window.__caps.push(this.responseText)");
    reveal_strlit("input[type=file][accept*=\"image\"]");
    reveal_strlit("atob(b64)");
    reveal_strlit("input.files = dt.files");
    reveal_strlit("return 'OK:'");
    reveal_strlit("'YES' : 'NO'");
    lemma_stands_at("return 'PENDING'"@, EXTRACT_JS@, 72);
    lemma_stands_at("return 'EMPTY'"@, EXTRACT_JS@, 642);
    lemma_stands_at("return 'B64:'+data[0][0]"@, EXTRACT_JS@, 662);
    lemma_stands_at("return 'ERRX:'"@, EXTRACT_JS@, 703);
    lemma_stands_at("window.__caps[0]"@, EXTRACT_JS@, 104);
    lemma_stands_at("WqWDPb"@, EXTRACT_JS@, 161);
    lemma_stands_at("window.__caps.push(this.responseText)"@, UPLOAD_HEAD@, 501);
    lemma_stands_at("WqWDPb"@, UPLOAD_HEAD@, 488);
    lemma_stands_at("input[type=file][accept*=\"image\"]"@, UPLOAD_HEAD@, 1024);
    lemma_stands_at("atob(b64)"@, UPLOAD_MIDDLE@, 19);
    lemma_stands_at("input.files = dt.files"@, UPLOAD_TAIL@, 64);
    lemma_stands_at("return 'OK:'"@, UPLOAD_TAIL@, 154);
    lemma_stands_at("'YES' : 'NO'"@, INPUT_PRESENT_JS@, 63);
    lemma_stands_at("input[type=file][accept*=\"image\"]"@, INPUT_PRESENT_JS@, 25);
}

/// The scripts and the library speak of the same things: what a script replies is what the
/// library reads, the reply of the service that is kept is the one that is looked at, and the
/// input that is waited for is the one that gets the image.
pub proof fn law_scripts_speak_the_words_that_are_read()
    ensures
        stands_in("return 'PENDING'"@, EXTRACT_JS@),
        stands_in("return 'EMPTY'"@, EXTRACT_JS@),
        stands_in("return 'B64:'+data[0][0]"@, EXTRACT_JS@),
        stands_in("return 'ERRX:'"@, EXTRACT_JS@),
        stands_in("window.__caps[0]"@, EXTRACT_JS@),
        stands_in("WqWDPb"@, EXTRACT_JS@),
        stands_in("window.__caps.push(this.responseText)"@, UPLOAD_HEAD@),
        stands_in("WqWDPb"@, UPLOAD_HEAD@),
        stands_in("input[type=file][accept*=\"image\"]"@, UPLOAD_HEAD@),
        stands_in("atob(b64)"@, UPLOAD_MIDDLE@),
        stands_in("input.files = dt.files"@, UPLOAD_TAIL@),
        stands_in("return 'OK:'"@, UPLOAD_TAIL@),
        stands_in("'YES' : 'NO'"@, INPUT_PRESENT_JS@),
        stands_in("input[type=file][accept*=\"image\"]"@, INPUT_PRESENT_JS@),
{
    lemma_scripts();
}

/// The upload script carries the image and its media type: the one is the text that it decodes,
/// the other the type of the file that it makes.
pub proof fn law_upload_script_carries_the_image(b64: Seq<char>, mime: Seq<char>)
    ensures
        stands_in("const b64 = \""@ + b64 + "\";"@, upload_text(b64, mime)),
        stands_in("new File([arr], \"image\", {type:\""@ + mime + "\"});"@, upload_text(b64, mime)),
{
    lemma_scripts();
    let script = upload_text(b64, mime);
    let head = UPLOAD_HEAD@.len() as int;
    let middle = UPLOAD_MIDDLE@.len() as int;
    let image = "const b64 = \""@ + b64 + "\";"@;
    let i = head - "const b64 = \""@.len();
    assert(script.subrange(i, i + image.len()) =~= image);
    let file = "new File([arr], \"image\", {type:\""@ + mime + "\"});"@;
    let j = head + b64.len() + middle - "new File([arr], \"image\", {type:\""@.len();
    assert(script.subrange(j, j + file.len()) =~= file);
}

/// A reply of the extraction script is read as what it says: the image behind `B64:`, nothing
/// yet for `PENDING`, no image for `EMPTY`, a failure behind `ERRX:`, and anything else as it
/// stands.
pub proof fn law_replies_are_read_as_they_say(text: Seq<char>, rest: Seq<char>)
    ensures
        text == "B64:"@ + rest <==> extraction(text) == ExtractedView::Image(rest),
        text == "PENDING"@ <==> extraction(text) == ExtractedView::Pending,
        text == "EMPTY"@ <==> extraction(text) == ExtractedView::Empty,
        text == "ERRX:"@ + rest ==> extraction(text) == ExtractedView::ScriptError(text),
        extraction(text) matches ExtractedView::ScriptError(s) ==> s == text && has_prefix(
            text,
            "ERRX:"@,
        ),
        extraction(text) matches ExtractedView::Unknown(s) ==> s == text,
{
    reveal_strlit("B64:");
    reveal_strlit("PENDING");
    reveal_strlit("EMPTY");
    reveal_strlit("ERRX:");
    if text == "B64:"@ + rest {
        assert("B64:"@ =~= text.subrange(0, 4));
        assert(text.skip(4) =~= rest);
    }
    if extraction(text) == ExtractedView::Image(rest) {
        assert(text =~= text.subrange(0, 4) + text.skip(4));
    }
    if text == "PENDING"@ || text == "EMPTY"@ {
        if has_prefix(text, "B64:"@) {
            assert(text[0] == "B64:"@[0]);
        }
    }
    if text == "ERRX:"@ + rest {
        assert("ERRX:"@ =~= text.subrange(0, 5));
        if has_prefix(text, "B64:"@) {
            assert(text[0] == "B64:"@[0]);
        }
        assert(text[3] == 'X');
        assert("EMPTY"@[3] == 'T');
        assert("PENDING"@[0] == 'P');
    }
}

/// The file input is waited for as long as it is not there and there is time, and no longer.
pub proof fn law_input_is_waited_for_until_the_time_is_up(
    text: Seq<char>,
    elapsed_nanos: u128,
    timeout_nanos: u128,
)
    ensures
        input_wait(text, elapsed_nanos, timeout_nanos) is Present <==> text == "YES"@,
        input_wait(text, elapsed_nanos, timeout_nanos) is TimedOut <==> text != "YES"@
            && elapsed_nanos >= timeout_nanos,
        input_wait(text, elapsed_nanos, timeout_nanos) is Again <==> text != "YES"@
            && elapsed_nanos < timeout_nanos,
{
}

} // verus!
