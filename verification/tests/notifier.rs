use krr::message::format_message;
use krr::proxy::detect_proxy;
use krr::request::build_request;
use krr::text::{trim_end, unescape};

fn s(x: &str) -> String {
    String::from(x)
}

#[test]
fn trim_end_removes_only_trailing_whitespace() {
    assert_eq!(trim_end("  a \n\t "), "  a");
    assert_eq!(trim_end(""), "");
    assert_eq!(trim_end(" \n"), "");
    assert_eq!(trim_end("a"), "a");
}

#[test]
fn format_no_title_escapes_body() {
    assert_eq!(format_message(None, "a<b"), "<pre>a&lt;b</pre>");
}

#[test]
fn format_escapes_every_reserved_character() {
    assert_eq!(format_message(None, "&<>\"x"), "<pre>&amp;&lt;&gt;&quot;x</pre>");
}

#[test]
fn format_trims_body_keeps_leading_whitespace() {
    assert_eq!(format_message(None, "  a\n\n"), "<pre>  a</pre>");
}

#[test]
fn format_title_is_trimmed_and_not_escaped() {
    assert_eq!(format_message(Some("T "), "hi"), "T\n<pre>hi</pre>");
    assert_eq!(format_message(Some("a&b "), "x"), "a&b\n<pre>x</pre>");
}

#[test]
fn format_empty_title_still_adds_line() {
    assert_eq!(format_message(Some(""), "x"), "\n<pre>x</pre>");
}

#[test]
fn message_holds_one_pre_block() {
    let msg = format_message(None, "x<pre>y</pre>z");
    assert_eq!(msg.matches("<pre>").count(), 1);
    assert_eq!(msg.matches("</pre>").count(), 1);
}

#[test]
fn unescape_undoes_escaping() {
    assert_eq!(unescape("&amp;&lt;&gt;&quot;x"), "&<>\"x");
    let msg = format_message(None, "a<b & c>d");
    assert_eq!(unescape(&msg), "<pre>a<b & c>d</pre>");
    let msg = format_message(None, "say \"hi\"");
    assert_eq!(unescape(&msg), "<pre>say \"hi\"</pre>");
}

#[test]
fn unescape_leaves_unknown_entities() {
    assert_eq!(unescape("&nbsp;&"), "&nbsp;&");
}

#[test]
fn proxy_env_wins_over_files() {
    let r = detect_proxy(Some(s("X")), Some(s("http://file:1")), Some(s("http://sys:2")));
    assert_eq!(r, Some(s("X")));
}

#[test]
fn proxy_empty_env_wins_verbatim() {
    let r = detect_proxy(Some(s("")), Some(s("http://file:1")), None);
    assert_eq!(r, Some(s("")));
}

#[test]
fn proxy_empty_user_file_yields_default() {
    let r = detect_proxy(None, Some(s("")), Some(s("http://sys:2")));
    assert_eq!(r, Some(s("http://127.0.0.1:10808")));
}

#[test]
fn proxy_user_file_contents_trimmed() {
    let r = detect_proxy(None, Some(s("http://y:1\n")), None);
    assert_eq!(r, Some(s("http://y:1")));
}

#[test]
fn proxy_system_file_when_no_user_file() {
    let r = detect_proxy(None, None, Some(s("http://z:3 ")));
    assert_eq!(r, Some(s("http://z:3")));
    let r = detect_proxy(None, None, Some(s(" \n")));
    assert_eq!(r, Some(s("http://127.0.0.1:10808")));
}

#[test]
fn proxy_absent_everywhere_means_none() {
    assert_eq!(detect_proxy(None, None, None), None);
}

#[test]
fn request_plain_body_from_stdin_scenario() {
    let r = build_request("TOK", "111", "222", None, "a<b", false);
    assert_eq!(r.url, "https://api.telegram.org/botTOK/sendMessage");
    assert_eq!(r.fields.len(), 3);
    assert_eq!(r.fields[0], (s("chat_id"), s("111")));
    assert_eq!(r.fields[1], (s("text"), s("<pre>a&lt;b</pre>")));
    assert_eq!(r.fields[2], (s("parse_mode"), s("HTML")));
    assert!(r.fields.iter().all(|f| f.0 != "disable_notification"));
}

#[test]
fn request_silent_with_title_scenario() {
    let r = build_request("TOK", "111", "222", Some("T "), "hi", true);
    assert_eq!(r.url, "https://api.telegram.org/botTOK/sendMessage");
    assert_eq!(r.fields.len(), 4);
    assert_eq!(r.fields[0], (s("chat_id"), s("222")));
    assert_eq!(r.fields[1], (s("text"), s("T\n<pre>hi</pre>")));
    assert_eq!(r.fields[2], (s("parse_mode"), s("HTML")));
    assert_eq!(r.fields[3], (s("disable_notification"), s("true")));
}
