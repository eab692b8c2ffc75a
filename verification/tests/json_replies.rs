use qliveplayer_lib::json::{json_str_at, json_text_at};
use qliveplayer_lib::streamfinder::bilibili::Bilibili;
use qliveplayer_lib::streamfinder::cc::CC;

#[test]
fn json_strings_and_texts() {
    let doc = br#"{"a":{"b":["x",2,{"c":"y"}]},"n":null,"s":"q\"t"}"#;
    assert_eq!(json_str_at(doc, "/a/b/0"), Some("x".to_string()));
    assert_eq!(json_str_at(doc, "/a/b/2/c"), Some("y".to_string()));
    assert_eq!(json_str_at(doc, "/a/b/1"), None);
    assert_eq!(json_str_at(doc, "/missing"), None);
    assert_eq!(json_str_at(b"{", "/a"), None);
    assert_eq!(json_text_at(doc, "/a/b/1"), Some("2".to_string()));
    assert_eq!(json_text_at(doc, "/a/b/0"), Some("\"x\"".to_string()));
    assert_eq!(json_text_at(doc, "/s"), Some(r#""q\"t""#.to_string()));
    assert_eq!(json_text_at(doc, "/n"), Some("null".to_string()));
    assert_eq!(json_text_at(doc, ""), Some(r#"{"a":{"b":["x",2,{"c":"y"}]},"n":null,"s":"q\"t"}"#.to_string()));
    assert_eq!(json_text_at(doc, "/nope"), None);
    assert_eq!(json_text_at(b"[1,", ""), None);
}

#[test]
fn bilibili_replies() {
    let play = br#"{"code":0,"data":{"playurl_info":{"playurl":{"stream":[{"format":[{"codec":[
        {"base_url":"/live-bvc/123.flv","url_info":[{"host":"https://cn.example.com","extra":"?expires=1"}]}
    ]}]}]}}}}"#;
    assert_eq!(
        Bilibili::stream_from_reply(play),
        Some("https://cn.example.com/live-bvc/123.flv?expires=1".to_string())
    );
    let no_extra = br#"{"data":{"playurl_info":{"playurl":{"stream":[{"format":[{"codec":[
        {"base_url":"/b","url_info":[{"host":"h"}]}]}]}]}}}}"#;
    assert_eq!(Bilibili::stream_from_reply(no_extra), None);
    assert_eq!(Bilibili::stream_from_reply(b"<html>"), None);

    let room = br#"{"data":{"room_info":{"title":"Evening"},"anchor_info":{"base_info":{"uname":"Host"}}}}"#;
    assert_eq!(Bilibili::title_from_reply(room), Some("Evening - Host".to_string()));
    assert_eq!(Bilibili::title_from_reply(br#"{"data":{"room_info":{"title":"Evening"}}}"#), None);
}

#[test]
fn cc_replies() {
    let anchor = br#"{"data":{"361433":{"channel_id":10086,"room_id":1,"gametype":2}}}"#;
    assert_eq!(CC::channel_from_reply(anchor, "361433"), Some("10086".to_string()));
    assert_eq!(CC::channel_from_reply(anchor, "1"), None);
    let channel = br#"{"data":[{"sharefile":"https://cdn/x.flv","title":"Show","nickname":"Nick"}]}"#;
    assert_eq!(CC::stream_from_reply(channel), Some("\"https://cdn/x.flv\"".to_string()));
    assert_eq!(CC::title_from_reply(channel), Some("Show - Nick".to_string()));
    assert_eq!(CC::stream_from_reply(br#"{"data":[]}"#), None);
    assert_eq!(CC::title_from_reply(br#"{"data":[{"title":"Show","nickname":7}]}"#), None);
}
