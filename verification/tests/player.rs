use qliveplayer_lib::implementation::{render_danmaku, DanmakuMessage, QLivePlayerLib};
use qliveplayer_lib::{live_reply, site_of, video_reply, Site};
use std::sync::atomic::Ordering;

fn msg(t: Option<&str>, color: Option<&str>, name: Option<&str>, content: Option<&str>) -> DanmakuMessage {
    let s = |o: Option<&str>| o.map(|x| x.to_string());
    DanmakuMessage { msg_type: s(t), color: s(color), name: s(name), content: s(content) }
}

#[test]
fn sites_in_order() {
    assert_eq!(site_of("https://live.bilibili.com/21495945"), Site::BilibiliLive);
    assert_eq!(site_of("https://www.bilibili.com/video/BV1xx"), Site::BilibiliVideo);
    assert_eq!(site_of("https://www.douyu.com/288016"), Site::Douyu);
    assert_eq!(site_of("https://www.huya.com/660000"), Site::Huya);
    assert_eq!(site_of("https://www.youtube.com/channel/UC1"), Site::Youtube);
    assert_eq!(site_of("https://www.twitch.tv/abc"), Site::Twitch);
    assert_eq!(site_of("https://example.com/"), Site::Unsupported);
    assert_eq!(site_of("bilibili.com"), Site::Unsupported);
    // The first rule that matches decides.
    assert_eq!(site_of("https://live.bilibili.com/?from=twitch.tv/"), Site::BilibiliLive);
}

#[test]
fn live_replies() {
    assert_eq!(live_reply(Some(("Title".to_string(), "http://s".to_string()))), "Title-qlpsplit-http://s");
    assert_eq!(live_reply(None), "qlp_nostream");
    // A found stream never reads as no stream, even with empty parts.
    let r = live_reply(Some((String::new(), String::new())));
    assert_ne!(r, "qlp_nostream");
    assert!(r.contains("-qlpsplit-"));
}

#[test]
fn video_replies() {
    assert_eq!(video_reply(Some(vec!["a".to_string(), "b".to_string()])), "a-qlpsplit-b-qlpsplit-");
    assert_eq!(video_reply(Some(vec![])), "");
    assert_eq!(video_reply(None), "qlp_nostream");
}

#[test]
fn rendering_danmaku() {
    let msgs = vec![
        msg(Some("danmaku"), Some("ff0000"), Some("alice"), Some("hello")),
        msg(Some("gift"), Some("00ff00"), Some("bob"), Some("rocket")),
        msg(Some("danmaku"), None, None, None),
        msg(None, Some("0000ff"), Some("carol"), Some("ignored")),
    ];
    assert_eq!(render_danmaku(&msgs), "ff0000[alice] hello\nffffff[unknown]  \n");
    assert_eq!(render_danmaku(&vec![]), "");
}

#[test]
fn rendering_is_piecewise() {
    let a = vec![msg(Some("danmaku"), Some("1"), Some("x"), Some("p"))];
    let b = vec![msg(Some("other"), None, None, None), msg(Some("danmaku"), Some("2"), Some("y"), Some("q"))];
    let mut both = vec![msg(Some("danmaku"), Some("1"), Some("x"), Some("p"))];
    both.push(msg(Some("other"), None, None, None));
    both.push(msg(Some("danmaku"), Some("2"), Some("y"), Some("q")));
    assert_eq!(render_danmaku(&both), render_danmaku(&a) + &render_danmaku(&b));
}

#[test]
fn player_drains_its_queue() {
    let mut lib = QLivePlayerLib::new();
    assert!(!lib.stop_flag().load(Ordering::SeqCst));
    assert!(lib.is_streamer_loading().load(Ordering::SeqCst));
    assert_eq!(lib.get_danmaku(), "");
    {
        let mut q = lib.dm_fifo().lock().unwrap();
        q.push(msg(Some("danmaku"), Some("ffffff"), Some("n1"), Some("first")));
        q.push(msg(Some("enter"), None, Some("n2"), None));
        q.push(msg(Some("danmaku"), Some("abcdef"), Some("n3"), Some("second")));
    }
    assert_eq!(lib.get_danmaku(), "ffffff[n1] first\nabcdef[n3] second\n");
    assert_eq!(lib.get_danmaku(), "");
}
