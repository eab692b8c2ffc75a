use qliveplayer_lib::streamfinder::bilibili::Bilibili;
use qliveplayer_lib::streamfinder::cc::CC;
use qliveplayer_lib::streamfinder::twitch::Twitch;
use qliveplayer_lib::streamfinder::youtube::{
    read_player, PlayerInfo, StreamFormat, YtAction, YtError, Youtube,
};
use qliveplayer_lib::streamfinder::{join_title, param};

fn pairs(ps: &[(&str, &str)]) -> Vec<(String, String)> {
    ps.iter().map(|(a, b)| (a.to_string(), b.to_string())).collect()
}

#[test]
fn shared_pieces() {
    assert_eq!(join_title("Title", "Anchor"), "Title - Anchor");
    assert_eq!(join_title("", ""), " - ");
    assert_eq!(param("qn", "10000"), ("qn".to_string(), "10000".to_string()));
}

#[test]
fn bilibili_requests() {
    let b = Bilibili::new();
    assert_eq!(b.api1(), "https://api.live.bilibili.com/xlive/web-room/v2/index/getRoomPlayInfo");
    assert_eq!(b.api2(), "https://api.live.bilibili.com/xlive/web-room/v1/index/getInfoByRoom");
    assert_eq!(Bilibili::room_id("https://live.bilibili.com/21495945"), "21495945");
    assert_eq!(Bilibili::room_id("21495945"), "21495945");
    assert_eq!(Bilibili::room_id("https://live.bilibili.com/"), "");
    assert_eq!(
        Bilibili::play_info_query("42"),
        pairs(&[
            ("room_id", "42"),
            ("no_playurl", "0"),
            ("mask", "1"),
            ("qn", "10000"),
            ("platform", "web"),
            ("protocol", "0,1"),
            ("format", "0,2"),
            ("codec", "0,1"),
        ])
    );
    assert_eq!(Bilibili::room_info_query("42"), pairs(&[("room_id", "42")]));
    assert_eq!(
        Bilibili::stream_url("https://host", "/live/a.flv", "?t=1"),
        "https://host/live/a.flv?t=1"
    );
    assert_eq!(Bilibili::live_title("Room", "Up"), "Room - Up");
}

#[test]
fn cc_requests() {
    let c = CC::new();
    assert_eq!(c.api1(), "https://api.cc.163.com/v1/activitylives/anchor/lives");
    assert_eq!(c.api2(), "https://cc.163.com/live/channel");
    assert_eq!(CC::room_id("https://cc.163.com/361433"), Some("361433".to_string()));
    assert_eq!(CC::room_id("https://cc.163.com/361433/"), Some(String::new()));
    assert_eq!(CC::room_id("361433"), None);
    assert_eq!(CC::anchor_query("361433"), pairs(&[("anchor_ccid", "361433")]));
    assert_eq!(CC::channel_pointer("361433"), "/data/361433/channel_id");
    assert_eq!(CC::channel_query("99"), pairs(&[("channelids", "99")]));
    assert_eq!(CC::live_title("T", "N"), "T - N");
}

#[test]
fn twitch_requests() {
    let _t = Twitch::new();
    assert_eq!(Twitch::channel_name("https://www.twitch.tv/somechannel"), Some("somechannel".to_string()));
    assert_eq!(Twitch::channel_name("twitch.tv/somechannel"), None);
    assert_eq!(Twitch::page_url("abc"), "https://m.twitch.tv/abc");
    assert_eq!(
        Twitch::streamlink_args("abc"),
        vec!["https://twitch.tv/abc".to_string(), "best".to_string(), "--stream-url".to_string()]
    );
}

#[test]
fn twitch_title_from_page() {
    let page = r#"{"BroadcastSettings}|{abc":{"id":"1","title":"Speedrun day"}}"#;
    assert_eq!(Twitch::title_from_page(page), Some("Speedrun day".to_string()));
    assert_eq!(Twitch::title_from_page("<html></html>"), None);
}

#[test]
fn twitch_stream_url_from_output() {
    assert_eq!(
        Twitch::stream_url_from_output(b"  https://video/x.m3u8\n"),
        Some("https://video/x.m3u8".to_string())
    );
    assert_eq!(Twitch::stream_url_from_output(b""), Some(String::new()));
    assert_eq!(Twitch::stream_url_from_output(&[0xff, 0xfe]), None);
}

fn fmt(mime: Option<&str>, url: Option<&str>) -> StreamFormat {
    StreamFormat { mime: mime.map(|s| s.to_string()), url: url.map(|s| s.to_string()) }
}

fn finish(a: YtAction) -> Result<(String, String), YtError> {
    match a {
        YtAction::Finish(r) => r,
        _ => panic!("expected the end of the search"),
    }
}

#[test]
fn youtube_start() {
    let y = Youtube::new();
    let (s, a) = y.start("https://www.youtube.com/channel/UC123/featured").unwrap();
    assert!(matches!(a, YtAction::FetchPage(ref u) if u == "https://www.youtube.com/channel/UC123/live"));
    // Without a live player response, a channel search goes to the video list.
    assert!(matches!(s.on_page("<html></html>"), YtAction::FetchVideos(ref u) if u == "https://www.youtube.com/channel/UC123/videos"));

    let (s, a) = y.start("https://www.youtube.com/watch?v=abc").unwrap();
    assert!(matches!(a, YtAction::FetchPage(ref u) if u == "https://www.youtube.com/watch?v=abc"));
    assert_eq!(finish(s.on_page("<html></html>")), Err(YtError::NoStream));

    assert!(matches!(y.start("https://www.youtube.com/channel/"), Err(YtError::ChannelUnreadable)));
}

#[test]
fn youtube_player_response_in_page() {
    let y = Youtube::new();
    let (s, _) = y.start("https://www.youtube.com/watch?v=abc").unwrap();
    let page = r#"<script>var ytInitialPlayerResponse = {"videoDetails":{"isLive":true,"title":"Now"},"streamingData":{"adaptiveFormats":[{"mimeType":"audio/webm","url":"A"},{"mimeType":"video/mp4; codecs=\"avc1\"","url":"V"}]}};var x = 1;</script>"#;
    assert_eq!(finish(s.on_page(page)), Ok(("Now".to_string(), "V\nA".to_string())));
    // Not live, or not JSON: the search falls back.
    let offline = r#"<script>var ytInitialPlayerResponse = {"videoDetails":{"isLive":false}};</script>"#;
    assert_eq!(finish(s.on_page(offline)), Err(YtError::NoStream));
    let broken = r#"<script>var ytInitialPlayerResponse = {not json};</script>"#;
    assert_eq!(finish(s.on_page(broken)), Err(YtError::NoStream));
    let (c, _) = y.start("https://www.youtube.com/channel/UC9").unwrap();
    assert!(matches!(c.on_page(offline), YtAction::FetchVideos(ref u) if u == "https://www.youtube.com/channel/UC9/videos"));
}

#[test]
fn youtube_reads_player_responses() {
    let j = br#"{"videoDetails":{"isLive":true,"title":"T"},"streamingData":{"adaptiveFormats":[{"mimeType":"video/mp4","url":"v"},{"url":"u"},{"mimeType":3}]}}"#;
    let p = read_player(j);
    assert_eq!(p.is_live, Some(true));
    assert_eq!(p.title, Some("T".to_string()));
    let fs = p.formats.unwrap();
    assert_eq!(fs.len(), 3);
    assert_eq!((fs[0].mime.as_deref(), fs[0].url.as_deref()), (Some("video/mp4"), Some("v")));
    assert_eq!((fs[1].mime.as_deref(), fs[1].url.as_deref()), (None, Some("u")));
    assert_eq!((fs[2].mime.as_deref(), fs[2].url.as_deref()), (None, None));

    let p = read_player(br#"{"videoDetails":{"isLive":"yes"},"streamingData":{"adaptiveFormats":{}}}"#);
    assert_eq!(p.is_live, None);
    assert!(p.formats.is_none());
    assert_eq!(p.title, None);

    let many: String = format!(
        r#"{{"streamingData":{{"adaptiveFormats":[{}]}}}}"#,
        (0..12).map(|i| format!(r#"{{"url":"u{}"}}"#, i)).collect::<Vec<_>>().join(",")
    );
    let fs = read_player(many.as_bytes()).formats.unwrap();
    assert_eq!(fs.len(), 12);
    assert_eq!(fs[11].url.as_deref(), Some("u11"));
    assert_eq!(fs[10].url.as_deref(), Some("u10"));
}

#[test]
fn youtube_live_player_picks_first_video_and_audio() {
    let y = Youtube::new();
    let (s, _) = y.start("https://www.youtube.com/watch?v=abc").unwrap();
    let info = PlayerInfo {
        is_live: Some(true),
        formats: Some(vec![
            fmt(Some("video/mp4"), Some("v1")),
            fmt(Some("video/webm"), Some("v2")),
            fmt(Some("audio/mp4"), Some("a1")),
            fmt(None, None),
        ]),
        title: Some("Live now".to_string()),
    };
    assert_eq!(finish(s.on_player(info)), Ok(("Live now".to_string(), "v1\na1".to_string())));
}

#[test]
fn youtube_live_player_errors() {
    let y = Youtube::new();
    let (s, _) = y.start("https://www.youtube.com/watch?v=abc").unwrap();
    let live = |formats: Option<Vec<StreamFormat>>, title: Option<&str>| PlayerInfo {
        is_live: Some(true),
        formats,
        title: title.map(|t| t.to_string()),
    };
    assert_eq!(finish(s.on_player(live(None, Some("t")))), Err(YtError::FormatsMissing));
    assert_eq!(
        finish(s.on_player(live(Some(vec![fmt(None, Some("u"))]), Some("t")))),
        Err(YtError::FormatFieldMissing)
    );
    assert_eq!(
        finish(s.on_player(live(Some(vec![fmt(Some("video/mp4"), None)]), Some("t")))),
        Err(YtError::FormatFieldMissing)
    );
    assert_eq!(
        finish(s.on_player(live(Some(vec![fmt(Some("video/mp4"), Some("v"))]), None))),
        Err(YtError::TitleMissing)
    );
    assert_eq!(
        finish(s.on_player(live(Some(vec![fmt(Some("video/mp4"), Some("v"))]), Some("t")))),
        Err(YtError::NoStream)
    );
    // A player response that is not live ends a non-channel search.
    let not_live = PlayerInfo { is_live: Some(false), formats: None, title: None };
    assert_eq!(finish(s.on_player(not_live)), Err(YtError::NoStream));
}

#[test]
fn youtube_video_list_search() {
    let y = Youtube::new();
    let (mut s, _) = y.start("https://www.youtube.com/channel/UC123").unwrap();
    let list = r#"x"gridVideoRenderer":{"videoId":"abc","label":"LIVE"},"gridVideoRenderer":{}"#;
    assert!(matches!(s.on_videos(list), YtAction::FetchPage(ref u) if u == "https://www.youtube.com/watch?v=abc"));
    // The second round is the last.
    assert_eq!(finish(s.on_videos(list)), Err(YtError::NoStream));

    let (mut s, _) = y.start("https://www.youtube.com/channel/UC123").unwrap();
    assert_eq!(finish(s.on_videos("<html>no videos</html>")), Err(YtError::NoLiveVideo));
    let no_id = r#""gridVideoRenderer":{"label":"LIVE"},"gridVideoRenderer""#;
    assert_eq!(finish(s.on_videos(no_id)), Err(YtError::VideoIdUnreadable));
}
