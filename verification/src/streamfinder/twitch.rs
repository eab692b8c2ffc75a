//! Twitch channels.
use vstd::prelude::*;
use vstd::utf8::{decode_utf8, valid_utf8};

use crate::text::{
    regex_capture, regex_group, text_from_utf8, trim, trim_spec, url_last_segment,
    url_path_last_segment,
};

verus! {

/// The pattern that finds the broadcast title in a channel page.
pub open spec fn title_pattern() -> Seq<char> {
    "\"BroadcastSettings\\}\\|\\{.+?\":.+?\"title\":\"(.+?)\""@
}

/// Finder for Twitch channels.
pub struct Twitch {}

impl Twitch {
    /// A finder.
    pub fn new() -> (res: Self) {
        Twitch {  }
    }

    /// The channel name of a channel address: the last segment of its path; `None` when the
    /// address is not a URL with a path.
    pub fn channel_name(room_url: &str) -> (res: Option<String>)
        ensures
            match res {
                Some(r) => url_last_segment(room_url@) == Some(r@),
                None => url_last_segment(room_url@) is None,
            },
    {
        url_path_last_segment(room_url)
    }

    /// The mobile page of channel `rid`.
    pub fn page_url(rid: &str) -> (res: String)
        ensures
            res@ == "https://m.twitch.tv/"@ + rid@,
    {
        let mut u = "https://m.twitch.tv/".to_owned();
        u.append(rid);
        u
    }

    /// The broadcast title in a channel page; `None` when the page has none.
    pub fn title_from_page(page: &str) -> (res: Option<String>)
        ensures
            match res {
                Some(t) => regex_group(title_pattern(), page@, 1) == Some(t@),
                None => regex_group(title_pattern(), page@, 1) is None,
            },
    {
        regex_capture("\"BroadcastSettings\\}\\|\\{.+?\":.+?\"title\":\"(.+?)\"", page, 1)
    }

    /// The arguments of the `streamlink` run that prints the stream address of channel `rid`.
    pub fn streamlink_args(rid: &str) -> (res: Vec<String>)
        ensures
            res@.map_values(|a: String| a@) == seq![
                "https://twitch.tv/"@ + rid@,
                "best"@,
                "--stream-url"@,
            ],
    {
        let mut target = "https://twitch.tv/".to_owned();
        target.append(rid);
        let mut args: Vec<String> = Vec::new();
        args.push(target);
        args.push("best".to_owned());
        args.push("--stream-url".to_owned());
        assert(args@.map_values(|a: String| a@) =~= seq![
            "https://twitch.tv/"@ + rid@,
            "best"@,
            "--stream-url"@,
        ]);
        args
    }

    /// The stream address printed by `streamlink`: its output without surrounding white
    /// space; `None` when the output is not UTF-8.
    pub fn stream_url_from_output(stdout: &[u8]) -> (res: Option<String>)
        ensures
            res is Some <==> valid_utf8(stdout@),
            res matches Some(u) ==> u@ == trim_spec(decode_utf8(stdout@)),
    {
        match text_from_utf8(stdout) {
            Some(t) => {
                proof {
                    vstd::utf8::encode_utf8_decode_utf8(t@);
                }
                Some(trim(t.as_str()))
            },
            None => None,
        }
    }
}

} // verus!
