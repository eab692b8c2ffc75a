//! CC live rooms.
use vstd::prelude::*;

use crate::json::{json_str, json_str_at, json_text, json_text_at};
use crate::streamfinder::{dash_title, join_title, param, params_view};
use crate::text::{url_last_segment, url_path_last_segment};

verus! {

/// The stream title of a channel reply: the first channel's title and anchor nickname;
/// `None` when one of them is not a string there.
pub open spec fn title_of_reply(reply: Seq<u8>) -> Option<Seq<char>> {
    match (json_str(reply, "/data/0/title"@), json_str(reply, "/data/0/nickname"@)) {
        (Some(title), Some(nickname)) => Some(dash_title(title, nickname)),
        _ => None,
    }
}

/// Finder for CC live rooms.
pub struct CC {
    api1: String,
    api2: String,
}

impl CC {
    /// The anchor-lookup endpoint.
    pub closed spec fn api1_spec(&self) -> Seq<char> {
        self.api1@
    }

    /// The channel endpoint.
    pub closed spec fn api2_spec(&self) -> Seq<char> {
        self.api2@
    }

    /// A finder with the anchor-lookup and channel endpoints.
    pub fn new() -> (res: Self)
        ensures
            res.api1_spec() == "https://api.cc.163.com/v1/activitylives/anchor/lives"@,
            res.api2_spec() == "https://cc.163.com/live/channel"@,
    {
        CC {
            api1: "https://api.cc.163.com/v1/activitylives/anchor/lives".to_owned(),
            api2: "https://cc.163.com/live/channel".to_owned(),
        }
    }

    /// The anchor-lookup endpoint.
    pub fn api1(&self) -> (res: &str)
        ensures
            res@ == self.api1_spec(),
    {
        self.api1.as_str()
    }

    /// The channel endpoint.
    pub fn api2(&self) -> (res: &str)
        ensures
            res@ == self.api2_spec(),
    {
        self.api2.as_str()
    }

    /// The room id of a room address: the last segment of its path; `None` when the
    /// address is not a URL with a path.
    pub fn room_id(room_url: &str) -> (res: Option<String>)
        ensures
            match res {
                Some(r) => url_last_segment(room_url@) == Some(r@),
                None => url_last_segment(room_url@) is None,
            },
    {
        url_path_last_segment(room_url)
    }

    /// The query of the anchor lookup for room `rid`.
    pub fn anchor_query(rid: &str) -> (res: Vec<(String, String)>)
        ensures
            params_view(res@) == seq![("anchor_ccid"@, rid@)],
    {
        let mut ps: Vec<(String, String)> = Vec::new();
        ps.push(param("anchor_ccid", rid));
        assert(params_view(ps@) =~= seq![("anchor_ccid"@, rid@)]);
        ps
    }

    /// Where the channel id of room `rid` stands in the anchor-lookup reply.
    pub fn channel_pointer(rid: &str) -> (res: String)
        ensures
            res@ == "/data/"@ + rid@ + "/channel_id"@,
    {
        let mut p = "/data/".to_owned();
        p.append(rid);
        p.append("/channel_id");
        p
    }

    /// The query of the channel request for `channel_id`.
    pub fn channel_query(channel_id: &str) -> (res: Vec<(String, String)>)
        ensures
            params_view(res@) == seq![("channelids"@, channel_id@)],
    {
        let mut ps: Vec<(String, String)> = Vec::new();
        ps.push(param("channelids", channel_id));
        assert(params_view(ps@) =~= seq![("channelids"@, channel_id@)]);
        ps
    }

    /// The channel id in the anchor-lookup reply `reply` for room `rid`, as JSON text (a
    /// string keeps its quotes); `None` when the reply has none.
    pub fn channel_from_reply(reply: &[u8], rid: &str) -> (res: Option<String>)
        ensures
            match res {
                Some(c) => json_text(reply@, "/data/"@ + rid@ + "/channel_id"@) == Some(c@),
                None => json_text(reply@, "/data/"@ + rid@ + "/channel_id"@) is None,
            },
    {
        json_text_at(reply, Self::channel_pointer(rid).as_str())
    }

    /// The stream address in the channel reply `reply`: the first channel's share file, as
    /// JSON text (a string keeps its quotes); `None` when the reply has none.
    pub fn stream_from_reply(reply: &[u8]) -> (res: Option<String>)
        ensures
            match res {
                Some(u) => json_text(reply@, "/data/0/sharefile"@) == Some(u@),
                None => json_text(reply@, "/data/0/sharefile"@) is None,
            },
    {
        json_text_at(reply, "/data/0/sharefile")
    }

    /// The stream title read from the channel reply `reply` (see `title_of_reply`).
    pub fn title_from_reply(reply: &[u8]) -> (res: Option<String>)
        ensures
            match res {
                Some(t) => title_of_reply(reply@) == Some(t@),
                None => title_of_reply(reply@) is None,
            },
    {
        let title = json_str_at(reply, "/data/0/title");
        let nickname = json_str_at(reply, "/data/0/nickname");
        match (title, nickname) {
            (Some(t), Some(n)) => Some(Self::live_title(t.as_str(), n.as_str())),
            _ => None,
        }
    }

    /// The stream title: channel title and anchor nickname.
    pub fn live_title(title: &str, nickname: &str) -> (res: String)
        ensures
            res@ == dash_title(title@, nickname@),
    {
        join_title(title, nickname)
    }
}

} // verus!
