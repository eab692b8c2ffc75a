//! Bilibili live rooms.
use vstd::prelude::*;

use crate::json::{json_str, json_str_at};
use crate::streamfinder::{dash_title, join_title, param, params_view};
use crate::text::{after_last, after_last_char, join_str};

verus! {

/// Where the first codec of the first format of the first stream stands in a
/// play-information reply.
pub open spec fn codec_pointer() -> Seq<char> {
    "/data/playurl_info/playurl/stream/0/format/0/codec/0"@
}

/// The stream address of a play-information reply: the host, base address and extra query
/// of that codec, joined; `None` when one of them is not a string there.
pub open spec fn stream_of_reply(reply: Seq<u8>) -> Option<Seq<char>> {
    match (
        json_str(reply, codec_pointer() + "/url_info/0/host"@),
        json_str(reply, codec_pointer() + "/base_url"@),
        json_str(reply, codec_pointer() + "/url_info/0/extra"@),
    ) {
        (Some(host), Some(base), Some(extra)) => Some(host + base + extra),
        _ => None,
    }
}

/// The stream title of a room-information reply: room title and anchor name; `None` when
/// one of them is not a string there.
pub open spec fn title_of_reply(reply: Seq<u8>) -> Option<Seq<char>> {
    match (
        json_str(reply, "/data/room_info/title"@),
        json_str(reply, "/data/anchor_info/base_info/uname"@),
    ) {
        (Some(title), Some(uname)) => Some(dash_title(title, uname)),
        _ => None,
    }
}

/// Finder for Bilibili live rooms.
pub struct Bilibili {
    api1: String,
    api2: String,
}

impl Bilibili {
    /// The play-information endpoint.
    pub closed spec fn api1_spec(&self) -> Seq<char> {
        self.api1@
    }

    /// The room-information endpoint.
    pub closed spec fn api2_spec(&self) -> Seq<char> {
        self.api2@
    }

    /// A finder with the two room endpoints.
    pub fn new() -> (res: Self)
        ensures
            res.api1_spec() == "https://api.live.bilibili.com/xlive/web-room/v2/index/getRoomPlayInfo"@,
            res.api2_spec() == "https://api.live.bilibili.com/xlive/web-room/v1/index/getInfoByRoom"@,
    {
        Bilibili {
            api1: "https://api.live.bilibili.com/xlive/web-room/v2/index/getRoomPlayInfo".to_owned(),
            api2: "https://api.live.bilibili.com/xlive/web-room/v1/index/getInfoByRoom".to_owned(),
        }
    }

    /// The play-information endpoint.
    pub fn api1(&self) -> (res: &str)
        ensures
            res@ == self.api1_spec(),
    {
        self.api1.as_str()
    }

    /// The room-information endpoint.
    pub fn api2(&self) -> (res: &str)
        ensures
            res@ == self.api2_spec(),
    {
        self.api2.as_str()
    }

    /// The room id of a room address: what follows its last `/`.
    pub fn room_id(room_url: &str) -> (res: String)
        ensures
            res@ == after_last(room_url@, '/'),
    {
        after_last_char(room_url, '/')
    }

    /// The query of the play-information request for room `rid`.
    pub fn play_info_query(rid: &str) -> (res: Vec<(String, String)>)
        ensures
            params_view(res@) == seq![
                ("room_id"@, rid@),
                ("no_playurl"@, "0"@),
                ("mask"@, "1"@),
                ("qn"@, "10000"@),
                ("platform"@, "web"@),
                ("protocol"@, "0,1"@),
                ("format"@, "0,2"@),
                ("codec"@, "0,1"@),
            ],
    {
        let mut ps: Vec<(String, String)> = Vec::new();
        ps.push(param("room_id", rid));
        ps.push(param("no_playurl", "0"));
        ps.push(param("mask", "1"));
        ps.push(param("qn", "10000"));
        ps.push(param("platform", "web"));
        ps.push(param("protocol", "0,1"));
        ps.push(param("format", "0,2"));
        ps.push(param("codec", "0,1"));
        assert(params_view(ps@) =~= seq![
            ("room_id"@, rid@),
            ("no_playurl"@, "0"@),
            ("mask"@, "1"@),
            ("qn"@, "10000"@),
            ("platform"@, "web"@),
            ("protocol"@, "0,1"@),
            ("format"@, "0,2"@),
            ("codec"@, "0,1"@),
        ]);
        ps
    }

    /// The query of the room-information request for room `rid`.
    pub fn room_info_query(rid: &str) -> (res: Vec<(String, String)>)
        ensures
            params_view(res@) == seq![("room_id"@, rid@)],
    {
        let mut ps: Vec<(String, String)> = Vec::new();
        ps.push(param("room_id", rid));
        assert(params_view(ps@) =~= seq![("room_id"@, rid@)]);
        ps
    }

    /// The stream address: host, base address and extra query, joined.
    pub fn stream_url(host: &str, base_url: &str, extra: &str) -> (res: String)
        ensures
            res@ == host@ + base_url@ + extra@,
    {
        let mut u = host.to_owned();
        u.append(base_url);
        u.append(extra);
        u
    }

    /// The stream address read from the play-information reply `reply` (see
    /// `stream_of_reply`).
    pub fn stream_from_reply(reply: &[u8]) -> (res: Option<String>)
        ensures
            match res {
                Some(u) => stream_of_reply(reply@) == Some(u@),
                None => stream_of_reply(reply@) is None,
            },
    {
        let codec = "/data/playurl_info/playurl/stream/0/format/0/codec/0";
        let host = json_str_at(reply, join_str(codec, "/url_info/0/host").as_str());
        let base = json_str_at(reply, join_str(codec, "/base_url").as_str());
        let extra = json_str_at(reply, join_str(codec, "/url_info/0/extra").as_str());
        match (host, base, extra) {
            (Some(h), Some(b), Some(e)) => Some(Self::stream_url(h.as_str(), b.as_str(), e.as_str())),
            _ => None,
        }
    }

    /// The stream title read from the room-information reply `reply` (see `title_of_reply`).
    pub fn title_from_reply(reply: &[u8]) -> (res: Option<String>)
        ensures
            match res {
                Some(t) => title_of_reply(reply@) == Some(t@),
                None => title_of_reply(reply@) is None,
            },
    {
        let title = json_str_at(reply, "/data/room_info/title");
        let uname = json_str_at(reply, "/data/anchor_info/base_info/uname");
        match (title, uname) {
            (Some(t), Some(u)) => Some(Self::live_title(t.as_str(), u.as_str())),
            _ => None,
        }
    }

    /// The stream title: room title and anchor name.
    pub fn live_title(title: &str, uname: &str) -> (res: String)
        ensures
            res@ == dash_title(title@, uname@),
    {
        join_title(title, uname)
    }
}

} // verus!
