//! Stream finding, danmaku packets and HLS relaying for a live-stream player.
use vstd::prelude::*;

pub mod danmaku;
pub mod implementation;
pub mod json;
pub mod streamer;
pub mod streamfinder;
pub mod text;

use crate::text::{contains_str, seq_contains};

verus! {

/// The site a room address belongs to, which decides the finder that serves it.
#[derive(Debug, PartialEq, Eq, Structural, Clone, Copy)]
pub enum Site {
    BilibiliLive,
    BilibiliVideo,
    Douyu,
    Huya,
    Youtube,
    Twitch,
    Unsupported,
}

/// The site of `url`: the first of these that it contains decides, in this order:
/// `live.bilibili.com`, `bilibili.com/`, `douyu.com`, `huya.com`, `youtube.com/`, `twitch.tv/`.
pub open spec fn site_spec(url: Seq<char>) -> Site {
    if seq_contains(url, "live.bilibili.com"@) {
        Site::BilibiliLive
    } else if seq_contains(url, "bilibili.com/"@) {
        Site::BilibiliVideo
    } else if seq_contains(url, "douyu.com"@) {
        Site::Douyu
    } else if seq_contains(url, "huya.com"@) {
        Site::Huya
    } else if seq_contains(url, "youtube.com/"@) {
        Site::Youtube
    } else if seq_contains(url, "twitch.tv/"@) {
        Site::Twitch
    } else {
        Site::Unsupported
    }
}

/// The separator between the parts of a reply.
pub open spec fn reply_sep() -> Seq<char> {
    "-qlpsplit-"@
}

/// The reply when no stream was found.
pub open spec fn no_stream() -> Seq<char> {
    "qlp_nostream"@
}

/// The reply for a live room: title, separator, stream address; or `no_stream()`.
pub open spec fn live_reply_spec(found: Option<(Seq<char>, Seq<char>)>) -> Seq<char> {
    match found {
        Some((title, url)) => title + reply_sep() + url,
        None => no_stream(),
    }
}

/// The parts of a video reply: each part followed by the separator.
pub open spec fn parts_spec(parts: Seq<Seq<char>>) -> Seq<char>
    decreases parts.len(),
{
    if parts.len() == 0 {
        Seq::empty()
    } else {
        parts_spec(parts.drop_last()) + parts.last() + reply_sep()
    }
}

/// The reply for a video: its parts (see `parts_spec`), or `no_stream()`.
pub open spec fn video_reply_spec(found: Option<Seq<Seq<char>>>) -> Seq<char> {
    match found {
        Some(parts) => parts_spec(parts),
        None => no_stream(),
    }
}

/// Law: a reply that reports a live stream is never the no-stream reply (it holds the
/// separator, which the no-stream reply does not).
pub proof fn law_live_reply_not_no_stream(title: Seq<char>, url: Seq<char>)
    ensures
        live_reply_spec(Some((title, url))) != no_stream(),
        seq_contains(live_reply_spec(Some((title, url))), reply_sep()),
        !seq_contains(no_stream(), reply_sep()),
{
    reveal_strlit("-qlpsplit-");
    reveal_strlit("qlp_nostream");
    let r = live_reply_spec(Some((title, url)));
    let n: int = title.len() as int;
    assert(r.subrange(n, n + reply_sep().len()) =~= reply_sep());
    assert(r[n] == '-');
    assert forall|i: int| 0 <= i < no_stream().len() implies no_stream()[i] != '-' by {}
    if r == no_stream() {
        assert(no_stream()[n] == '-');
    }
    assert forall|i: int|
        0 <= i && i + reply_sep().len() <= no_stream().len() implies #[trigger] no_stream().subrange(
        i,
        i + reply_sep().len(),
    ) != reply_sep() by {
        assert(no_stream().subrange(i, i + reply_sep().len())[0] == no_stream()[i]);
    }
}

/// Law: where an address is routed, by the patterns it contains, in this order of
/// precedence: `live.bilibili.com` to Bilibili live; else `bilibili.com/` to Bilibili video;
/// else `douyu.com` to Douyu; else `huya.com` to Huya; else `youtube.com/` (a watch, live
/// or channel address alike) to YouTube; else `twitch.tv/` to Twitch; else nowhere.
pub proof fn law_site_routing(url: Seq<char>)
    ensures
        seq_contains(url, "live.bilibili.com"@) ==> site_spec(url) == Site::BilibiliLive,
        !seq_contains(url, "live.bilibili.com"@) && seq_contains(url, "bilibili.com/"@)
            ==> site_spec(url) == Site::BilibiliVideo,
        !seq_contains(url, "live.bilibili.com"@) && !seq_contains(url, "bilibili.com/"@)
            && seq_contains(url, "douyu.com"@) ==> site_spec(url) == Site::Douyu,
        !seq_contains(url, "live.bilibili.com"@) && !seq_contains(url, "bilibili.com/"@)
            && !seq_contains(url, "douyu.com"@) && seq_contains(url, "huya.com"@) ==> site_spec(url)
            == Site::Huya,
        !seq_contains(url, "live.bilibili.com"@) && !seq_contains(url, "bilibili.com/"@)
            && !seq_contains(url, "douyu.com"@) && !seq_contains(url, "huya.com"@)
            && seq_contains(url, "youtube.com/"@) ==> site_spec(url) == Site::Youtube,
        !seq_contains(url, "live.bilibili.com"@) && !seq_contains(url, "bilibili.com/"@)
            && !seq_contains(url, "douyu.com"@) && !seq_contains(url, "huya.com"@)
            && seq_contains(url, "youtube.com/watch?v="@) ==> site_spec(url) == Site::Youtube,
        !seq_contains(url, "live.bilibili.com"@) && !seq_contains(url, "bilibili.com/"@)
            && !seq_contains(url, "douyu.com"@) && !seq_contains(url, "huya.com"@)
            && !seq_contains(url, "youtube.com/"@) && seq_contains(url, "twitch.tv/"@)
            ==> site_spec(url) == Site::Twitch,
        !seq_contains(url, "live.bilibili.com"@) && !seq_contains(url, "bilibili.com/"@)
            && !seq_contains(url, "douyu.com"@) && !seq_contains(url, "huya.com"@)
            && !seq_contains(url, "youtube.com/"@) && !seq_contains(url, "twitch.tv/"@)
            ==> site_spec(url) == Site::Unsupported,
{
    if seq_contains(url, "youtube.com/watch?v="@) {
        reveal_strlit("youtube.com/watch?v=");
        reveal_strlit("youtube.com/");
        let w = "youtube.com/watch?v="@;
        let y = "youtube.com/"@;
        let i = choose|i: int|
            0 <= i && i + w.len() <= url.len() && #[trigger] url.subrange(i, i + w.len()) == w;
        assert(url.subrange(i, i + y.len()) =~= y) by {
            assert forall|k: int| 0 <= k < y.len() implies url.subrange(i, i + y.len())[k] == y[k] by {
                assert(url.subrange(i, i + w.len())[k] == w[k]);
            }
        }
        assert(seq_contains(url, y));
    }
}

/// The site of `url` (see `site_spec`).
pub fn site_of(url: &str) -> (res: Site)
    ensures
        res == site_spec(url@),
{
    if contains_str(url, "live.bilibili.com") {
        Site::BilibiliLive
    } else if contains_str(url, "bilibili.com/") {
        Site::BilibiliVideo
    } else if contains_str(url, "douyu.com") {
        Site::Douyu
    } else if contains_str(url, "huya.com") {
        Site::Huya
    } else if contains_str(url, "youtube.com/") {
        Site::Youtube
    } else if contains_str(url, "twitch.tv/") {
        Site::Twitch
    } else {
        Site::Unsupported
    }
}

/// The reply for a live room whose finder gave `found` (title and stream address).
pub fn live_reply(found: Option<(String, String)>) -> (res: String)
    ensures
        res@ == live_reply_spec(
            match found {
                Some((t, u)) => Some((t@, u@)),
                None => None,
            },
        ),
{
    match found {
        Some((title, url)) => {
            let mut ret = String::new();
            ret.append(title.as_str());
            ret.append("-qlpsplit-");
            ret.append(url.as_str());
            ret
        },
        None => "qlp_nostream".to_owned(),
    }
}

/// The reply for a video whose finder gave `found` (its parts).
pub fn video_reply(found: Option<Vec<String>>) -> (res: String)
    ensures
        res@ == video_reply_spec(
            match found {
                Some(v) => Some(v@.map_values(|p: String| p@)),
                None => None,
            },
        ),
{
    match found {
        Some(parts) => {
            let ghost ps = parts@.map_values(|p: String| p@);
            let mut ret = String::new();
            let mut i: usize = 0;
            assert(ps.take(0) =~= Seq::<Seq<char>>::empty());
            while i < parts.len()
                invariant
                    i <= parts.len(),
                    ps == parts@.map_values(|p: String| p@),
                    ret@ == parts_spec(ps.take(i as int)),
                decreases parts.len() - i,
            {
                assert(ps.take(i + 1).drop_last() =~= ps.take(i as int));
                ret.append(parts[i].as_str());
                ret.append("-qlpsplit-");
                i = i + 1;
            }
            assert(ps.take(parts.len() as int) =~= ps);
            ret
        },
        None => "qlp_nostream".to_owned(),
    }
}

} // verus!
