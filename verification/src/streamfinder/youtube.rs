//! YouTube live streams: the search for a live video and the choice of its DASH streams.
//!
//! The search runs as a state machine: each step returns the action to perform (a page to
//! fetch, or the result), and the caller hands back the page it fetched.
use vstd::prelude::*;
use vstd::utf8::encode_utf8;

use crate::json::{json_bool, json_bool_at, json_len, json_len_at, json_str, json_str_at};
use crate::text::{
    contains_str, decimal, decimal_string, fancy_first_match, fancy_match, join_str,
    regex_capture, regex_group, seq_contains, seq_starts_with, starts_with,
};

verus! {

/// Why no live stream was found.
#[derive(Debug, PartialEq, Eq, Structural)]
pub enum YtError {
    /// A channel address whose channel id the channel pattern does not find.
    ChannelUnreadable,
    /// The search of the channel's video list for a live video failed.
    LiveSearchFailed,
    /// The channel's video list shows no live video.
    NoLiveVideo,
    /// The live video entry has no readable video id.
    VideoIdUnreadable,
    /// The live player response has no list of adaptive formats.
    FormatsMissing,
    /// A format that had to be looked at lacks its MIME type or address.
    FormatFieldMissing,
    /// The live player response has no title.
    TitleMissing,
    /// No live player response with both a video and an audio stream.
    NoStream,
}

/// One adaptive format of a player response: its MIME type and address, where present as
/// strings.
pub struct StreamFormat {
    pub mime: Option<String>,
    pub url: Option<String>,
}

/// What the search reads from a player response: whether it is live (where present as a
/// boolean), its adaptive formats (where present as an array) and its title (where present
/// as a string).
pub struct PlayerInfo {
    pub is_live: Option<bool>,
    pub formats: Option<Vec<StreamFormat>>,
    pub title: Option<String>,
}

/// The next thing the caller does for a search.
pub enum YtAction {
    /// Fetch this watch or live page and hand its text to `on_page`.
    FetchPage(String),
    /// Fetch this video list and hand its text to `on_videos`.
    FetchVideos(String),
    /// The search is over: the title and the stream addresses, or why there are none.
    Finish(Result<(String, String), YtError>),
}

/// The pattern that finds the channel id in a channel address.
pub open spec fn channel_pattern() -> Seq<char> {
    "youtube.com/channel/([^/?]+)"@
}

/// The pattern that finds the player-response JSON in a page.
pub open spec fn player_pattern() -> Seq<char> {
    "ytInitialPlayerResponse\\s*=\\s*(\\{.+?\\});.*?</script>"@
}

/// The pattern that finds a live video entry in a video list.
pub open spec fn live_entry_pattern() -> Seq<char> {
    "\"gridVideoRenderer\"((.(?!\"gridVideoRenderer\"))(?!\"style\":\"UPCOMING\"))+\"label\":\"(LIVE|LIVE NOW|PREMIERING NOW)\"([\\s\\S](?!\"style\":\"UPCOMING\"))+?(\"gridVideoRenderer\"|</script>)"@
}

/// The pattern that finds the video id in a video entry.
pub open spec fn video_id_pattern() -> Seq<char> {
    "\"gridVideoRenderer\".+?\"videoId\":\"(.+?)\""@
}

/// The view of an optional string.
pub open spec fn opt_view(o: Option<String>) -> Option<Seq<char>> {
    match o {
        Some(s) => Some(s@),
        None => None,
    }
}

/// The view of formats: (MIME type, address) pairs.
pub open spec fn formats_view(fs: Seq<StreamFormat>) -> Seq<(Option<Seq<char>>, Option<Seq<char>>)> {
    fs.map_values(|f: StreamFormat| (opt_view(f.mime), opt_view(f.url)))
}

/// The stream of one kind (`kind` is "video" or "audio") after looking at one format:
/// while none is chosen (`cur` empty) the format's MIME type is needed, and when it starts
/// with `kind` its address becomes the stream.
pub open spec fn pick_kind(
    cur: Seq<char>,
    kind: Seq<char>,
    f: (Option<Seq<char>>, Option<Seq<char>>),
) -> Result<Seq<char>, YtError> {
    if cur.len() == 0 {
        match f.0 {
            None => Err(YtError::FormatFieldMissing),
            Some(m) => if seq_starts_with(m, kind) {
                match f.1 {
                    None => Err(YtError::FormatFieldMissing),
                    Some(u) => Ok(u),
                }
            } else {
                Ok(cur)
            },
        }
    } else {
        Ok(cur)
    }
}

/// The video and audio streams chosen from the formats `fs`, looked at in order.
pub open spec fn scan_formats(fs: Seq<(Option<Seq<char>>, Option<Seq<char>>)>) -> Result<
    (Seq<char>, Seq<char>),
    YtError,
>
    decreases fs.len(),
{
    if fs.len() == 0 {
        Ok((Seq::empty(), Seq::empty()))
    } else {
        match scan_formats(fs.drop_last()) {
            Err(e) => Err(e),
            Ok((v, a)) => match pick_kind(v, "video"@, fs.last()) {
                Err(e) => Err(e),
                Ok(v2) => match pick_kind(a, "audio"@, fs.last()) {
                    Err(e) => Err(e),
                    Ok(a2) => Ok((v2, a2)),
                },
            },
        }
    }
}

/// The stream addresses of the chosen streams: video and audio on two lines, or nothing
/// when either is missing.
pub open spec fn dash_spec(v: Seq<char>, a: Seq<char>) -> Seq<char> {
    if v.len() > 0 && a.len() > 0 {
        v + "\n"@ + a
    } else {
        Seq::empty()
    }
}

/// The result for a live player response with formats `fs` and title `title`.
pub open spec fn live_result(
    fs: Option<Seq<(Option<Seq<char>>, Option<Seq<char>>)>>,
    title: Option<Seq<char>>,
) -> Result<(Seq<char>, Seq<char>), YtError> {
    match fs {
        None => Err(YtError::FormatsMissing),
        Some(fs) => match scan_formats(fs) {
            Err(e) => Err(e),
            Ok((v, a)) => match title {
                None => Err(YtError::TitleMissing),
                Some(t) => if dash_spec(v, a).len() == 0 {
                    Err(YtError::NoStream)
                } else {
                    Ok((t, dash_spec(v, a)))
                },
            },
        },
    }
}

/// The view of a finished search's result.
pub open spec fn result_view(r: Result<(String, String), YtError>) -> Result<
    (Seq<char>, Seq<char>),
    YtError,
> {
    match r {
        Ok((t, u)) => Ok((t@, u@)),
        Err(e) => Err(e),
    }
}

/// A search for the live stream of a YouTube address.
pub struct YoutubeSearch {
    cid: String,
    vurl: String,
    round: u8,
}

/// The finder for YouTube live streams.
pub struct Youtube {}

/// `v` and `a` on two lines, or nothing when either is empty.
fn dash_urls(v: &str, a: &str) -> (res: String)
    ensures
        res@ == dash_spec(v@, a@),
{
    if !v.is_empty() && !a.is_empty() {
        let mut d = v.to_owned();
        d.append("\n");
        d.append(a);
        d
    } else {
        String::new()
    }
}


/// What an action stands for.
pub enum ActionView {
    FetchPage(Seq<char>),
    FetchVideos(Seq<char>),
    Finish(Result<(Seq<char>, Seq<char>), YtError>),
}

/// The view of an action.
pub open spec fn action_view(a: YtAction) -> ActionView {
    match a {
        YtAction::FetchPage(u) => ActionView::FetchPage(u@),
        YtAction::FetchVideos(u) => ActionView::FetchVideos(u@),
        YtAction::Finish(r) => ActionView::Finish(result_view(r)),
    }
}

/// Where a search goes when a page has no live player response: to the channel's video
/// list when the channel is known, else to its end without a stream.
pub open spec fn fallback_view(cid: Seq<char>) -> ActionView {
    if cid.len() == 0 {
        ActionView::Finish(Err(YtError::NoStream))
    } else {
        ActionView::FetchVideos("https://www.youtube.com/channel/"@ + cid + "/videos"@)
    }
}

/// Where the adaptive formats stand in a player response.
pub open spec fn formats_pointer() -> Seq<char> {
    "/streamingData/adaptiveFormats"@
}

/// Where `field` of the `i`-th adaptive format stands in a player response.
pub open spec fn format_field(i: nat, field: Seq<char>) -> Seq<char> {
    formats_pointer() + "/"@ + decimal(i) + field
}

/// The adaptive formats of the player response `j`: the MIME type and address of each,
/// where they are strings; `None` when the formats are not an array.
pub open spec fn player_formats(j: Seq<u8>) -> Option<Seq<(Option<Seq<char>>, Option<Seq<char>>)>> {
    match json_len(j, formats_pointer()) {
        None => None,
        Some(n) => Some(
            Seq::new(
                n,
                |i: int|
                    (
                        json_str(j, format_field(i as nat, "/mimeType"@)),
                        json_str(j, format_field(i as nat, "/url"@)),
                    ),
            ),
        ),
    }
}

/// Where a search goes with the player response `j`: a live one ends it with its streams
/// (see `live_result`); one that is not JSON, or not marked live, makes it fall back.
pub open spec fn player_action(cid: Seq<char>, j: Seq<u8>) -> ActionView {
    if json_bool(j, "/videoDetails/isLive"@) == Some(true) {
        ActionView::Finish(live_result(player_formats(j), json_str(j, "/videoDetails/title"@)))
    } else {
        fallback_view(cid)
    }
}

/// The channel id and first page of a search of `room_url`: a channel address is searched
/// through its live page, any other address directly.
pub open spec fn start_spec(room_url: Seq<char>) -> Result<(Seq<char>, Seq<char>), YtError> {
    if seq_contains(room_url, "youtube.com/channel/"@) {
        match regex_group(channel_pattern(), room_url, 1) {
            None => Err(YtError::ChannelUnreadable),
            Some(c) => Ok((c, "https://www.youtube.com/channel/"@ + c + "/live"@)),
        }
    } else {
        Ok((Seq::empty(), room_url))
    }
}

/// The page of the live video whose entry is `entry`, or why there is none.
pub open spec fn live_video_spec(page: Seq<char>) -> Result<Seq<char>, YtError> {
    match fancy_match(live_entry_pattern(), page) {
        None => Err(YtError::LiveSearchFailed),
        Some(None) => Err(YtError::NoLiveVideo),
        Some(Some(entry)) => match regex_group(video_id_pattern(), entry, 1) {
            None => Err(YtError::VideoIdUnreadable),
            Some(vid) => Ok("https://www.youtube.com/watch?v="@ + vid),
        },
    }
}

/// `pick_kind(cur, kind, f)`.
fn pick_kind_exec(cur: String, kind: &str, f: &StreamFormat) -> (res: Result<String, YtError>)
    ensures
        match res {
            Ok(s) => pick_kind(cur@, kind@, (opt_view(f.mime), opt_view(f.url))) == Ok::<
                Seq<char>,
                YtError,
            >(s@),
            Err(e) => pick_kind(cur@, kind@, (opt_view(f.mime), opt_view(f.url))) == Err::<
                Seq<char>,
                YtError,
            >(e),
        },
{
    if cur.as_str().is_empty() {
        match &f.mime {
            None => Err(YtError::FormatFieldMissing),
            Some(m) => {
                if starts_with(m.as_str(), kind) {
                    match &f.url {
                        None => Err(YtError::FormatFieldMissing),
                        Some(u) => Ok(u.clone()),
                    }
                } else {
                    Ok(cur)
                }
            },
        }
    } else {
        Ok(cur)
    }
}

/// The video and audio streams chosen from `fs` (see `scan_formats`).
fn scan_formats_exec(fs: &Vec<StreamFormat>) -> (res: Result<(String, String), YtError>)
    ensures
        result_view(res) == scan_formats(formats_view(fs@)),
{
    let ghost fv = formats_view(fs@);
    let mut url_v = String::new();
    let mut url_a = String::new();
    let mut i: usize = 0;
    assert(fv.take(0) =~= Seq::<(Option<Seq<char>>, Option<Seq<char>>)>::empty());
    while i < fs.len()
        invariant
            i <= fs.len(),
            fv == formats_view(fs@),
            scan_formats(fv.take(i as int)) == Ok::<(Seq<char>, Seq<char>), YtError>(
                (url_v@, url_a@),
            ),
        decreases fs.len() - i,
    {
        let f = &fs[i];
        assert(fv.take(i + 1).drop_last() =~= fv.take(i as int));
        assert(fv.take(i + 1).last() == (opt_view(f.mime), opt_view(f.url)));
        match pick_kind_exec(url_v, "video", f) {
            Err(e) => {
                proof {
                    lemma_scan_formats_err_stays(fv, i + 1);
                }
                return Err(e);
            },
            Ok(v2) => {
                url_v = v2;
            },
        }
        match pick_kind_exec(url_a, "audio", f) {
            Err(e) => {
                proof {
                    lemma_scan_formats_err_stays(fv, i + 1);
                }
                return Err(e);
            },
            Ok(a2) => {
                url_a = a2;
            },
        }
        i = i + 1;
    }
    assert(fv.take(fs.len() as int) =~= fv);
    Ok((url_v, url_a))
}

/// `live_result` for the formats and title of a live player response.
fn live_result_exec(formats: &Option<Vec<StreamFormat>>, title: &Option<String>) -> (res: Result<
    (String, String),
    YtError,
>)
    ensures
        result_view(res) == live_result(
            match formats {
                Some(fs) => Some(formats_view(fs@)),
                None => None,
            },
            opt_view(*title),
        ),
{
    let fs = match formats {
        None => return Err(YtError::FormatsMissing),
        Some(fs) => fs,
    };
    let (url_v, url_a) = match scan_formats_exec(fs) {
        Err(e) => return Err(e),
        Ok(p) => p,
    };
    let dash = dash_urls(url_v.as_str(), url_a.as_str());
    let t = match title {
        None => return Err(YtError::TitleMissing),
        Some(t) => t.clone(),
    };
    if dash.as_str().is_empty() {
        Err(YtError::NoStream)
    } else {
        Ok((t, dash))
    }
}

proof fn lemma_first_streams_prefix(
    fs: Seq<(Option<Seq<char>>, Option<Seq<char>>)>,
    iv: int,
    ia: int,
    uv: Seq<char>,
    ua: Seq<char>,
    k: int,
)
    requires
        0 <= iv < fs.len(),
        0 <= ia < fs.len(),
        fs[iv].0 is Some && seq_starts_with(fs[iv].0->0, "video"@),
        fs[iv].1 == Some(uv),
        uv.len() > 0,
        fs[ia].0 is Some && seq_starts_with(fs[ia].0->0, "audio"@),
        fs[ia].1 == Some(ua),
        ua.len() > 0,
        forall|j: int|
            0 <= j < iv ==> (#[trigger] fs[j]).0 is Some && !seq_starts_with(fs[j].0->0, "video"@),
        forall|j: int|
            0 <= j < ia ==> (#[trigger] fs[j]).0 is Some && !seq_starts_with(fs[j].0->0, "audio"@),
        0 <= k <= fs.len(),
    ensures
        scan_formats(fs.take(k)) == Ok::<(Seq<char>, Seq<char>), YtError>(
            (
                if k > iv {
                    uv
                } else {
                    Seq::<char>::empty()
                },
                if k > ia {
                    ua
                } else {
                    Seq::<char>::empty()
                },
            ),
        ),
    decreases k,
{
    if k == 0 {
        assert(fs.take(0) =~= Seq::<(Option<Seq<char>>, Option<Seq<char>>)>::empty());
    } else {
        lemma_first_streams_prefix(fs, iv, ia, uv, ua, k - 1);
        assert(fs.take(k).drop_last() =~= fs.take(k - 1));
        assert(fs.take(k).last() == fs[k - 1]);
        let f = fs[k - 1];
        if k - 1 < iv {
            assert(f.0 is Some && !seq_starts_with(f.0->0, "video"@));
        }
        if k - 1 < ia {
            assert(f.0 is Some && !seq_starts_with(f.0->0, "audio"@));
        }
    }
}

/// Law: the streams of a live player response are its first video and first audio format.
/// When format `iv` is the first whose MIME type starts with "video" and format `ia` the
/// first whose MIME type starts with "audio", both with non-empty addresses `uv` and `ua`,
/// and every format before each of them has a MIME type, the search ends with the title and
/// `uv`, a line break and `ua`; formats after a chosen one never change it.
pub proof fn law_first_video_and_audio(
    fs: Seq<(Option<Seq<char>>, Option<Seq<char>>)>,
    title: Seq<char>,
    iv: int,
    ia: int,
    uv: Seq<char>,
    ua: Seq<char>,
)
    requires
        0 <= iv < fs.len(),
        0 <= ia < fs.len(),
        fs[iv].0 is Some && seq_starts_with(fs[iv].0->0, "video"@),
        fs[iv].1 == Some(uv),
        uv.len() > 0,
        fs[ia].0 is Some && seq_starts_with(fs[ia].0->0, "audio"@),
        fs[ia].1 == Some(ua),
        ua.len() > 0,
        forall|j: int|
            0 <= j < iv ==> (#[trigger] fs[j]).0 is Some && !seq_starts_with(fs[j].0->0, "video"@),
        forall|j: int|
            0 <= j < ia ==> (#[trigger] fs[j]).0 is Some && !seq_starts_with(fs[j].0->0, "audio"@),
    ensures
        live_result(Some(fs), Some(title)) == Ok::<(Seq<char>, Seq<char>), YtError>(
            (title, uv + "\n"@ + ua),
        ),
{
    lemma_first_streams_prefix(fs, iv, ia, uv, ua, fs.len() as int);
    assert(fs.take(fs.len() as int) =~= fs);
    assert((uv + "\n"@ + ua).len() > 0);
}

proof fn lemma_scan_formats_err_stays(fs: Seq<(Option<Seq<char>>, Option<Seq<char>>)>, i: int)
    requires
        0 <= i <= fs.len(),
        scan_formats(fs.take(i)) is Err,
    ensures
        scan_formats(fs) == scan_formats(fs.take(i)),
    decreases fs.len() - i,
{
    if i < fs.len() {
        assert(fs.take(i + 1).drop_last() =~= fs.take(i));
        lemma_scan_formats_err_stays(fs, i + 1);
    } else {
        assert(fs.take(i) =~= fs);
    }
}

/// What the search reads from the player-response JSON `j`: whether it is live, its
/// adaptive formats and its title (see `player_formats`).
pub fn read_player(j: &[u8]) -> (res: PlayerInfo)
    ensures
        res.is_live == json_bool(j@, "/videoDetails/isLive"@),
        opt_view(res.title) == json_str(j@, "/videoDetails/title"@),
        match res.formats {
            Some(fs) => player_formats(j@) == Some(formats_view(fs@)),
            None => player_formats(j@) is None,
        },
{
    let is_live = json_bool_at(j, "/videoDetails/isLive");
    let title = json_str_at(j, "/videoDetails/title");
    let formats = match json_len_at(j, "/streamingData/adaptiveFormats") {
        None => None,
        Some(n) => {
            let mut fs: Vec<StreamFormat> = Vec::new();
            let mut i: usize = 0;
            while i < n
                invariant
                    i <= n,
                    fs.len() == i,
                    forall|k: int|
                        0 <= k < i ==> #[trigger] formats_view(fs@)[k] == (
                            json_str(j@, format_field(k as nat, "/mimeType"@)),
                            json_str(j@, format_field(k as nat, "/url"@)),
                        ),
                decreases n - i,
            {
                let prefix = join_str("/streamingData/adaptiveFormats", "/");
                let base = join_str(prefix.as_str(), decimal_string(i).as_str());
                let mime = json_str_at(j, join_str(base.as_str(), "/mimeType").as_str());
                let url = json_str_at(j, join_str(base.as_str(), "/url").as_str());
                let ghost before = fs@;
                fs.push(StreamFormat { mime, url });
                assert forall|k: int| 0 <= k <= i implies #[trigger] formats_view(fs@)[k] == (
                    json_str(j@, format_field(k as nat, "/mimeType"@)),
                    json_str(j@, format_field(k as nat, "/url"@)),
                ) by {
                    if k < i {
                        assert(fs@[k] == before[k]);
                        assert(formats_view(before)[k] == formats_view(fs@)[k]);
                    }
                }
                i = i + 1;
            }
            assert(formats_view(fs@) =~= player_formats(j@)->Some_0);
            Some(fs)
        },
    };
    PlayerInfo { is_live, formats, title }
}

impl YoutubeSearch {
    /// The channel id (empty when the address is not a channel address).
    pub closed spec fn cid_spec(&self) -> Seq<char> {
        self.cid@
    }

    /// The page searched in the current round.
    pub closed spec fn vurl_spec(&self) -> Seq<char> {
        self.vurl@
    }

    /// The round (0 or 1; the search makes at most two).
    pub closed spec fn round_spec(&self) -> u8 {
        self.round
    }

    /// The round of the search (0 or 1 while it goes on).
    pub fn round(&self) -> (res: u8)
        ensures
            res == self.round_spec(),
    {
        self.round
    }

    /// Goes on after a page without a live player response.
    fn fallback(&self) -> (res: YtAction)
        ensures
            action_view(res) == fallback_view(self.cid_spec()),
    {
        if self.cid.as_str().is_empty() {
            YtAction::Finish(Err(YtError::NoStream))
        } else {
            let mut u = "https://www.youtube.com/channel/".to_owned();
            u.append(self.cid.as_str());
            u.append("/videos");
            YtAction::FetchVideos(u)
        }
    }

    /// Takes the text of a fetched page: its player-response JSON decides (see
    /// `player_action`), and a page without one makes the search fall back.
    pub fn on_page(&self, page: &str) -> (res: YtAction)
        ensures
            action_view(res) == match regex_group(player_pattern(), page@, 1) {
                Some(j) => player_action(self.cid_spec(), encode_utf8(j)),
                None => fallback_view(self.cid_spec()),
            },
    {
        match regex_capture("ytInitialPlayerResponse\\s*=\\s*(\\{.+?\\});.*?</script>", page, 1) {
            Some(j) => self.on_player(read_player(j.as_str().as_bytes())),
            None => self.fallback(),
        }
    }

    /// Takes what was read from a player response: a live one ends the search with its
    /// streams (see `live_result`); any other makes the search fall back.
    pub fn on_player(&self, info: PlayerInfo) -> (res: YtAction)
        ensures
            action_view(res) == if info.is_live == Some(true) {
                ActionView::Finish(
                    live_result(
                        match info.formats {
                            Some(fs) => Some(formats_view(fs@)),
                            None => None,
                        },
                        opt_view(info.title),
                    ),
                )
            } else {
                fallback_view(self.cid_spec())
            },
    {
        if info.is_live == Some(true) {
            YtAction::Finish(live_result_exec(&info.formats, &info.title))
        } else {
            self.fallback()
        }
    }

    /// Takes the text of the channel's video list: the page of its live video is searched
    /// in the next round, after the last round the search ends without a stream, and a
    /// list without a readable live video ends it (see `live_video_spec`).
    pub fn on_videos(&mut self, page: &str) -> (res: YtAction)
        requires
            old(self).round_spec() <= 1,
        ensures
            final(self).cid_spec() == old(self).cid_spec(),
            match live_video_spec(page@) {
                Err(e) => action_view(res) == ActionView::Finish(Err(e)) && *final(self) == *old(
                    self,
                ),
                Ok(next) => {
                    &&& final(self).vurl_spec() == next
                    &&& final(self).round_spec() == old(self).round_spec() + 1
                    &&& action_view(res) == if old(self).round_spec() == 0 {
                        ActionView::FetchPage(next)
                    } else {
                        ActionView::Finish(Err(YtError::NoStream))
                    }
                },
            },
    {
        let entry = match fancy_first_match(
            "\"gridVideoRenderer\"((.(?!\"gridVideoRenderer\"))(?!\"style\":\"UPCOMING\"))+\"label\":\"(LIVE|LIVE NOW|PREMIERING NOW)\"([\\s\\S](?!\"style\":\"UPCOMING\"))+?(\"gridVideoRenderer\"|</script>)",
            page,
        ) {
            None => return YtAction::Finish(Err(YtError::LiveSearchFailed)),
            Some(None) => return YtAction::Finish(Err(YtError::NoLiveVideo)),
            Some(Some(t)) => t,
        };
        let vid = match regex_capture("\"gridVideoRenderer\".+?\"videoId\":\"(.+?)\"", entry.as_str(), 1) {
            None => return YtAction::Finish(Err(YtError::VideoIdUnreadable)),
            Some(v) => v,
        };
        let mut next = "https://www.youtube.com/watch?v=".to_owned();
        next.append(vid.as_str());
        self.vurl = next;
        self.round = self.round + 1;
        if self.round >= 2 {
            YtAction::Finish(Err(YtError::NoStream))
        } else {
            YtAction::FetchPage(self.vurl.clone())
        }
    }
}

impl Youtube {
    /// A finder.
    pub fn new() -> (res: Self) {
        Youtube {  }
    }

    /// Starts the search for the live stream of `room_url` (see `start_spec`); the first
    /// action fetches the page to search.
    pub fn start(&self, room_url: &str) -> (res: Result<(YoutubeSearch, YtAction), YtError>)
        ensures
            match res {
                Ok((s, a)) => {
                    &&& start_spec(room_url@) == Ok::<(Seq<char>, Seq<char>), YtError>(
                        (s.cid_spec(), s.vurl_spec()),
                    )
                    &&& s.round_spec() == 0
                    &&& action_view(a) == ActionView::FetchPage(s.vurl_spec())
                },
                Err(e) => start_spec(room_url@) == Err::<(Seq<char>, Seq<char>), YtError>(e),
            },
    {
        let (cid, vurl) = if contains_str(room_url, "youtube.com/channel/") {
            match regex_capture("youtube.com/channel/([^/?]+)", room_url, 1) {
                None => return Err(YtError::ChannelUnreadable),
                Some(c) => {
                    let mut u = "https://www.youtube.com/channel/".to_owned();
                    u.append(c.as_str());
                    u.append("/live");
                    (c, u)
                },
            }
        } else {
            (String::new(), room_url.to_owned())
        };
        let first = YtAction::FetchPage(vurl.clone());
        Ok((YoutubeSearch { cid, vurl, round: 0 }, first))
    }
}

} // verus!
