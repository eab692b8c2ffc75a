//! HLS relay: decoding of media playlists and the pacing of segment downloads.
use std::collections::BTreeMap;
use std::sync::atomic::AtomicBool;
use std::sync::Arc;
use vstd::prelude::*;

use crate::streamer::seqmap::{head_sequence, lemma_u64_key_order};
use crate::text::{
    parse_u64, parse_u64_spec, regex_capture, regex_group, seq_starts_with, split_char, split_on,
    starts_with,
};

verus! {

/// Why a media playlist could not be decoded.
#[derive(Debug, PartialEq, Eq, Structural)]
pub enum M3u8Error {
    /// A media-sequence tag line whose number the tag pattern does not find.
    TagUnreadable,
    /// A media-sequence number that is not a `u64`.
    SequenceInvalid,
    /// No media-sequence tag, or no segment line.
    Incomplete,
}

/// The media-sequence tag.
pub open spec fn seq_tag() -> Seq<char> {
    "#EXT-X-MEDIA-SEQUENCE"@
}

/// The pattern that reads the number of a media-sequence tag line.
pub open spec fn seq_pattern() -> Seq<char> {
    "#EXT-X-MEDIA-SEQUENCE: *([0-9]+)"@
}

/// The media sequence after reading `line`, `prev` before it: a tag line sets it to the
/// number it carries (or fails); other lines leave it.
pub open spec fn line_sequence(line: Seq<char>, prev: Option<u64>) -> Result<Option<u64>, M3u8Error> {
    if seq_starts_with(line, seq_tag()) {
        match regex_group(seq_pattern(), line, 1) {
            None => Err(M3u8Error::TagUnreadable),
            Some(g) => match parse_u64_spec(g) {
                None => Err(M3u8Error::SequenceInvalid),
                Some(t) => Ok(Some(t)),
            },
        }
    } else {
        Ok(prev)
    }
}

/// Reading `lines` in order: the media sequence of the last tag line and the segment lines
/// (those not starting with `#`), or the error of the first bad tag line.
pub open spec fn scan_lines(lines: Seq<Seq<char>>) -> Result<(Option<u64>, Seq<Seq<char>>), M3u8Error>
    decreases lines.len(),
{
    if lines.len() == 0 {
        Ok((None, Seq::empty()))
    } else {
        match scan_lines(lines.drop_last()) {
            Err(e) => Err(e),
            Ok((sq, urls)) => {
                let l = lines.last();
                match line_sequence(l, sq) {
                    Err(e) => Err(e),
                    Ok(sq2) => Ok(
                        (sq2, if seq_starts_with(l, "#"@) {
                            urls
                        } else {
                            urls.push(l)
                        }),
                    ),
                }
            },
        }
    }
}

/// The segments keyed by sequence number: the last segment line gets `sq`, each earlier
/// one the number below (never below 0, where an earlier line replaces a later one).
pub open spec fn segment_keys(urls: Seq<Seq<char>>, sq: u64) -> Map<u64, Seq<char>>
    decreases urls.len(),
{
    if urls.len() == 0 {
        Map::empty()
    } else {
        map![sq => urls.last()].union_prefer_right(
            segment_keys(urls.drop_last(), sq.saturating_sub(1)),
        )
    }
}

/// What decoding the playlist `text` gives.
pub open spec fn decode_spec(text: Seq<char>) -> Result<Map<u64, Seq<char>>, M3u8Error> {
    match scan_lines(split_on(text, '\n')) {
        Err(e) => Err(e),
        Ok((None, _)) => Err(M3u8Error::Incomplete),
        Ok((Some(sq), urls)) => if urls.len() == 0 {
            Err(M3u8Error::Incomplete)
        } else {
            Ok(segment_keys(urls, sq))
        },
    }
}

proof fn lemma_scan_err_stays(lines: Seq<Seq<char>>, i: int)
    requires
        0 <= i <= lines.len(),
        scan_lines(lines.take(i)) is Err,
    ensures
        scan_lines(lines) == scan_lines(lines.take(i)),
    decreases lines.len() - i,
{
    if i < lines.len() {
        assert(lines.take(i + 1).drop_last() =~= lines.take(i));
        lemma_scan_err_stays(lines, i + 1);
    } else {
        assert(lines.take(i) =~= lines);
    }
}

/// Decodes a media playlist into its segment lines keyed by sequence number (see
/// `decode_spec`).
pub fn decode_m3u8(m3u8: &str) -> (res: Result<BTreeMap<u64, String>, M3u8Error>)
    ensures
        match res {
            Ok(m) => decode_spec(m3u8@) == Ok::<Map<u64, Seq<char>>, M3u8Error>(
                m@.map_values(|s: String| s@),
            ),
            Err(e) => decode_spec(m3u8@) == Err::<Map<u64, Seq<char>>, M3u8Error>(e),
        },
{
    broadcast use vstd::std_specs::btree::group_btree_axioms;

    proof {
        lemma_u64_key_order();
    }
    let lines = split_char(m3u8, '\n');
    let ghost ls = lines@.map_values(|p: String| p@);
    let mut sq: Option<u64> = None;
    let mut urls: Vec<String> = Vec::new();
    let mut i: usize = 0;
    assert(ls.take(0) =~= Seq::<Seq<char>>::empty());
    assert(urls@.map_values(|p: String| p@) =~= Seq::<Seq<char>>::empty());
    while i < lines.len()
        invariant
            i <= lines.len(),
            ls == lines@.map_values(|p: String| p@),
            ls == split_on(m3u8@, '\n'),
            scan_lines(ls.take(i as int)) == Ok::<(Option<u64>, Seq<Seq<char>>), M3u8Error>(
                (sq, urls@.map_values(|p: String| p@)),
            ),
        decreases lines.len() - i,
    {
        let line = &lines[i];
        assert(ls.take(i + 1).drop_last() =~= ls.take(i as int));
        assert(ls[i as int] == line@);
        if starts_with(line.as_str(), "#EXT-X-MEDIA-SEQUENCE") {
            let cap = regex_capture("#EXT-X-MEDIA-SEQUENCE: *([0-9]+)", line.as_str(), 1);
            match cap {
                None => {
                    proof {
                        lemma_scan_err_stays(ls, i + 1);
                    }
                    return Err(M3u8Error::TagUnreadable);
                },
                Some(g) => match parse_u64(g.as_str()) {
                    None => {
                        proof {
                            lemma_scan_err_stays(ls, i + 1);
                        }
                        return Err(M3u8Error::SequenceInvalid);
                    },
                    Some(t) => {
                        sq = Some(t);
                    },
                },
            }
        }
        let ghost before = urls@.map_values(|p: String| p@);
        if !starts_with(line.as_str(), "#") {
            urls.push(line.clone());
            assert(urls@.map_values(|p: String| p@) =~= before.push(line@));
        }
        i = i + 1;
    }
    assert(ls.take(lines.len() as int) =~= ls);
    match sq {
        None => Err(M3u8Error::Incomplete),
        Some(s0) => {
            if urls.len() == 0 {
                return Err(M3u8Error::Incomplete);
            }
            let ghost us = urls@.map_values(|p: String| p@);
            let mut m: BTreeMap<u64, String> = BTreeMap::new();
            let mut cur = s0;
            let mut j = urls.len();
            assert(us.take(urls.len() as int) =~= us);
            assert(m@.map_values(|s: String| s@).union_prefer_right(segment_keys(us, s0))
                =~= segment_keys(us, s0));
            while j > 0
                invariant
                    j <= urls.len(),
                    us == urls@.map_values(|p: String| p@),
                    segment_keys(us, s0) == m@.map_values(|s: String| s@).union_prefer_right(
                        segment_keys(us.take(j as int), cur),
                    ),
                decreases j,
            {
                let ghost old_m = m@.map_values(|s: String| s@);
                let u = urls[j - 1].clone();
                assert(us[j - 1] == u@);
                m.insert(cur, u);
                let ghost rest = segment_keys(us.take(j - 1), cur.saturating_sub(1));
                assert(us.take(j as int).drop_last() =~= us.take(j - 1));
                assert(segment_keys(us.take(j as int), cur) == map![cur => us[j - 1]].union_prefer_right(rest));
                assert(m@.map_values(|s: String| s@) =~= old_m.insert(cur, us[j - 1]));
                assert(old_m.union_prefer_right(map![cur => us[j - 1]].union_prefer_right(rest))
                    =~= m@.map_values(|s: String| s@).union_prefer_right(rest));
                cur = cur.saturating_sub(1);
                j = j - 1;
            }
            assert(us.take(0) =~= Seq::<Seq<char>>::empty());
            assert(m@.map_values(|s: String| s@).union_prefer_right(Map::<u64, Seq<char>>::empty())
                =~= m@.map_values(|s: String| s@));
            Ok(m)
        },
    }
}


proof fn lemma_segment_keys_range(urls: Seq<Seq<char>>, sq: u64)
    requires
        urls.len() > 0,
    ensures
        segment_keys(urls, sq).contains_key(sq),
        forall|k: u64| #[trigger]
            segment_keys(urls, sq).contains_key(k) ==> sq - (urls.len() - 1) <= k <= sq,
    decreases urls.len(),
{
    let rest = segment_keys(urls.drop_last(), sq.saturating_sub(1));
    if urls.len() > 1 {
        lemma_segment_keys_range(urls.drop_last(), sq.saturating_sub(1));
    } else {
        assert(urls.drop_last().len() == 0);
        assert(rest =~= Map::<u64, Seq<char>>::empty());
    }
    assert forall|k: u64| #[trigger]
        segment_keys(urls, sq).contains_key(k) implies sq - (urls.len() - 1) <= k <= sq by {
        if k != sq {
            assert(rest.contains_key(k));
        }
    }
}

/// Law: in a decoded playlist the highest sequence number is that of the last
/// media-sequence tag, and the segments take the numbers just below it, one per segment
/// line.
pub proof fn law_decoded_head(text: Seq<char>)
    requires
        decode_spec(text) is Ok,
    ensures
        scan_lines(split_on(text, '\n')) matches Ok((Some(sq), urls)) && ({
            let m = decode_spec(text)->Ok_0;
            &&& m.contains_key(sq)
            &&& forall|k: u64| #[trigger] m.contains_key(k) ==> sq - (urls.len() - 1) <= k <= sq
        }),
{
    if let Ok((Some(sq), urls)) = scan_lines(split_on(text, '\n')) {
        lemma_segment_keys_range(urls, sq);
    }
}

/// Relay of an HLS stream to a local socket.
pub struct HLS {
    url: String,
    stream_socket: String,
    loading: Arc<AtomicBool>,
}

impl HLS {
    /// The playlist address.
    pub closed spec fn url_spec(&self) -> Seq<char> {
        self.url@
    }

    /// The path of the local socket the stream is written to.
    pub closed spec fn socket_spec(&self) -> Seq<char> {
        self.stream_socket@
    }

    /// The flag that is cleared once the first segment is chosen.
    pub closed spec fn loading_spec(&self) -> Arc<AtomicBool> {
        self.loading
    }

    /// A relay of the playlist at `url` to the socket at `extra`.
    pub fn new(url: String, extra: String, loading: Arc<AtomicBool>) -> (res: Self)
        ensures
            res.url_spec() == url@,
            res.socket_spec() == extra@,
            res.loading_spec() == loading,
    {
        HLS { url, stream_socket: extra, loading }
    }

    /// The playlist address.
    pub fn url(&self) -> (res: &str)
        ensures
            res@ == self.url_spec(),
    {
        self.url.as_str()
    }

    /// The path of the local socket.
    pub fn stream_socket(&self) -> (res: &str)
        ensures
            res@ == self.socket_spec(),
    {
        self.stream_socket.as_str()
    }

    /// The loading flag.
    pub fn loading(&self) -> (res: &Arc<AtomicBool>)
        ensures
            *res == self.loading_spec(),
    {
        &self.loading
    }

    /// What follows the `failures`-th failed attempt (counted from 1) to bind the relay's
    /// socket: a pause of 500 ms, and whether to try again (while fewer than 15 attempts
    /// have failed).
    pub fn after_bind_failure(failures: u32) -> (res: (u64, bool))
        ensures
            res == (500u64, failures < 15),
    {
        (500, failures < 15)
    }

    /// Decodes a media playlist (see `decode_m3u8`).
    pub fn decode_m3u8(m3u8: &str) -> (res: Result<BTreeMap<u64, String>, M3u8Error>)
        ensures
            match res {
                Ok(m) => decode_spec(m3u8@) == Ok::<Map<u64, Seq<char>>, M3u8Error>(
                    m@.map_values(|s: String| s@),
                ),
                Err(e) => decode_spec(m3u8@) == Err::<Map<u64, Seq<char>>, M3u8Error>(e),
            },
    {
        decode_m3u8(m3u8)
    }
}

/// Why a download round stopped.
#[derive(Debug, PartialEq, Eq, Structural)]
pub enum HlsError {
    /// The playlist has no segment.
    NoHead,
    /// The playlist lacks the segment to fetch next.
    MissingSegment,
    /// The round took more milliseconds than a `u64` holds.
    ElapsedTooLarge,
}

/// The segment chosen in a download round.
pub struct SegmentPick {
    /// The segment's address.
    pub url: String,
    /// The highest sequence number of the playlist.
    pub head: u64,
    /// Whether this is the first segment of the relay (the loading flag is then cleared).
    pub first: bool,
}

/// What follows a written segment.
#[derive(Debug, PartialEq, Eq, Structural)]
pub enum Pace {
    /// The playlist is behind: wait 100 ms and fetch it again for the same segment.
    Retry,
    /// Wait `sleep_ms` milliseconds and go on with the next segment.
    Next { sleep_ms: u64 },
}

/// The highest of the sequence numbers `keys` (meaningful when `keys` is finite and not
/// empty).
pub open spec fn key_head(keys: Set<u64>) -> u64 {
    choose|h: u64| keys.contains(h) && forall|k: u64| #[trigger] keys.contains(k) ==> k <= h
}

/// A finite, non-empty set of sequence numbers has a highest one.
pub proof fn lemma_key_head(keys: Set<u64>)
    requires
        keys.finite(),
        !keys.is_empty(),
    ensures
        keys.contains(key_head(keys)),
        forall|k: u64| #[trigger] keys.contains(k) ==> k <= key_head(keys),
    decreases keys.len(),
{
    let x = keys.choose();
    let rest = keys.remove(x);
    if rest.is_empty() {
        assert forall|k: u64| #[trigger] keys.contains(k) implies k <= x by {
            if k != x {
                assert(rest.contains(k));
            }
        }
    } else {
        lemma_key_head(rest);
        let h = key_head(rest);
        let m = if x < h { h } else { x };
        assert forall|k: u64| #[trigger] keys.contains(k) implies k <= m by {
            if k != x {
                assert(rest.contains(k));
            }
        }
        assert(keys.contains(m));
    }
}

/// The sequence number a round fetches, from a cursor at `sq`, in a playlist with the
/// numbers `keys`: the highest of them in the first round (`sq` 0), else `sq`.
pub open spec fn pick_next(sq: u64, keys: Set<u64>) -> u64 {
    if sq == 0 {
        key_head(keys)
    } else {
        sq
    }
}

/// What pacing a round gives, from a cursor at `sq` with interval `interval`, when the
/// playlist's highest number is `head` and the round has taken `elapsed` ms: the answer,
/// then the new sequence number and interval (see `HlsCursor::pace`).
pub open spec fn pace_next(sq: u64, interval: u64, head: u64, elapsed: u128) -> (
    Result<Pace, HlsError>,
    u64,
    u64,
) {
    if head < sq {
        (Ok(Pace::Retry), sq, (interval + 100) as u64)
    } else if head > sq {
        (
            Ok(Pace::Next { sleep_ms: 0 }),
            (sq + 1) as u64,
            if interval >= 100 {
                (interval - 100) as u64
            } else {
                0
            },
        )
    } else if elapsed > u64::MAX {
        (Err(HlsError::ElapsedTooLarge), sq, interval)
    } else {
        (
            Ok(
                Pace::Next {
                    sleep_ms: if elapsed < interval {
                        (interval - elapsed) as u64
                    } else {
                        0
                    },
                },
            ),
            (sq + 1) as u64,
            interval,
        )
    }
}

/// Law: a relay pauses only when it is at the playlist's head, and then just long enough
/// for the round to take its interval. Behind the playlist (`head > sq`) it moves on to the
/// next number at once; ahead of it (`head < sq`) it retries the same number; any pause
/// it takes, added to the time the round has taken, equals the interval.
pub proof fn law_pause_only_at_head(sq: u64, interval: u64, head: u64, elapsed: u128)
    ensures
        head > sq && sq < u64::MAX ==> pace_next(sq, interval, head, elapsed).0 == Ok::<
            Pace,
            HlsError,
        >(Pace::Next { sleep_ms: 0 }) && pace_next(sq, interval, head, elapsed).1 == sq + 1,
        head < sq ==> pace_next(sq, interval, head, elapsed).0 == Ok::<Pace, HlsError>(
            Pace::Retry,
        ) && pace_next(sq, interval, head, elapsed).1 == sq,
        head == sq && sq < u64::MAX && elapsed <= u64::MAX ==> pace_next(
            sq,
            interval,
            head,
            elapsed,
        ).0 is Ok && pace_next(sq, interval, head, elapsed).1 == sq + 1,
        pace_next(sq, interval, head, elapsed).0 matches Ok(Pace::Next { sleep_ms }) ==> (
        sleep_ms > 0 ==> head == sq && elapsed + sleep_ms == interval),
{
}

/// The sequence numbers of the segments a relay writes, one per round, starting from a
/// cursor at `sq` with interval `interval`, when round `i` sees a playlist with the
/// numbers `rounds[i].0` and is paced after `rounds[i].1` ms. A round whose playlist is
/// empty or lacks the number to fetch writes nothing and ends the relay; a round whose
/// pacing fails writes its segment and ends it.
pub open spec fn relay_written(sq: u64, interval: u64, rounds: Seq<(Set<u64>, u128)>) -> Seq<u64>
    decreases rounds.len(),
{
    if rounds.len() == 0 {
        Seq::empty()
    } else {
        let keys = rounds[0].0;
        let s = pick_next(sq, keys);
        if keys.is_empty() || !keys.contains(s) {
            Seq::empty()
        } else {
            let (r, s2, i2) = pace_next(s, interval, key_head(keys), rounds[0].1);
            match r {
                Err(_) => seq![s],
                Ok(_) => seq![s] + relay_written(s2, i2, rounds.drop_first()),
            }
        }
    }
}

proof fn lemma_relay_from(sq: u64, interval: u64, rounds: Seq<(Set<u64>, u128)>)
    requires
        sq > 0,
        sq + rounds.len() <= u64::MAX,
        forall|i: int| 0 <= i < rounds.len() ==> (#[trigger] rounds[i]).0.finite(),
    ensures
        relay_written(sq, interval, rounds).len() <= rounds.len(),
        forall|k: int|
            0 <= k < relay_written(sq, interval, rounds).len() ==> {
                &&& #[trigger] relay_written(sq, interval, rounds)[k] == sq + k
                &&& rounds[k].0.contains((sq + k) as u64)
            },
    decreases rounds.len(),
{
    if rounds.len() > 0 {
        let keys = rounds[0].0;
        assert(keys.finite());
        if !keys.is_empty() && keys.contains(sq) {
            lemma_key_head(keys);
            let (r, s2, i2) = pace_next(sq, interval, key_head(keys), rounds[0].1);
            if r is Ok {
                let rest = rounds.drop_first();
                assert forall|i: int| 0 <= i < rest.len() implies (#[trigger] rest[i]).0.finite() by {
                    assert(rest[i] == rounds[i + 1]);
                }
                lemma_relay_from(s2, i2, rest);
                let w = relay_written(sq, interval, rounds);
                let w2 = relay_written(s2, i2, rest);
                assert(w == seq![sq] + w2);
                assert forall|k: int| 0 <= k < w.len() implies {
                    &&& #[trigger] w[k] == sq + k
                    &&& rounds[k].0.contains((sq + k) as u64)
                } by {
                    if k > 0 {
                        assert(w[k] == w2[k - 1]);
                        assert(rest[k - 1] == rounds[k]);
                    }
                }
            }
        }
    }
}

/// Law: a relay writes its segments in order, each once: the first round takes the
/// highest number `h` of its playlist, and the `k`-th round writes number `h + k`, taken
/// from its own playlist, until a round fails.
pub proof fn law_relay_in_order(interval: u64, rounds: Seq<(Set<u64>, u128)>)
    requires
        rounds.len() > 0,
        forall|i: int| 0 <= i < rounds.len() ==> (#[trigger] rounds[i]).0.finite(),
        !rounds[0].0.is_empty(),
        key_head(rounds[0].0) + rounds.len() <= u64::MAX,
    ensures
        1 <= relay_written(0, interval, rounds).len() <= rounds.len(),
        forall|k: int|
            0 <= k < relay_written(0, interval, rounds).len() ==> {
                &&& #[trigger] relay_written(0, interval, rounds)[k] == key_head(rounds[0].0) + k
                &&& rounds[k].0.contains((key_head(rounds[0].0) + k) as u64)
            },
{
    let keys = rounds[0].0;
    assert(keys.finite());
    lemma_key_head(keys);
    let h = key_head(keys);
    let (r, s2, i2) = pace_next(h, interval, h, rounds[0].1);
    let w = relay_written(0, interval, rounds);
    if r is Ok {
        let rest = rounds.drop_first();
        assert forall|i: int| 0 <= i < rest.len() implies (#[trigger] rest[i]).0.finite() by {
            assert(rest[i] == rounds[i + 1]);
        }
        lemma_relay_from(s2, i2, rest);
        let w2 = relay_written(s2, i2, rest);
        assert(w == seq![h] + w2);
        assert forall|k: int| 0 <= k < w.len() implies {
            &&& #[trigger] w[k] == h + k
            &&& rounds[k].0.contains((h + k) as u64)
        } by {
            if k > 0 {
                assert(w[k] == w2[k - 1]);
                assert(rest[k - 1] == rounds[k]);
            }
        }
    } else {
        assert(w == seq![h]);
    }
}

/// Law: one round of the relay follows `relay_written`. The round is a `pick_segment` call
/// that takes the cursor from (`pre_sq`, `pre_interval`) to (`mid_sq`, `mid_interval`) on a
/// playlist with the numbers `keys` and succeeds (`picked`) or not, and, when it succeeded,
/// a `pace` call with the playlist's highest number after `elapsed` ms that answers `paced`
/// and takes the cursor to (`post_sq`, `post_interval`); the requirements are what those
/// calls ensure. Such a round writes segment `mid_sq`, the first number `relay_written`
/// gives from `pre`, and the relay goes on from `post` as `relay_written` does, so a
/// sequence of rounds writes exactly `relay_written` of its playlists.
pub proof fn law_round_follows_relay(
    pre_sq: u64,
    pre_interval: u64,
    keys: Set<u64>,
    elapsed: u128,
    mid_sq: u64,
    mid_interval: u64,
    picked: bool,
    paced: Result<Pace, HlsError>,
    post_sq: u64,
    post_interval: u64,
    rest: Seq<(Set<u64>, u128)>,
)
    requires
        !keys.is_empty(),
        mid_sq == pick_next(pre_sq, keys),
        mid_interval == pre_interval,
        picked == keys.contains(mid_sq),
        picked ==> (paced, post_sq, post_interval) == pace_next(
            mid_sq,
            mid_interval,
            key_head(keys),
            elapsed,
        ),
    ensures
        !picked ==> relay_written(pre_sq, pre_interval, seq![(keys, elapsed)] + rest)
            == Seq::<u64>::empty(),
        picked && paced is Err ==> relay_written(pre_sq, pre_interval, seq![(keys, elapsed)] + rest)
            == seq![mid_sq],
        picked && paced is Ok ==> relay_written(pre_sq, pre_interval, seq![(keys, elapsed)] + rest)
            == seq![mid_sq] + relay_written(post_sq, post_interval, rest),
{
    let rounds = seq![(keys, elapsed)] + rest;
    assert(rounds[0] == (keys, elapsed));
    assert(rounds.drop_first() =~= rest);
}

/// Position of a relay in the stream: the next sequence number (0 before the first round)
/// and the pause, in milliseconds, that one round aims to take.
pub struct HlsCursor {
    pub sq: u64,
    pub interval: u64,
}

impl HlsCursor {
    /// The cursor of a relay that has not started: sequence 0, interval 1000 ms.
    pub fn new() -> (res: Self)
        ensures
            res.sq == 0,
            res.interval == 1000,
    {
        HlsCursor { sq: 0, interval: 1000 }
    }

    /// Chooses the segment of this round from the playlist `ts_urls`. The first round
    /// (sequence 0) starts at the playlist's highest number.
    pub fn pick_segment(&mut self, ts_urls: &BTreeMap<u64, String>) -> (res: Result<
        SegmentPick,
        HlsError,
    >)
        ensures
            final(self).interval == old(self).interval,
            ts_urls@.dom().is_empty() ==> res == Err::<SegmentPick, HlsError>(HlsError::NoHead)
                && *final(self) == *old(self),
            !ts_urls@.dom().is_empty() ==> {
                let head = key_head(ts_urls@.dom());
                &&& ts_urls@.contains_key(head)
                &&& forall|k: u64| #[trigger] ts_urls@.contains_key(k) ==> k <= head
                &&& final(self).sq == pick_next(old(self).sq, ts_urls@.dom())
                &&& match res {
                    Ok(p) => {
                        &&& ts_urls@.contains_key(final(self).sq)
                        &&& p.url@ == ts_urls@[final(self).sq]@
                        &&& p.head == head
                        &&& p.first == (old(self).sq == 0)
                        // the playlist is never behind a picked segment, so `pace` moves on
                        &&& final(self).sq <= p.head
                    },
                    Err(e) => e == HlsError::MissingSegment && !ts_urls@.contains_key(final(self).sq),
                }
            },
    {
        broadcast use vstd::std_specs::btree::group_btree_axioms;

        proof {
            lemma_u64_key_order();
        }
        let head_sq = match head_sequence(ts_urls) {
            Some(h) => h,
            None => return Err(HlsError::NoHead),
        };
        proof {
            let c = choose|h: u64|
                ts_urls@.contains_key(h) && forall|k: u64| #[trigger]
                    ts_urls@.contains_key(k) ==> k <= h;
            assert(ts_urls@.contains_key(c) && forall|k: u64| #[trigger]
                ts_urls@.contains_key(k) ==> k <= c);
            assert(c <= head_sq && head_sq <= c);
        }
        let first = self.sq == 0;
        if first {
            self.sq = head_sq;
        }
        match ts_urls.get(&self.sq) {
            Some(u) => Ok(SegmentPick { url: u.clone(), head: head_sq, first }),
            None => Err(HlsError::MissingSegment),
        }
    }

    /// Steps the cursor after the segment of this round was written; `head` is the
    /// playlist's highest number and `elapsed_ms` the time the round has taken so far.
    /// Ahead of the playlist the cursor stays and the interval grows by 100; otherwise the
    /// cursor moves to the next number, the interval shrinks by 100 (not below 0) when the
    /// playlist is ahead, and the pause is what is left of the interval when it is not.
    pub fn pace(&mut self, head: u64, elapsed_ms: u128) -> (res: Result<Pace, HlsError>)
        requires
            head < old(self).sq ==> old(self).interval <= u64::MAX - 100,
            head >= old(self).sq ==> old(self).sq < u64::MAX,
        ensures
            (res, final(self).sq, final(self).interval) == pace_next(
                old(self).sq,
                old(self).interval,
                head,
                elapsed_ms,
            ),
    {
        if head > self.sq {
            self.interval = self.interval.saturating_sub(100);
        } else if head < self.sq {
            self.interval = self.interval + 100;
            return Ok(Pace::Retry);
        }
        let mut sleep_ms: u64 = 0;
        if head <= self.sq {
            if elapsed_ms > u64::MAX as u128 {
                return Err(HlsError::ElapsedTooLarge);
            }
            let elapsed = elapsed_ms as u64;
            if elapsed < self.interval {
                sleep_ms = self.interval - elapsed;
            }
        }
        self.sq = self.sq + 1;
        Ok(Pace::Next { sleep_ms })
    }
}

} // verus!
