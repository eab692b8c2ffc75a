//! Packets of the CC live danmaku protocol: an 8-byte little-endian frame header
//! followed by a MessagePack-style encoding of a string-keyed dictionary.
use vstd::prelude::*;
use vstd::arithmetic::power2::{lemma2_to64, lemma2_to64_rest, lemma_pow2_unfold, pow2};
use vstd::utf8::encode_utf8;

use crate::json::{json_text, json_text_at};
use crate::streamfinder::{param, params_view};
use crate::text::{join_str, url_last_segment, url_path_last_segment};

verus! {

/// The frame header `<HHI`: `sid` and `cid` as little-endian u16, then a zero u32.
pub open spec fn frame_header(sid: u16, cid: u16) -> Seq<u8> {
    seq![
        (sid % 256) as u8,
        (sid / 256) as u8,
        (cid % 256) as u8,
        (cid / 256) as u8,
        0u8,
        0u8,
        0u8,
        0u8,
    ]
}

/// The bytes that introduce a string whose UTF-8 encoding is `n` bytes long.
/// Lengths above 255 keep only their low byte.
pub open spec fn text_header(n: nat) -> Seq<u8> {
    if n < 32 {
        seq![(160 + n) as u8]
    } else if n <= 255 {
        seq![217u8, n as u8]
    } else if n <= 65535 {
        seq![218u8, (n % 256) as u8]
    } else {
        seq![219u8, (n % 256) as u8]
    }
}

/// A string with UTF-8 encoding `bytes`, as it stands in a packet.
pub open spec fn text_pack(bytes: Seq<u8>) -> Seq<u8> {
    text_header(bytes.len()) + bytes
}

/// The byte that introduces a dictionary of `n` entries (no length follows it).
pub open spec fn map_header(n: nat) -> u8 {
    if n < 16 {
        (128 + n) as u8
    } else if n <= 65535 {
        222u8
    } else {
        223u8
    }
}


/// Two to the power `n`.
pub open spec fn exp2(n: nat) -> nat
    decreases n,
{
    if n == 0 {
        1
    } else {
        2 * exp2((n - 1) as nat)
    }
}

/// The exponent of the highest power of two not above `x` (0 for `x` below 2).
pub open spec fn log2_floor(x: nat) -> nat
    decreases x,
{
    if x < 2 {
        0
    } else {
        1 + log2_floor(x / 2)
    }
}

/// `d` rounded to a multiple of `q`; a value halfway between two multiples goes to the
/// even one (round-half-to-even, as when a double stores an integer).
pub open spec fn round_half_even(d: nat, q: nat) -> nat
    recommends
        q > 0,
{
    let lo = d / q;
    let rem = d % q;
    if 2 * rem < q || (2 * rem == q && lo % 2 == 0) {
        lo * q
    } else {
        (lo + 1) * q
    }
}

/// The spacing of doubles between `2^(m + k + 1)` and `2^(m + k + 2)`.
pub open spec fn grain(m: nat, k: nat) -> nat {
    if m + k >= 51 {
        exp2((m + k - 51) as nat)
    } else {
        1
    }
}

/// `floor(r * 2^s)`, capped at 255.
pub open spec fn saturated_scale(r: nat, s: int) -> u8 {
    let a = if s >= 0 {
        r * exp2(s as nat)
    } else {
        r / exp2((-s) as nat)
    };
    if a >= 255 {
        255u8
    } else {
        a as u8
    }
}

/// The `k`-th low byte (k = 0 is the last byte of the packet) of the wide number field
/// for `x`: the part of `x` below its leading power of two, as a double of
/// magnitude `2^(m + k + 1)` would hold it, scaled by `2^(51 - 9k - m)` and capped at 255.
pub open spec fn mantissa_byte(x: nat, k: nat) -> u8 {
    let m = log2_floor(x);
    saturated_scale(round_half_even((x - exp2(m)) as nat, grain(m, k)), 51 - 9 * k - m)
}

/// The 9-byte wide number field for `x` above 65535: tag 0xcb, then the exponent word
/// `(log2_floor(x) + 1029) * 16` big-endian, then the six mantissa bytes, highest first.
pub open spec fn wide_num_pack(x: nat) -> Seq<u8> {
    let f = (log2_floor(x) + 1029) * 16;
    seq![
        0xcbu8,
        (f / 256) as u8,
        (f % 256) as u8,
        mantissa_byte(x, 5),
        mantissa_byte(x, 4),
        mantissa_byte(x, 3),
        mantissa_byte(x, 2),
        mantissa_byte(x, 1),
        mantissa_byte(x, 0),
    ]
}

/// Whether converting `x` to a double rounds it up to the next power of two.
pub open spec fn double_rounds_up(x: nat) -> bool {
    let m = log2_floor(x);
    m >= 53 && round_half_even((x - exp2(m)) as nat, exp2((m - 52) as nat)) == exp2(m)
}

/// The numbers the encoder accepts: all below `2^57`.
pub open spec fn num_packable(e: i64) -> bool {
    e < 0x200_0000_0000_0000
}

/// A number as it stands in a packet: its low byte up to 255 (negative numbers too),
/// 0xcd and a big-endian u16 up to 65535, and the wide field above that, taken of the
/// double nearest to `e` where that double is a power of two.
pub open spec fn num_pack(e: i64) -> Seq<u8> {
    if e <= 255 {
        seq![e as u8]
    } else if e <= 65535 {
        seq![0xcdu8, (e / 256) as u8, (e % 256) as u8]
    } else if double_rounds_up(e as nat) {
        wide_num_pack(exp2(log2_floor(e as nat) + 1))
    } else {
        wide_num_pack(e as nat)
    }
}

pub proof fn lemma_exp2_pos(n: nat)
    ensures
        exp2(n) >= 1,
    decreases n,
{
    if n > 0 {
        lemma_exp2_pos((n - 1) as nat);
    }
}

pub proof fn lemma_exp2_add(a: nat, b: nat)
    ensures
        exp2(a + b) == exp2(a) * exp2(b),
    decreases a,
{
    if a == 0 {
        assert(exp2(0) == 1);
        assert(a + b == b);
    } else {
        let a1 = (a - 1) as nat;
        lemma_exp2_add(a1, b);
        assert(a + b == (a1 + b) + 1);
        assert(exp2(a + b) == 2 * exp2(a1 + b));
        assert(exp2(a) * exp2(b) == 2 * (exp2(a1) * exp2(b))) by (nonlinear_arith)
            requires
                exp2(a) == 2 * exp2(a1),
        ;
    }
}

pub proof fn lemma_exp2_monotone(a: nat, b: nat)
    requires
        a <= b,
    ensures
        exp2(a) <= exp2(b),
    decreases b,
{
    if a < b {
        lemma_exp2_monotone(a, (b - 1) as nat);
        lemma_exp2_pos((b - 1) as nat);
    }
}

pub proof fn lemma_log2_floor_bounds(x: nat)
    requires
        x >= 1,
    ensures
        exp2(log2_floor(x)) <= x < exp2(log2_floor(x) + 1),
    decreases x,
{
    if x >= 2 {
        lemma_log2_floor_bounds(x / 2);
        assert(exp2(log2_floor(x)) == 2 * exp2(log2_floor(x / 2)));
        assert(exp2(log2_floor(x) + 1) == 2 * exp2(log2_floor(x / 2) + 1));
    } else {
        reveal_with_fuel(exp2, 2);
    }
}

pub proof fn lemma_log2_floor_unique(x: nat, m: nat)
    requires
        exp2(m) <= x < exp2(m + 1),
    ensures
        log2_floor(x) == m,
    decreases m,
{
    lemma_exp2_pos(m);
    if m == 0 {
        reveal_with_fuel(exp2, 2);
    } else {
        assert(exp2(m) == 2 * exp2((m - 1) as nat));
        assert(exp2(m + 1) == 2 * exp2(m));
        lemma_log2_floor_unique(x / 2, (m - 1) as nat);
    }
}

pub proof fn lemma_exp2_is_pow2(n: nat)
    ensures
        exp2(n) == pow2(n),
    decreases n,
{
    if n == 0 {
        lemma2_to64();
    } else {
        lemma_exp2_is_pow2((n - 1) as nat);
        lemma_pow2_unfold(n);
    }
}

proof fn lemma_exp2_63_64()
    ensures
        exp2(16) == 0x1_0000,
        exp2(57) == 0x200_0000_0000_0000,
        exp2(58) == 0x400_0000_0000_0000,
        exp2(63) == 0x8000_0000_0000_0000,
        exp2(64) == 0x1_0000_0000_0000_0000,
{
    lemma_exp2_is_pow2(16);
    lemma_exp2_is_pow2(57);
    lemma_exp2_is_pow2(58);
    lemma_exp2_is_pow2(63);
    lemma_exp2_is_pow2(64);
    lemma2_to64();
    lemma2_to64_rest();
}

/// `2^n` for `n <= 63`.
fn exp2_u64(n: u64) -> (res: u64)
    requires
        n <= 63,
    ensures
        res == exp2(n as nat),
{
    let mut res: u64 = 1;
    let mut i: u64 = 0;
    while i < n
        invariant
            i <= n <= 63,
            res == exp2(i as nat),
        decreases n - i,
    {
        proof {
            lemma_exp2_monotone((i + 1) as nat, 63);
            lemma_exp2_63_64();
        }
        res = res * 2;
        i = i + 1;
    }
    res
}

/// `log2_floor(x)`.
fn log2_floor_u64(x: u64) -> (res: u64)
    ensures
        res == log2_floor(x as nat),
        res < 64,
{
    proof {
        if x >= 1 {
            lemma_log2_floor_bounds(x as nat);
            if log2_floor(x as nat) >= 64 {
                lemma_exp2_monotone(64, log2_floor(x as nat));
                lemma_exp2_63_64();
            }
        }
    }
    let mut y = x;
    let mut n: u64 = 0;
    while y >= 2
        invariant
            log2_floor(x as nat) == n + log2_floor(y as nat),
            n + log2_floor(y as nat) < 64,
        decreases y,
    {
        y = y / 2;
        n = n + 1;
    }
    n
}


/// `round_half_even(d, q)`.
fn round_half_even_u64(d: u64, q: u64) -> (res: u64)
    requires
        0 < q <= 0x4000_0000_0000_0000,
        d <= 0x4000_0000_0000_0000,
    ensures
        res == round_half_even(d as nat, q as nat),
        res <= d + q,
{
    let lo = d / q;
    let rem = d % q;
    proof {
        vstd::arithmetic::div_mod::lemma_fundamental_div_mod(d as int, q as int);
        assert(lo * q <= d) by (nonlinear_arith)
            requires
                d == q * lo + rem,
                rem >= 0,
        ;
    }
    if 2 * rem < q || (2 * rem == q && lo % 2 == 0) {
        lo * q
    } else {
        proof {
            assert((lo + 1) * q == lo * q + q) by (nonlinear_arith);
        }
        (lo + 1) * q
    }
}

/// `saturated_scale(r, s)`.
fn saturated_scale_u64(r: u64, s: i64) -> (res: u8)
    requires
        -63 <= s <= 63,
    ensures
        res == saturated_scale(r as nat, s as int),
{
    if s >= 0 {
        if r == 0 {
            proof {
                assert(0 * exp2(s as nat) == 0);
            }
            0
        } else if s >= 8 || r > 255 {
            proof {
                let p = exp2(s as nat);
                lemma_exp2_pos(s as nat);
                if s >= 8 {
                    lemma_exp2_monotone(8, s as nat);
                    reveal_with_fuel(exp2, 9);
                }
                assert(r * p >= 255) by (nonlinear_arith)
                    requires
                        r >= 1,
                        p >= 1,
                        p >= 256 || r > 255,
                ;
            }
            255
        } else {
            let p = exp2_u64(s as u64);
            proof {
                lemma_exp2_monotone(s as nat, 7);
                reveal_with_fuel(exp2, 8);
                assert(r * p <= 255 * 128) by (nonlinear_arith)
                    requires
                        r <= 255,
                        p <= 128,
                ;
            }
            let a = r * p;
            if a >= 255 {
                255
            } else {
                a as u8
            }
        }
    } else {
        let p = exp2_u64((-s) as u64);
        proof {
            lemma_exp2_pos((-s) as nat);
        }
        let a = r / p;
        if a >= 255 {
            255
        } else {
            a as u8
        }
    }
}

/// `mantissa_byte(x, k)`, given `m == log2_floor(x)`.
fn mantissa_byte_u64(x: u64, m: u64, k: u64) -> (res: u8)
    requires
        m == log2_floor(x as nat),
        16 <= m <= 57,
        x <= 0x200_0000_0000_0000,
        k < 6,
    ensures
        res == mantissa_byte(x as nat, k as nat),
{
    proof {
        lemma_log2_floor_bounds(x as nat);
    }
    let p = exp2_u64(m);
    let d = x - p;
    let g = if m + k >= 51 {
        exp2_u64(m + k - 51)
    } else {
        1
    };
    proof {
        if m + k >= 51 {
            lemma_exp2_monotone((m + k - 51) as nat, 11);
            reveal_with_fuel(exp2, 12);
        }
    }
    let r = round_half_even_u64(d, g);
    let sh: i64 = 51 - 9 * (k as i64) - (m as i64);
    saturated_scale_u64(r, sh)
}

/// `wide_num_pack(x)`.
fn wide_num_bytes(x: u64) -> (res: Vec<u8>)
    requires
        0x1_0000 <= x <= 0x200_0000_0000_0000,
    ensures
        res@ == wide_num_pack(x as nat),
{
    let m = log2_floor_u64(x);
    proof {
        lemma_log2_floor_bounds(x as nat);
        lemma_exp2_63_64();
        if m < 16 {
            lemma_exp2_monotone(m as nat + 1, 16);
        }
        if m > 57 {
            lemma_exp2_monotone(58, m as nat);
        }
    }
    let mut lows: Vec<u8> = Vec::new();
    let mut k: u64 = 0;
    while k < 6
        invariant
            k <= 6,
            m == log2_floor(x as nat),
            16 <= m <= 57,
            0x1_0000 <= x <= 0x200_0000_0000_0000,
            lows@.len() == k,
            forall|j: int| 0 <= j < k ==> lows@[j] == mantissa_byte(x as nat, j as nat),
        decreases 6 - k,
    {
        let b = mantissa_byte_u64(x, m, k);
        lows.push(b);
        k = k + 1;
    }
    let f: u64 = (m + 1029) * 16;
    let mut res: Vec<u8> = Vec::new();
    res.push(0xcb);
    res.push((f / 256) as u8);
    res.push((f % 256) as u8);
    res.push(lows[5]);
    res.push(lows[4]);
    res.push(lows[3]);
    res.push(lows[2]);
    res.push(lows[1]);
    res.push(lows[0]);
    assert(res@ =~= wide_num_pack(x as nat));
    res
}


/// The value of the first entry of `es` with key `k`.
pub open spec fn lookup_model(es: Seq<(Seq<char>, PackModel)>, k: Seq<char>) -> Option<PackModel>
    decreases es.len(),
{
    if es.len() == 0 {
        None
    } else if same_key(es[0].0, k) {
        Some(es[0].1)
    } else {
        lookup_model(es.drop_first(), k)
    }
}

/// Byte-wise lexicographic order: `a` is a proper prefix of `b`, or `a` is smaller at the
/// first position where they differ.
pub open spec fn bytes_less(a: Seq<u8>, b: Seq<u8>) -> bool
    decreases a.len(),
{
    if a.len() == 0 {
        b.len() > 0
    } else if b.len() == 0 {
        false
    } else if a[0] != b[0] {
        a[0] < b[0]
    } else {
        bytes_less(a.drop_first(), b.drop_first())
    }
}

/// The order of dictionary keys: byte-wise order of their UTF-8 encodings.
pub open spec fn key_less(a: Seq<char>, b: Seq<char>) -> bool {
    bytes_less(encode_utf8(a), encode_utf8(b))
}

/// Two keys are the same key when their UTF-8 encodings are equal.
pub open spec fn same_key(a: Seq<char>, b: Seq<char>) -> bool {
    encode_utf8(a) == encode_utf8(b)
}

pub proof fn lemma_bytes_less_irreflexive(a: Seq<u8>)
    ensures
        !bytes_less(a, a),
    decreases a.len(),
{
    if a.len() > 0 {
        lemma_bytes_less_irreflexive(a.drop_first());
    }
}

pub proof fn lemma_bytes_less_asymmetric(a: Seq<u8>, b: Seq<u8>)
    requires
        bytes_less(a, b),
    ensures
        !bytes_less(b, a),
        a != b,
    decreases a.len(),
{
    if a.len() > 0 && b.len() > 0 && a[0] == b[0] {
        lemma_bytes_less_asymmetric(a.drop_first(), b.drop_first());
    }
    if a == b {
        lemma_bytes_less_irreflexive(a);
    }
}

pub proof fn lemma_bytes_less_total(a: Seq<u8>, b: Seq<u8>)
    requires
        a != b,
    ensures
        bytes_less(a, b) || bytes_less(b, a),
    decreases a.len(),
{
    if a.len() > 0 && b.len() > 0 && a[0] == b[0] {
        if a.drop_first() == b.drop_first() {
            assert(a =~= seq![a[0]] + a.drop_first());
            assert(b =~= seq![b[0]] + b.drop_first());
        }
        lemma_bytes_less_total(a.drop_first(), b.drop_first());
    } else if a.len() == 0 && b.len() == 0 {
        assert(a =~= b);
    }
}

pub proof fn lemma_bytes_less_transitive(a: Seq<u8>, b: Seq<u8>, c: Seq<u8>)
    requires
        bytes_less(a, b),
        bytes_less(b, c),
    ensures
        bytes_less(a, c),
    decreases a.len(),
{
    if a.len() > 0 && b.len() > 0 && c.len() > 0 && a[0] == b[0] && b[0] == c[0] {
        lemma_bytes_less_transitive(a.drop_first(), b.drop_first(), c.drop_first());
    }
}

/// Whether a dictionary's keys are strictly increasing (so each key occurs once).
pub open spec fn sorted_keys(es: Seq<(Seq<char>, PackModel)>) -> bool {
    forall|i: int, j: int| 0 <= i < j < es.len() ==> key_less(#[trigger] es[i].0, #[trigger] es[j].0)
}

/// What a packed value stands for: a number, a string, a dictionary as the sequence of its
/// entries in key order, or any other value (which packs to nothing).
pub enum PackModel {
    Int(i64),
    Text(Seq<char>),
    Dict(Seq<(Seq<char>, PackModel)>),
    Other,
}

/// A value of a danmaku packet dictionary.
pub enum PackValue {
    Int(i64),
    Text(String),
    Dict(PackMap),
    Other,
}

/// A string-keyed dictionary whose entries are kept in increasing key order with each key
/// once, as a sorted map keeps them.
pub struct PackMap {
    entries: Vec<(String, PackValue)>,
}

/// What `v` stands for.
pub closed spec fn value_model(v: PackValue) -> PackModel
    decreases v,
{
    match v {
        PackValue::Int(n) => PackModel::Int(n),
        PackValue::Text(s) => PackModel::Text(s@),
        PackValue::Dict(m) => PackModel::Dict(entries_model(m.entries@)),
        PackValue::Other => PackModel::Other,
    }
}

/// What the entries `es` stand for.
pub open spec fn entries_model(es: Seq<(String, PackValue)>) -> Seq<(Seq<char>, PackModel)>
    decreases es,
{
    if es.len() == 0 {
        Seq::empty()
    } else {
        entries_model(es.drop_last()).push((es.last().0@, value_model(es.last().1)))
    }
}

/// What each kind of value stands for: a number or a string itself, a dictionary its
/// entries in key order (its view), any other value `Other`.
pub broadcast proof fn lemma_value_model(v: PackValue)
    ensures
        #[trigger] value_model(v) == match v {
            PackValue::Int(n) => PackModel::Int(n),
            PackValue::Text(s) => PackModel::Text(s@),
            PackValue::Dict(m) => PackModel::Dict(m@),
            PackValue::Other => PackModel::Other,
        },
{
}

impl View for PackMap {
    type V = Seq<(Seq<char>, PackModel)>;

    closed spec fn view(&self) -> Seq<(Seq<char>, PackModel)> {
        entries_model(self.entries@)
    }
}

proof fn lemma_entries_model(es: Seq<(String, PackValue)>)
    ensures
        entries_model(es).len() == es.len(),
        forall|j: int|
            0 <= j < es.len() ==> #[trigger] entries_model(es)[j] == (es[j].0@, value_model(es[j].1)),
    decreases es.len(),
{
    if es.len() > 0 {
        lemma_entries_model(es.drop_last());
    }
}

/// The bytes of a packed value.
pub open spec fn model_bytes(v: PackModel) -> Seq<u8>
    decreases v,
{
    match v {
        PackModel::Int(n) => num_pack(n),
        PackModel::Text(s) => text_pack(encode_utf8(s)),
        PackModel::Dict(es) => seq![map_header(es.len())] + entries_bytes(es),
        PackModel::Other => Seq::empty(),
    }
}

/// The bytes of dictionary entries: each key as a string, then its value, in order.
pub open spec fn entries_bytes(es: Seq<(Seq<char>, PackModel)>) -> Seq<u8>
    decreases es,
{
    if es.len() == 0 {
        Seq::empty()
    } else {
        entries_bytes(es.drop_last()) + text_pack(encode_utf8(es.last().0)) + model_bytes(
            es.last().1,
        )
    }
}

/// The bytes of a dictionary: its header byte, then its entries.
pub open spec fn dict_bytes(es: Seq<(Seq<char>, PackModel)>) -> Seq<u8> {
    seq![map_header(es.len())] + entries_bytes(es)
}

/// Law: an encoded dictionary of `n` entries starts with one header byte and then holds
/// its entries: `0x80 + n` (a fixed map) when `n` is below 16, `0xde` from 16 to 65535
/// entries, `0xdf` above.
pub proof fn law_dict_header(es: Seq<(Seq<char>, PackModel)>)
    ensures
        dict_bytes(es).len() == 1 + entries_bytes(es).len(),
        dict_bytes(es).subrange(1, dict_bytes(es).len() as int) == entries_bytes(es),
        es.len() < 16 ==> dict_bytes(es)[0] == 0x80 + es.len(),
        16 <= es.len() <= 65535 ==> dict_bytes(es)[0] == 0xde,
        es.len() > 65535 ==> dict_bytes(es)[0] == 0xdf,
{
    assert(dict_bytes(es).subrange(1, dict_bytes(es).len() as int) =~= entries_bytes(es));
}

/// Whether every number in `v`, at any depth, is one the encoder accepts.
pub open spec fn model_packable(v: PackModel) -> bool
    decreases v,
{
    match v {
        PackModel::Int(n) => num_packable(n),
        PackModel::Dict(es) => entries_packable(es),
        _ => true,
    }
}

/// Whether every value of `es` is packable.
pub open spec fn entries_packable(es: Seq<(Seq<char>, PackModel)>) -> bool
    decreases es,
{
    if es.len() == 0 {
        true
    } else {
        entries_packable(es.drop_last()) && model_packable(es.last().1)
    }
}

/// The entries after `k` is set to `v`: an entry with the same key keeps its key and takes
/// the value `v`; otherwise `(k, v)` is placed before the first greater key.
pub open spec fn insert_model(es: Seq<(Seq<char>, PackModel)>, k: Seq<char>, v: PackModel) -> Seq<
    (Seq<char>, PackModel),
>
    decreases es.len(),
{
    if es.len() == 0 {
        seq![(k, v)]
    } else if key_less(es[0].0, k) {
        seq![es[0]] + insert_model(es.drop_first(), k, v)
    } else if same_key(es[0].0, k) {
        seq![(es[0].0, v)] + es.drop_first()
    } else {
        seq![(k, v)] + es
    }
}

/// Law: after `k` is set to `v`, looking `k` up gives `v`, and looking up any other key
/// gives what it gave before.
pub proof fn law_insert_then_lookup(
    es: Seq<(Seq<char>, PackModel)>,
    k: Seq<char>,
    v: PackModel,
    k2: Seq<char>,
)
    ensures
        lookup_model(insert_model(es, k, v), k) == Some(v),
        !same_key(k2, k) ==> lookup_model(insert_model(es, k, v), k2) == lookup_model(es, k2),
    decreases es.len(),
{
    let r = insert_model(es, k, v);
    if es.len() > 0 {
        if key_less(es[0].0, k) {
            lemma_bytes_less_asymmetric(encode_utf8(es[0].0), encode_utf8(k));
            law_insert_then_lookup(es.drop_first(), k, v, k2);
            assert(r.drop_first() =~= insert_model(es.drop_first(), k, v));
            assert(r[0] == es[0]);
            assert(lookup_model(r, k) == lookup_model(r.drop_first(), k));
            if !same_key(k2, k) && !same_key(es[0].0, k2) {
                assert(lookup_model(r, k2) == lookup_model(r.drop_first(), k2));
                assert(lookup_model(es, k2) == lookup_model(es.drop_first(), k2));
            }
        } else if same_key(es[0].0, k) {
            assert(r.drop_first() =~= es.drop_first());
            assert(r[0] == (es[0].0, v));
            if !same_key(k2, k) {
                assert(!same_key(es[0].0, k2));
                assert(lookup_model(r, k2) == lookup_model(r.drop_first(), k2));
                assert(lookup_model(es, k2) == lookup_model(es.drop_first(), k2));
            }
        } else {
            assert(r.drop_first() =~= es);
            assert(r[0] == (k, v));
            if !same_key(k2, k) {
                assert(!same_key(k, k2));
                assert(lookup_model(r, k2) == lookup_model(r.drop_first(), k2));
            }
        }
    } else {
        assert(r.drop_first() =~= Seq::<(Seq<char>, PackModel)>::empty());
        assert(r[0] == (k, v));
        if !same_key(k2, k) {
            assert(!same_key(k, k2));
            assert(lookup_model(r, k2) == lookup_model(r.drop_first(), k2));
        }
    }
}

proof fn lemma_insert_model_skip(
    es: Seq<(Seq<char>, PackModel)>,
    k: Seq<char>,
    v: PackModel,
    i: int,
)
    requires
        0 <= i <= es.len(),
        forall|j: int| 0 <= j < i ==> key_less(#[trigger] es[j].0, k),
    ensures
        insert_model(es, k, v) == es.take(i) + insert_model(es.skip(i), k, v),
    decreases i,
{
    if i > 0 {
        let t = es.drop_first();
        assert forall|j: int| 0 <= j < i - 1 implies key_less(#[trigger] t[j].0, k) by {
            assert(t[j] == es[j + 1]);
        }
        lemma_insert_model_skip(t, k, v, i - 1);
        assert(t.skip(i - 1) =~= es.skip(i));
        assert(es.take(i) =~= seq![es[0]] + t.take(i - 1));
    } else {
        assert(es.skip(0) =~= es);
        assert(es.take(0) =~= Seq::<(Seq<char>, PackModel)>::empty());
    }
}

/// `bytes_less(a, b)`.
fn bytes_lt(a: &[u8], b: &[u8]) -> (res: bool)
    ensures
        res == bytes_less(a@, b@),
{
    let mut i: usize = 0;
    assert(a@.skip(0) =~= a@);
    assert(b@.skip(0) =~= b@);
    while i < a.len() && i < b.len() && a[i] == b[i]
        invariant
            i <= a@.len(),
            i <= b@.len(),
            bytes_less(a@, b@) == bytes_less(a@.skip(i as int), b@.skip(i as int)),
        decreases a.len() - i,
    {
        assert(a@.skip(i as int).drop_first() =~= a@.skip(i + 1));
        assert(b@.skip(i as int).drop_first() =~= b@.skip(i + 1));
        i = i + 1;
    }
    if i < a.len() && i < b.len() {
        a[i] < b[i]
    } else {
        i < b.len() && i == a.len()
    }
}

/// Whether `a@ == b@`.
fn bytes_eq(a: &[u8], b: &[u8]) -> (res: bool)
    ensures
        res == (a@ == b@),
{
    if a.len() != b.len() {
        return false;
    }
    let mut i: usize = 0;
    while i < a.len()
        invariant
            a@.len() == b@.len(),
            i <= a@.len(),
            forall|j: int| 0 <= j < i ==> a@[j] == b@[j],
        decreases a.len() - i,
    {
        if a[i] != b[i] {
            return false;
        }
        i = i + 1;
    }
    assert(a@ =~= b@);
    true
}

impl PackMap {
    /// Whether the entries are in strictly increasing key order.
    pub open spec fn wf(&self) -> bool {
        sorted_keys(self@)
    }

    /// The empty dictionary.
    pub fn new() -> (res: Self)
        ensures
            res@ == Seq::<(Seq<char>, PackModel)>::empty(),
            res.wf(),
    {
        let res = PackMap { entries: Vec::new() };
        assert(res@ =~= Seq::<(Seq<char>, PackModel)>::empty());
        res
    }

    /// The number of entries.
    pub fn len(&self) -> (res: usize)
        ensures
            res == self@.len(),
    {
        proof {
            lemma_entries_model(self.entries@);
        }
        self.entries.len()
    }

    /// Sets `key` to `value`, keeping the entries sorted (see `insert_model`).
    pub fn insert(&mut self, key: String, value: PackValue)
        requires
            old(self).wf(),
        ensures
            final(self).wf(),
            final(self)@ == insert_model(old(self)@, key@, value_model(value)),
    {
        let ghost es = self@;
        let ghost k = key@;
        let ghost v = value_model(value);
        proof {
            lemma_entries_model(self.entries@);
        }
        let n = self.entries.len();
        let mut i: usize = 0;
        while i < n && bytes_lt(self.entries[i].0.as_str().as_bytes(), key.as_str().as_bytes())
            invariant
                i <= n == self.entries@.len() == es.len(),
                es == entries_model(self.entries@),
                forall|j: int|
                    0 <= j < es.len() ==> #[trigger] es[j] == (
                        self.entries@[j].0@,
                        value_model(self.entries@[j].1),
                    ),
                key@ == k,
                forall|j: int| 0 <= j < i ==> key_less(#[trigger] es[j].0, k),
            decreases n - i,
        {
            i = i + 1;
        }
        proof {
            lemma_insert_model_skip(es, k, v, i as int);
        }
        if i < n && bytes_eq(self.entries[i].0.as_str().as_bytes(), key.as_str().as_bytes()) {
            let (old_key, _old_value) = self.entries.remove(i);
            self.entries.insert(i, (old_key, value));
            proof {
                lemma_entries_model(self.entries@);
                let t = es.skip(i as int);
                assert(t[0] == es[i as int]);
                assert(t.drop_first() =~= es.skip(i + 1));
                assert(self@ =~= insert_model(es, k, v));
                assert forall|a: int, b: int| 0 <= a < b < self@.len() implies key_less(
                    #[trigger] self@[a].0,
                    #[trigger] self@[b].0,
                ) by {
                    assert(self@[a].0 == es[a].0);
                    assert(self@[b].0 == es[b].0);
                }
            }
        } else {
            self.entries.insert(i, (key, value));
            proof {
                lemma_entries_model(self.entries@);
                let t = es.skip(i as int);
                if i < n {
                    assert(t[0] == es[i as int]);
                    assert(!key_less(es[i as int].0, k));
                    assert(!same_key(es[i as int].0, k));
                    lemma_bytes_less_total(encode_utf8(es[i as int].0), encode_utf8(k));
                }
                assert(self@ =~= insert_model(es, k, v));
                assert forall|a: int, b: int| 0 <= a < b < self@.len() implies key_less(
                    #[trigger] self@[a].0,
                    #[trigger] self@[b].0,
                ) by {
                    if a < i && b < i {
                        assert(self@[a].0 == es[a].0);
                        assert(self@[b].0 == es[b].0);
                    } else if a < i && b == i {
                        assert(self@[a].0 == es[a].0);
                    } else if a < i && b > i {
                        assert(self@[a].0 == es[a].0);
                        assert(self@[b].0 == es[b - 1].0);
                    } else if a == i {
                        assert(self@[b].0 == es[b - 1].0);
                        if b - 1 > i {
                            assert(key_less(es[i as int].0, es[b - 1].0));
                            lemma_bytes_less_transitive(
                                encode_utf8(k),
                                encode_utf8(es[i as int].0),
                                encode_utf8(es[b - 1].0),
                            );
                        }
                    } else {
                        assert(self@[a].0 == es[a - 1].0);
                        assert(self@[b].0 == es[b - 1].0);
                    }
                }
            }
        }
    }
}

proof fn lemma_entries_packable(es: Seq<(Seq<char>, PackModel)>, i: int)
    requires
        entries_packable(es),
        0 <= i < es.len(),
    ensures
        model_packable(es[i].1),
    decreases es.len(),
{
    if i < es.len() - 1 {
        lemma_entries_packable(es.drop_last(), i);
    }
}

proof fn lemma_entries_bytes_step(es: Seq<(Seq<char>, PackModel)>, i: int)
    requires
        0 <= i < es.len(),
    ensures
        entries_bytes(es.take(i + 1)) == entries_bytes(es.take(i)) + text_pack(
            encode_utf8(es[i].0),
        ) + model_bytes(es[i].1),
{
    assert(es.take(i + 1).drop_last() =~= es.take(i));
}

pub proof fn lemma_insert_model_packable(es: Seq<(Seq<char>, PackModel)>, k: Seq<char>, v: PackModel)
    requires
        entries_packable(es),
        model_packable(v),
    ensures
        entries_packable(insert_model(es, k, v)),
    decreases es.len(),
{
    let r = insert_model(es, k, v);
    if es.len() > 0 {
        let t = es.drop_first();
        assert forall|i: int| 0 <= i < t.len() implies model_packable(#[trigger] t[i].1) by {
            lemma_entries_packable(es, i + 1);
        }
        lemma_entries_packable_from_all(t);
        lemma_insert_model_packable(t, k, v);
    }
    assert forall|i: int| 0 <= i < r.len() implies model_packable(#[trigger] r[i].1) by {
        if es.len() > 0 && key_less(es[0].0, k) {
            if i == 0 {
                lemma_entries_packable(es, 0);
            } else {
                lemma_entries_packable(insert_model(es.drop_first(), k, v), i - 1);
            }
        } else if es.len() > 0 && same_key(es[0].0, k) {
            if i > 0 {
                lemma_entries_packable(es, i);
            }
        } else if i > 0 {
            lemma_entries_packable(es, i - 1);
        }
    }
    lemma_entries_packable_from_all(r);
}

proof fn lemma_entries_packable_from_all(es: Seq<(Seq<char>, PackModel)>)
    requires
        forall|i: int| 0 <= i < es.len() ==> model_packable(#[trigger] es[i].1),
    ensures
        entries_packable(es),
    decreases es.len(),
{
    if es.len() > 0 {
        let t = es.drop_last();
        assert forall|i: int| 0 <= i < t.len() implies model_packable(#[trigger] t[i].1) by {
            assert(t[i] == es[i]);
        }
        lemma_entries_packable_from_all(t);
    }
}

/// The largest clock reading, in seconds since the Unix epoch, whose millisecond count
/// the number encoder accepts.
pub const MAX_REG_SECS: u64 = 144_115_188_075_855;

/// The user-agent string sent in the registration packet.
pub open spec fn reg_user_agent() -> Seq<char> {
    "Mozilla/5.0 (Linux; Android 5.0; SM-G900P Build/LRX21T) AppleWebKit/537.36 (KHTML, like Gecko) Chrome/72.0.3626.121 Mobile Safari/538.36"@
}

/// The device id sent (as both `macAdd` and `device_token`) in the registration packet.
pub open spec fn reg_device_id() -> Seq<char> {
    "776ffa9d-b14d-49e0-adec-3b4b94cdc5b9"@ + "@web.cc.163.com"@
}

/// The client description nested in the registration packet.
pub open spec fn reg_client_info() -> Seq<(Seq<char>, PackModel)> {
    let m = insert_model(Seq::empty(), "22"@, PackModel::Int(640));
    let m = insert_model(m, "23"@, PackModel::Int(360));
    let m = insert_model(m, "24"@, PackModel::Text("web"@));
    let m = insert_model(m, "25"@, PackModel::Text("Linux"@));
    let m = insert_model(m, "29"@, PackModel::Text("163_cc"@));
    let m = insert_model(m, "30"@, PackModel::Text(""@));
    insert_model(m, "31"@, PackModel::Text(reg_user_agent()))
}

/// The registration dictionary for a clock reading of `ms` milliseconds.
pub open spec fn reg_dict(ms: i64) -> Seq<(Seq<char>, PackModel)> {
    let m = insert_model(Seq::empty(), "web-cc"@, PackModel::Int(ms));
    let m = insert_model(m, "macAdd"@, PackModel::Text(reg_device_id()));
    let m = insert_model(m, "device_token"@, PackModel::Text(reg_device_id()));
    let m = insert_model(m, "page_uuid"@, PackModel::Text("1268abe2-ff5c-4920-a775-acec9db304cd"@));
    let m = insert_model(m, "update_req_info"@, PackModel::Dict(reg_client_info()));
    let m = insert_model(m, "system"@, PackModel::Text("win"@));
    let m = insert_model(m, "memory"@, PackModel::Int(1));
    let m = insert_model(m, "version"@, PackModel::Int(1));
    insert_model(m, "webccType"@, PackModel::Int(4253))
}

/// The registration packet for a clock reading of `secs` seconds.
pub open spec fn reg_bytes(secs: u64) -> Seq<u8> {
    frame_header(6144, 2) + dict_bytes(reg_dict((secs * 1000) as i64))
}

/// The join dictionary.
pub open spec fn join_dict(cid: u32, gametype: u32, roomid: u32) -> Seq<(Seq<char>, PackModel)> {
    let m = insert_model(Seq::empty(), "cid"@, PackModel::Int(cid as i64));
    let m = insert_model(m, "gametype"@, PackModel::Int(gametype as i64));
    insert_model(m, "roomId"@, PackModel::Int(roomid as i64))
}

/// `frame_header(sid, cid)`.
fn frame(sid: u16, cid: u16) -> (res: Vec<u8>)
    ensures
        res@ == frame_header(sid, cid),
{
    let mut v: Vec<u8> = Vec::new();
    v.push((sid % 256) as u8);
    v.push((sid / 256) as u8);
    v.push((cid % 256) as u8);
    v.push((cid / 256) as u8);
    v.push(0);
    v.push(0);
    v.push(0);
    v.push(0);
    assert(v@ =~= frame_header(sid, cid));
    v
}

/// Seconds since the Unix epoch by the system clock, 0 when the clock is before it.
#[verifier::external_body]
fn unix_time_secs() -> u64 {
    match std::time::SystemTime::now().duration_since(std::time::SystemTime::UNIX_EPOCH) {
        Ok(t) => t.as_secs(),
        Err(_) => 0,
    }
}

/// The field `field` of anchor `rid` in the anchor-lookup reply `reply`, as JSON text.
pub open spec fn anchor_field(reply: Seq<u8>, rid: Seq<char>, field: Seq<char>) -> Option<Seq<char>> {
    json_text(reply, "/data/"@ + rid + field)
}

/// Whether the reply holds all three room fields of anchor `rid`.
pub open spec fn anchor_complete(reply: Seq<u8>, rid: Seq<char>) -> bool {
    &&& anchor_field(reply, rid, "/channel_id"@) is Some
    &&& anchor_field(reply, rid, "/room_id"@) is Some
    &&& anchor_field(reply, rid, "/gametype"@) is Some
}

/// How reading the reply changes the client from `pre` to `post`: the channel id, room id
/// and game type are recorded in this order, each only while none before it was missing;
/// the endpoint stays.
pub open spec fn anchor_recorded(pre: CC, post: CC, reply: Seq<u8>, rid: Seq<char>) -> bool {
    let ch = anchor_field(reply, rid, "/channel_id"@);
    let rm = anchor_field(reply, rid, "/room_id"@);
    let gt = anchor_field(reply, rid, "/gametype"@);
    &&& post.api_spec() == pre.api_spec()
    &&& post.channel_id_spec() == match ch {
        Some(c) => c,
        None => pre.channel_id_spec(),
    }
    &&& post.room_id_spec() == match (ch, rm) {
        (Some(_), Some(r)) => r,
        _ => pre.room_id_spec(),
    }
    &&& post.gametype_spec() == match (ch, rm, gt) {
        (Some(_), Some(_), Some(g)) => g,
        _ => pre.gametype_spec(),
    }
}

/// What the registration step answers for a clock reading of `now_secs` seconds: the
/// registration packet for that reading, or `None` when it is more than `MAX_REG_SECS`.
pub open spec fn reg_outcome(res: Option<Vec<u8>>, now_secs: u64) -> bool {
    &&& (res is Some <==> now_secs <= MAX_REG_SECS)
    &&& (res matches Some(p) ==> p@ == reg_bytes(now_secs))
}

/// What reading an anchor reply answers for a clock reading of `now_secs` seconds: "done"
/// and the registration packet for that reading when the reply was `complete` and the
/// reading is at most `MAX_REG_SECS`; `None` otherwise.
pub open spec fn anchor_outcome(res: Option<(String, Vec<u8>)>, complete: bool, now_secs: u64) -> bool {
    &&& (res is Some <==> complete && now_secs <= MAX_REG_SECS)
    &&& (res matches Some((d, p)) ==> d@ == "done"@ && p@ == reg_bytes(now_secs))
}

/// Client state for the CC danmaku service.
pub struct CC {
    api1: String,
    channel_id: String,
    room_id: String,
    gametype: String,
}

impl CC {
    /// The anchor-lookup endpoint.
    pub closed spec fn api_spec(&self) -> Seq<char> {
        self.api1@
    }

    /// The channel id learnt from the anchor lookup (empty before it).
    pub closed spec fn channel_id_spec(&self) -> Seq<char> {
        self.channel_id@
    }

    /// The room id learnt from the anchor lookup (empty before it).
    pub closed spec fn room_id_spec(&self) -> Seq<char> {
        self.room_id@
    }

    /// The game type learnt from the anchor lookup (empty before it).
    pub closed spec fn gametype_spec(&self) -> Seq<char> {
        self.gametype@
    }

    /// A client with the anchor-lookup endpoint and no room information yet.
    pub fn new() -> (res: Self)
        ensures
            res.api_spec() == "https://api.cc.163.com/v1/activitylives/anchor/lives"@,
            res.channel_id_spec() == Seq::<char>::empty(),
            res.room_id_spec() == Seq::<char>::empty(),
            res.gametype_spec() == Seq::<char>::empty(),
    {
        CC {
            api1: "https://api.cc.163.com/v1/activitylives/anchor/lives".to_owned(),
            channel_id: String::new(),
            room_id: String::new(),
            gametype: String::new(),
        }
    }

    /// The anchor-lookup endpoint.
    pub fn api1(&self) -> (res: &str)
        ensures
            res@ == self.api_spec(),
    {
        self.api1.as_str()
    }

    /// The channel id learnt from the anchor lookup.
    pub fn channel_id(&self) -> (res: &str)
        ensures
            res@ == self.channel_id_spec(),
    {
        self.channel_id.as_str()
    }

    /// The room id learnt from the anchor lookup.
    pub fn room_id(&self) -> (res: &str)
        ensures
            res@ == self.room_id_spec(),
    {
        self.room_id.as_str()
    }

    /// The game type learnt from the anchor lookup.
    pub fn gametype(&self) -> (res: &str)
        ensures
            res@ == self.gametype_spec(),
    {
        self.gametype.as_str()
    }

    /// The anchor id of a room address: the last segment of its path; `None` when the
    /// address is not a URL with a path.
    pub fn anchor_id(url: &str) -> (res: Option<String>)
        ensures
            match res {
                Some(r) => url_last_segment(url@) == Some(r@),
                None => url_last_segment(url@) is None,
            },
    {
        url_path_last_segment(url)
    }

    /// The query of the anchor lookup for anchor `rid`.
    pub fn anchor_query(rid: &str) -> (res: Vec<(String, String)>)
        ensures
            params_view(res@) == seq![("anchor_ccid"@, rid@)],
    {
        let mut ps: Vec<(String, String)> = Vec::new();
        ps.push(param("anchor_ccid", rid));
        assert(params_view(ps@) =~= seq![("anchor_ccid"@, rid@)]);
        ps
    }

    /// Where the room information of anchor `rid` stands in the anchor-lookup reply.
    pub fn anchor_pointer(rid: &str) -> (res: String)
        ensures
            res@ == "/data/"@ + rid@,
    {
        let mut p = "/data/".to_owned();
        p.append(rid);
        p
    }

    /// Reads the room information of anchor `rid` from the anchor-lookup reply `reply` (see
    /// `anchor_recorded`); with all three fields the answer is "done" and the registration
    /// packet for a clock reading of `now_secs` seconds (see `reg_at`).
    pub fn accept_anchor_reply_at(&mut self, reply: &[u8], rid: &str, now_secs: u64) -> (res:
        Option<(String, Vec<u8>)>)
        ensures
            final(self).api_spec() == old(self).api_spec(),
            anchor_recorded(*old(self), *final(self), reply@, rid@),
            anchor_outcome(res, anchor_complete(reply@, rid@), now_secs),
    {
        let base = Self::anchor_pointer(rid);
        match json_text_at(reply, join_str(base.as_str(), "/channel_id").as_str()) {
            Some(c) => {
                self.channel_id = c;
            },
            None => return None,
        }
        match json_text_at(reply, join_str(base.as_str(), "/room_id").as_str()) {
            Some(r) => {
                self.room_id = r;
            },
            None => return None,
        }
        match json_text_at(reply, join_str(base.as_str(), "/gametype").as_str()) {
            Some(g) => {
                self.gametype = g;
            },
            None => return None,
        }
        match self.reg_at(now_secs) {
            Some(reg_data) => Some(("done".to_owned(), reg_data)),
            None => None,
        }
    }

    /// `accept_anchor_reply_at` at the current clock reading: for the reading `t` taken,
    /// the answer is "done" and the registration packet for `t` exactly when the reply has
    /// all three fields and `t` is at most `MAX_REG_SECS`.
    pub fn accept_anchor_reply(&mut self, reply: &[u8], rid: &str) -> (res: Option<(String, Vec<u8>)>)
        ensures
            final(self).api_spec() == old(self).api_spec(),
            anchor_recorded(*old(self), *final(self), reply@, rid@),
            exists|t: u64| #[trigger] anchor_outcome(res, anchor_complete(reply@, rid@), t),
    {
        let now = unix_time_secs();
        self.accept_anchor_reply_at(reply, rid, now)
    }

    /// The registration packet for a clock reading of `now_secs` seconds since the epoch;
    /// `None` when the reading is more than `MAX_REG_SECS` seconds.
    pub fn reg_at(&self, now_secs: u64) -> (res: Option<Vec<u8>>)
        ensures
            reg_outcome(res, now_secs),
    {
        if now_secs <= MAX_REG_SECS {
            Some(self.reg_packet(now_secs))
        } else {
            None
        }
    }

    /// The registration packet for a clock reading of `now_secs` seconds since the epoch:
    /// frame (6144, 2) and the registration dictionary.
    pub fn reg_packet(&self, now_secs: u64) -> (res: Vec<u8>)
        requires
            now_secs <= MAX_REG_SECS,
        ensures
            res@ == reg_bytes(now_secs),
    {
        let mut info = PackMap::new();
        info.insert("22".to_owned(), PackValue::Int(640));
        info.insert("23".to_owned(), PackValue::Int(360));
        info.insert("24".to_owned(), PackValue::Text("web".to_owned()));
        info.insert("25".to_owned(), PackValue::Text("Linux".to_owned()));
        info.insert("29".to_owned(), PackValue::Text("163_cc".to_owned()));
        info.insert("30".to_owned(), PackValue::Text("".to_owned()));
        info.insert(
            "31".to_owned(),
            PackValue::Text(
                "Mozilla/5.0 (Linux; Android 5.0; SM-G900P Build/LRX21T) AppleWebKit/537.36 (KHTML, like Gecko) Chrome/72.0.3626.121 Mobile Safari/538.36".to_owned(),
            ),
        );
        let mac_add = crate::text::join_str("776ffa9d-b14d-49e0-adec-3b4b94cdc5b9", "@web.cc.163.com");
        let device_token = mac_add.clone();
        let n = now_secs * 1000;
        let mut data = PackMap::new();
        data.insert("web-cc".to_owned(), PackValue::Int(n as i64));
        data.insert("macAdd".to_owned(), PackValue::Text(mac_add));
        data.insert("device_token".to_owned(), PackValue::Text(device_token));
        data.insert(
            "page_uuid".to_owned(),
            PackValue::Text("1268abe2-ff5c-4920-a775-acec9db304cd".to_owned()),
        );
        data.insert("update_req_info".to_owned(), PackValue::Dict(info));
        data.insert("system".to_owned(), PackValue::Text("win".to_owned()));
        data.insert("memory".to_owned(), PackValue::Int(1));
        data.insert("version".to_owned(), PackValue::Int(1));
        data.insert("webccType".to_owned(), PackValue::Int(4253));
        proof {
            let m0 = Seq::<(Seq<char>, PackModel)>::empty();
            let t = Seq::<(Seq<char>, PackModel)>::empty();
            lemma_entries_packable_from_all(m0);
            let m1 = insert_model(m0, "22"@, PackModel::Int(640));
            lemma_insert_model_packable(m0, "22"@, PackModel::Int(640));
            let m2 = insert_model(m1, "23"@, PackModel::Int(360));
            lemma_insert_model_packable(m1, "23"@, PackModel::Int(360));
            let m3 = insert_model(m2, "24"@, PackModel::Text("web"@));
            lemma_insert_model_packable(m2, "24"@, PackModel::Text("web"@));
            let m4 = insert_model(m3, "25"@, PackModel::Text("Linux"@));
            lemma_insert_model_packable(m3, "25"@, PackModel::Text("Linux"@));
            let m5 = insert_model(m4, "29"@, PackModel::Text("163_cc"@));
            lemma_insert_model_packable(m4, "29"@, PackModel::Text("163_cc"@));
            let m6 = insert_model(m5, "30"@, PackModel::Text(""@));
            lemma_insert_model_packable(m5, "30"@, PackModel::Text(""@));
            lemma_insert_model_packable(m6, "31"@, PackModel::Text(reg_user_agent()));
            let ms = PackModel::Int((now_secs * 1000) as i64);
            let d1 = insert_model(t, "web-cc"@, ms);
            lemma_insert_model_packable(t, "web-cc"@, ms);
            let d2 = insert_model(d1, "macAdd"@, PackModel::Text(reg_device_id()));
            lemma_insert_model_packable(d1, "macAdd"@, PackModel::Text(reg_device_id()));
            let d3 = insert_model(d2, "device_token"@, PackModel::Text(reg_device_id()));
            lemma_insert_model_packable(d2, "device_token"@, PackModel::Text(reg_device_id()));
            let pu = PackModel::Text("1268abe2-ff5c-4920-a775-acec9db304cd"@);
            let d4 = insert_model(d3, "page_uuid"@, pu);
            lemma_insert_model_packable(d3, "page_uuid"@, pu);
            let ri = PackModel::Dict(reg_client_info());
            let d5 = insert_model(d4, "update_req_info"@, ri);
            lemma_insert_model_packable(d4, "update_req_info"@, ri);
            let d6 = insert_model(d5, "system"@, PackModel::Text("win"@));
            lemma_insert_model_packable(d5, "system"@, PackModel::Text("win"@));
            let d7 = insert_model(d6, "memory"@, PackModel::Int(1));
            lemma_insert_model_packable(d6, "memory"@, PackModel::Int(1));
            let d8 = insert_model(d7, "version"@, PackModel::Int(1));
            lemma_insert_model_packable(d7, "version"@, PackModel::Int(1));
            lemma_insert_model_packable(d8, "webccType"@, PackModel::Int(4253));
            assert(data@ == reg_dict((now_secs * 1000) as i64));
        }
        let mut reg_data = frame(6144, 2);
        let mut body = self.encode_dict(&data);
        reg_data.append(&mut body);
        reg_data
    }

    /// The registration packet at the current clock reading (see `reg_at`): for the reading
    /// `t` taken, the packet for `t`, or `None` when `t` is more than `MAX_REG_SECS`.
    pub fn get_reg(&self) -> (res: Option<Vec<u8>>)
        ensures
            exists|t: u64| #[trigger] reg_outcome(res, t),
    {
        let n = unix_time_secs();
        self.reg_at(n)
    }

    /// The heartbeat packet: frame (6144, 5) and an empty dictionary.
    pub fn get_beat(&self) -> (res: Vec<u8>)
        ensures
            res@ == frame_header(6144, 5) + dict_bytes(Seq::empty()),
    {
        let data = PackMap::new();
        proof {
            lemma_entries_packable_from_all(data@);
        }
        let mut beat_data = frame(6144, 5);
        let mut body = self.encode_dict(&data);
        beat_data.append(&mut body);
        beat_data
    }

    /// The packet that joins a room: frame (512, 1) and the dictionary of `cid`,
    /// `gametype` and `roomId`.
    pub fn get_join(&self, data_cid: u32, data_gametype: u32, data_roomid: u32) -> (res: Vec<u8>)
        ensures
            res@ == frame_header(512, 1) + dict_bytes(join_dict(data_cid, data_gametype, data_roomid)),
    {
        let mut data = PackMap::new();
        data.insert("cid".to_owned(), PackValue::Int(data_cid as i64));
        data.insert("gametype".to_owned(), PackValue::Int(data_gametype as i64));
        data.insert("roomId".to_owned(), PackValue::Int(data_roomid as i64));
        proof {
            let m0 = Seq::<(Seq<char>, PackModel)>::empty();
            lemma_entries_packable_from_all(m0);
            let a = PackModel::Int(data_cid as i64);
            let b = PackModel::Int(data_gametype as i64);
            let c = PackModel::Int(data_roomid as i64);
            lemma_insert_model_packable(m0, "cid"@, a);
            let m1 = insert_model(m0, "cid"@, a);
            lemma_insert_model_packable(m1, "gametype"@, b);
            let m2 = insert_model(m1, "gametype"@, b);
            lemma_insert_model_packable(m2, "roomId"@, c);
        }
        let mut join_data = frame(512, 1);
        let mut body = self.encode_dict(&data);
        join_data.append(&mut body);
        join_data
    }

    /// Kept for the protocol's message formatter; it does nothing.
    fn r(t: u32, fmt: String) {
    }

    /// Encodes a number (see `num_pack`).
    pub fn encode_num(&self, e: i64) -> (res: Vec<u8>)
        requires
            num_packable(e),
        ensures
            res@ == num_pack(e),
    {
        if e <= 255 {
            let mut t: Vec<u8> = Vec::new();
            t.push(#[verifier::truncate] (e as u8));
            return t;
        }
        if e <= 65535 {
            let mut b: Vec<u8> = Vec::new();
            b.push(0xcd);
            b.push((e / 256) as u8);
            b.push((e % 256) as u8);
            assert(b@ =~= num_pack(e));
            return b;
        }
        let x0 = e as u64;
        let m0 = log2_floor_u64(x0);
        proof {
            lemma_log2_floor_bounds(x0 as nat);
            lemma_exp2_63_64();
            if m0 < 16 {
                lemma_exp2_monotone(m0 as nat + 1, 16);
            }
            if m0 > 56 {
                lemma_exp2_monotone(57, m0 as nat);
            }
        }
        let p0 = exp2_u64(m0);
        proof {
            if m0 >= 53 {
                lemma_exp2_monotone((m0 - 52) as nat, 4);
                lemma_exp2_pos((m0 - 52) as nat);
                reveal_with_fuel(exp2, 5);
            }
        }
        let x = if m0 >= 53 && round_half_even_u64(x0 - p0, exp2_u64(m0 - 52)) == p0 {
            proof {
                assert(exp2(m0 as nat + 1) == 2 * exp2(m0 as nat));
            }
            2 * p0
        } else {
            x0
        };
        proof {
            if x != x0 {
                lemma_exp2_monotone(m0 as nat + 1, 57);
            }
        }
        wide_num_bytes(x)
    }

    /// Encodes a dictionary: its header byte (see `map_header`), then each key as a string
    /// followed by its value, in key order; values other than numbers, strings and
    /// dictionaries add no bytes.
    pub fn encode_dict(&self, d: &PackMap) -> (res: Vec<u8>)
        requires
            entries_packable(d@),
        ensures
            res@ == dict_bytes(d@),
        decreases d,
    {
        proof {
            lemma_entries_model(d.entries@);
        }
        let n = d.entries.len();
        let r: usize = if n < 16 {
            128 + n
        } else if n <= 65535 {
            222
        } else {
            223
        };
        let mut t: Vec<u8> = Vec::new();
        t.push(r as u8);
        assert(d@.take(0) =~= Seq::<(Seq<char>, PackModel)>::empty());
        let mut i: usize = 0;
        while i < n
            invariant
                i <= n == d.entries@.len() == d@.len(),
                entries_packable(d@),
                forall|j: int|
                    0 <= j < d@.len() ==> #[trigger] d@[j] == (
                        d.entries@[j].0@,
                        value_model(d.entries@[j].1),
                    ),
                t@ == seq![map_header(n as nat)] + entries_bytes(d@.take(i as int)),
            decreases n - i,
        {
            let key = &d.entries[i].0;
            let value = &d.entries[i].1;
            proof {
                lemma_entries_bytes_step(d@, i as int);
                lemma_entries_packable(d@, i as int);
            }
            let mut kb = self.encode_str(key.as_str());
            t.append(&mut kb);
            match value {
                PackValue::Int(x) => {
                    let mut vb = self.encode_num(*x);
                    t.append(&mut vb);
                },
                PackValue::Text(s) => {
                    let mut vb = self.encode_str(s.as_str());
                    t.append(&mut vb);
                },
                PackValue::Dict(m) => {
                    proof {
                        assert(decreases_to!(d.entries => d.entries@));
                        assert(decreases_to!(d.entries@ => d.entries@[i as int]));
                        assert(decreases_to!(*d => *m));
                    }
                    let mut vb = self.encode_dict(m);
                    t.append(&mut vb);
                },
                PackValue::Other => {},
            }
            assert(t@ =~= seq![map_header(n as nat)] + entries_bytes(d@.take(i + 1)));
            i = i + 1;
        }
        assert(d@.take(n as int) =~= d@);
        t
    }

    /// Encodes a string: its header (see `text_header`) and its UTF-8 bytes.
    pub fn encode_str(&self, r: &str) -> (res: Vec<u8>)
        ensures
            res@ == text_pack(encode_utf8(r@)),
    {
        let bytes = r.as_bytes();
        let n = bytes.len();
        let mut e: Vec<u8> = Vec::new();
        if n < 32 {
            e.push((160 + n) as u8);
        } else if n <= 255 {
            e.push(217);
            e.push(n as u8);
        } else if n <= 65535 {
            e.push(218);
            e.push((n % 256) as u8);
        } else {
            e.push(219);
            e.push((n % 256) as u8);
        }
        let ghost head = e@;
        assert(head =~= text_header(bytes@.len()));
        let mut i: usize = 0;
        while i < n
            invariant
                i <= n == bytes@.len(),
                bytes@ == encode_utf8(r@),
                e@ == head + bytes@.subrange(0, i as int),
            decreases n - i,
        {
            e.push(bytes[i]);
            i = i + 1;
            assert(e@ =~= head + bytes@.subrange(0, i as int));
        }
        assert(bytes@.subrange(0, n as int) =~= bytes@);
        e
    }
}

} // verus!
