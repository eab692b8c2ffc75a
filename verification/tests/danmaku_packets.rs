use qliveplayer_lib::danmaku::cc::{PackMap, PackValue, CC, MAX_REG_SECS};

/// The wide number encoding computed step by step with floating point; the integer
/// encoder is checked against it.
fn float_encoding(mut e: i64) -> Vec<u8> {
    if e <= 255 {
        return vec![e as u8];
    }
    if e > 255 && e <= 65535 {
        let mut b = vec![0xcdu8];
        b.extend_from_slice(&(e as u16).to_be_bytes());
        return b;
    }
    let mut t: Vec<u8> = Vec::new();
    let mut i: i32 = 52;
    let o: i32 = 8;
    let mut s: i32 = 8 * o - i - 1;
    let c: i32 = (1 << s) - 1;
    let h: i32 = c >> 1;
    let l: f64 = 0.0;
    let y: u8 = if e < 0 { 1 } else { 0 };
    let mut f: i32 = 0;
    let mut u: f32;
    let mut a: f64 = 0.0;
    while i >= 8 {
        e = i64::abs(e);
        f = f32::floor(f32::log2(e as f32)) as i32;
        u = f32::powi(2.0, -1 * f);
        if (e as f64) * (u as f64) < 1.0 {
            f -= 1;
            u *= 2.0;
        }
        if f + h >= 1 {
            e = e.checked_add((1.0 / u) as i64).expect("no overflow in range");
        } else {
            e += (l * f64::powi(2.0, 1 - h)) as i64;
        }
        if (e as f64) * (u as f64) >= 2.0 {
            f += 1;
            u /= 2.0;
        }
        if f + h >= c {
            a = 0.0;
            f = c;
        } else if f + h >= 1 {
            a = ((e as f64) * (u as f64) - 1.0) * f64::powi(2.0, i);
            f += h;
        } else {
            a = e as f64 * f64::powi(2.0, h - 1) * f64::powi(2.0, i);
            f = 0;
        }
        t.push(255 & a as u8);
        a /= 256.0;
        i -= 8;
    }
    f = f << i | a as i32;
    s += i;
    while s > 0 {
        t.push(255 & f as u8);
        f /= 256;
        s -= 8;
    }
    let tlen = t.len();
    t[tlen - 1] |= 128 * y;
    t.reverse();
    let mut arr = vec![0xcbu8];
    arr.append(&mut t);
    arr
}

fn enc_str(s: &str) -> Vec<u8> {
    let n = s.len();
    let mut e = if n < 32 {
        vec![(160 + n) as u8]
    } else if n <= 255 {
        vec![217u8, n as u8]
    } else if n <= 65535 {
        vec![218u8, n as u8]
    } else {
        vec![219u8, n as u8]
    };
    e.extend_from_slice(s.as_bytes());
    e
}

#[test]
fn encode_num_small_values_are_their_low_byte() {
    let cc = CC::new();
    assert_eq!(cc.encode_num(0), vec![0]);
    assert_eq!(cc.encode_num(1), vec![1]);
    assert_eq!(cc.encode_num(255), vec![255]);
    assert_eq!(cc.encode_num(-1), vec![255]);
    assert_eq!(cc.encode_num(-256), vec![0]);
    assert_eq!(cc.encode_num(i64::MIN), vec![0]);
}

#[test]
fn encode_num_two_byte_values() {
    let cc = CC::new();
    assert_eq!(cc.encode_num(256), vec![0xcd, 0x01, 0x00]);
    assert_eq!(cc.encode_num(640), vec![0xcd, 0x02, 0x80]);
    assert_eq!(cc.encode_num(4253), vec![0xcd, 0x10, 0x9d]);
    assert_eq!(cc.encode_num(65535), vec![0xcd, 0xff, 0xff]);
}

#[test]
fn encode_num_wide_exact_values() {
    let cc = CC::new();
    assert_eq!(cc.encode_num(65536), vec![0xcb, 0x41, 0x50, 0, 0, 0, 0, 0, 0]);
    assert_eq!(cc.encode_num(65537), vec![0xcb, 0x41, 0x50, 0, 0, 255, 255, 255, 255]);
}

#[test]
fn encode_num_matches_float_routine() {
    let cc = CC::new();
    let mut values: Vec<i64> = Vec::new();
    for m in 16..57 {
        let p: i64 = 1 << m;
        for d in [-9i64, -8, -7, -3, -2, -1, 0, 1, 2, 3, 7, 8, 9, 255, 256, 4095] {
            let v = p + d;
            if v > 65535 && v < (1i64 << 57) {
                values.push(v);
            }
        }
        values.push(p + p / 3);
        values.push(p + p / 2);
        values.push(2 * p - 1);
        values.push(2 * p - p / 1000);
    }
    let mut x: u64 = 0x1234_5678_9abc_def1;
    for _ in 0..4000 {
        x = x.wrapping_mul(6364136223846793005).wrapping_add(1442695040888963407);
        let bits = 17 + (x >> 58) % 40;
        let v = (x >> 3) as i64 & ((1i64 << bits) - 1);
        if v > 65535 && v < (1i64 << 57) {
            values.push(v);
        }
    }
    values.push(1_700_000_000_000);
    values.push(1_734_567_890_123);
    values.push((1i64 << 57) - 9);
    values.push((1i64 << 57) - 8);
    values.push((1i64 << 57) - 1);
    for v in values {
        assert_eq!(cc.encode_num(v), float_encoding(v), "value {}", v);
    }
}

#[test]
fn encode_str_headers() {
    let cc = CC::new();
    assert_eq!(cc.encode_str(""), vec![0xa0]);
    assert_eq!(cc.encode_str("web"), vec![0xa3, b'w', b'e', b'b']);
    let s31 = "a".repeat(31);
    assert_eq!(cc.encode_str(&s31)[0], 0xbf);
    let s32 = "a".repeat(32);
    assert_eq!(&cc.encode_str(&s32)[..2], &[217, 32]);
    let s300 = "a".repeat(300);
    let e = cc.encode_str(&s300);
    assert_eq!(&e[..2], &[218, 44]);
    assert_eq!(e.len(), 302);
    let s70000 = "a".repeat(70000);
    assert_eq!(&cc.encode_str(&s70000)[..2], &[219, (70000 % 256) as u8]);
    assert_eq!(cc.encode_str("é"), vec![0xa2, 0xc3, 0xa9]);
}

#[test]
fn pack_map_keeps_keys_sorted_and_unique() {
    let mut m = PackMap::new();
    m.insert("b".to_owned(), PackValue::Int(2));
    m.insert("a".to_owned(), PackValue::Int(1));
    m.insert("c".to_owned(), PackValue::Int(3));
    m.insert("b".to_owned(), PackValue::Text("x".to_owned()));
    assert_eq!(m.len(), 3);
    let cc = CC::new();
    assert_eq!(
        cc.encode_dict(&m),
        vec![0x83, 0xa1, b'a', 1, 0xa1, b'b', 0xa1, b'x', 0xa1, b'c', 3]
    );
}

#[test]
fn encode_dict_nested_and_other_values() {
    let cc = CC::new();
    let mut inner = PackMap::new();
    inner.insert("k".to_owned(), PackValue::Int(300));
    let mut m = PackMap::new();
    m.insert("z".to_owned(), PackValue::Dict(inner));
    m.insert("o".to_owned(), PackValue::Other);
    assert_eq!(
        cc.encode_dict(&m),
        vec![0x82, 0xa1, b'o', 0xa1, b'z', 0x81, 0xa1, b'k', 0xcd, 0x01, 0x2c]
    );
}

#[test]
fn encode_dict_header_for_large_dicts() {
    let cc = CC::new();
    let mut m = PackMap::new();
    for i in 0..16 {
        m.insert(format!("{:02}", i), PackValue::Other);
    }
    assert_eq!(cc.encode_dict(&m)[0], 222);
}

#[test]
fn beat_packet() {
    let cc = CC::new();
    assert_eq!(cc.get_beat(), vec![0x00, 0x18, 0x05, 0x00, 0, 0, 0, 0, 0x80]);
}

#[test]
fn join_packet() {
    let cc = CC::new();
    let mut expected = vec![0x00, 0x02, 0x01, 0x00, 0, 0, 0, 0, 0x83];
    expected.extend(enc_str("cid"));
    expected.extend(vec![0xcd, 0x01, 0x2c]);
    expected.extend(enc_str("gametype"));
    expected.extend(vec![7]);
    expected.extend(enc_str("roomId"));
    expected.extend(float_encoding(123456));
    assert_eq!(cc.get_join(300, 7, 123456), expected);
}

#[test]
fn reg_packet_layout() {
    let cc = CC::new();
    let secs: u64 = 1_700_000_000;
    let device = "776ffa9d-b14d-49e0-adec-3b4b94cdc5b9@web.cc.163.com";
    let ua = "Mozilla/5.0 (Linux; Android 5.0; SM-G900P Build/LRX21T) AppleWebKit/537.36 (KHTML, like Gecko) Chrome/72.0.3626.121 Mobile Safari/538.36";
    let mut info = vec![0x87];
    for (k, v) in [("22", vec![0xcd, 0x02, 0x80]), ("23", vec![0xcd, 0x01, 0x68])] {
        info.extend(enc_str(k));
        info.extend(v);
    }
    for (k, v) in [("24", "web"), ("25", "Linux"), ("29", "163_cc"), ("30", ""), ("31", ua)] {
        info.extend(enc_str(k));
        info.extend(enc_str(v));
    }
    let mut expected = vec![0x00, 0x18, 0x02, 0x00, 0, 0, 0, 0, 0x89];
    expected.extend(enc_str("device_token"));
    expected.extend(enc_str(device));
    expected.extend(enc_str("macAdd"));
    expected.extend(enc_str(device));
    expected.extend(enc_str("memory"));
    expected.push(1);
    expected.extend(enc_str("page_uuid"));
    expected.extend(enc_str("1268abe2-ff5c-4920-a775-acec9db304cd"));
    expected.extend(enc_str("system"));
    expected.extend(enc_str("win"));
    expected.extend(enc_str("update_req_info"));
    expected.extend(info);
    expected.extend(enc_str("version"));
    expected.push(1);
    expected.extend(enc_str("web-cc"));
    expected.extend(float_encoding(1_700_000_000_000));
    expected.extend(enc_str("webccType"));
    expected.extend(vec![0xcd, 0x10, 0x9d]);
    assert_eq!(cc.reg_packet(secs), expected);
}

#[test]
fn reg_packet_at_clock_has_frame_and_time_field() {
    let cc = CC::new();
    let p = cc.get_reg().expect("clock in range");
    assert_eq!(&p[..9], &[0x00, 0x18, 0x02, 0x00, 0, 0, 0, 0, 0x89]);
    assert!(MAX_REG_SECS > 1_700_000_000);
}

#[test]
fn new_client_and_anchor_info() {
    let mut cc = CC::new();
    assert_eq!(cc.api1(), "https://api.cc.163.com/v1/activitylives/anchor/lives");
    assert_eq!(cc.channel_id(), "");
    assert_eq!(cc.room_id(), "");
    assert_eq!(cc.gametype(), "");
    let reply = br#"{"data":{"361433":{"channel_id":11,"room_id":"22","gametype":33,"x":null}}}"#;
    let (done, reg) = cc.accept_anchor_reply(reply, "361433").expect("clock in range");
    assert_eq!(done, "done");
    assert_eq!(&reg[..4], &[0x00, 0x18, 0x02, 0x00]);
    assert_eq!(cc.channel_id(), "11");
    assert_eq!(cc.room_id(), "\"22\"");
    assert_eq!(cc.gametype(), "33");
}

#[test]
fn anchor_reply_fields_are_recorded_until_one_is_missing() {
    let mut cc = CC::new();
    let reply = br#"{"data":{"7":{"channel_id":5,"gametype":1}}}"#;
    assert!(cc.accept_anchor_reply(reply, "7").is_none());
    assert_eq!(cc.channel_id(), "5");
    assert_eq!(cc.room_id(), "");
    assert_eq!(cc.gametype(), "");
    let mut cc = CC::new();
    assert!(cc.accept_anchor_reply(b"not json", "7").is_none());
    assert_eq!(cc.channel_id(), "");
    let mut cc = CC::new();
    assert!(cc.accept_anchor_reply(br#"{"data":{"8":{"channel_id":5}}}"#, "7").is_none());
    assert_eq!(cc.channel_id(), "");
}

#[test]
fn anchor_lookup_pieces() {
    assert_eq!(CC::anchor_id("https://cc.163.com/361433/"), Some("".to_owned()));
    assert_eq!(CC::anchor_id("https://cc.163.com/361433"), Some("361433".to_owned()));
    assert_eq!(CC::anchor_id("not a url"), None);
    assert_eq!(
        CC::anchor_query("361433"),
        vec![("anchor_ccid".to_owned(), "361433".to_owned())]
    );
    assert_eq!(CC::anchor_pointer("361433"), "/data/361433");
}

#[test]
fn encode_num_just_below_two_to_the_57() {
    let cc = CC::new();
    let top: i64 = 1 << 57;
    for v in (top - 8)..top {
        let bytes = cc.encode_num(v);
        assert_eq!(bytes, float_encoding(v), "value {}", v);
        assert_eq!(bytes, vec![0xcb, 0x43, 0xe0, 0, 0, 0, 0, 0, 0], "value {}", v);
    }
    assert_eq!(cc.encode_num(top - 9), float_encoding(top - 9));
}

#[test]
fn reg_at_given_readings() {
    let cc = CC::new();
    assert_eq!(cc.reg_at(1_700_000_000), Some(cc.reg_packet(1_700_000_000)));
    assert_eq!(cc.reg_at(MAX_REG_SECS), Some(cc.reg_packet(MAX_REG_SECS)));
    assert_eq!(cc.reg_at(MAX_REG_SECS + 1), None);
    assert_eq!(cc.reg_at(u64::MAX), None);
    assert_eq!(cc.reg_at(0), Some(cc.reg_packet(0)));
}

#[test]
fn anchor_reply_at_given_readings() {
    let reply = br#"{"data":{"9":{"channel_id":"c","room_id":2,"gametype":3}}}"#;
    let mut cc = CC::new();
    let (done, reg) = cc.accept_anchor_reply_at(reply, "9", 1_700_000_000).unwrap();
    assert_eq!(done, "done");
    assert_eq!(reg, cc.reg_packet(1_700_000_000));
    assert_eq!((cc.channel_id(), cc.room_id(), cc.gametype()), ("\"c\"", "2", "3"));
    let mut cc = CC::new();
    assert!(cc.accept_anchor_reply_at(reply, "9", MAX_REG_SECS + 1).is_none());
    assert_eq!((cc.channel_id(), cc.room_id(), cc.gametype()), ("\"c\"", "2", "3"));
    let mut cc = CC::new();
    assert!(cc.accept_anchor_reply_at(br#"{"data":{"9":{"room_id":2}}}"#, "9", 5).is_none());
    assert_eq!((cc.channel_id(), cc.room_id(), cc.gametype()), ("", "", ""));
}
