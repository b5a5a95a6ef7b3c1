//! Settings: fields, base URLs, the stored record and the flash partition.
use voicebox::crc::crc32;
use voicebox::settings::{
    Field, Settings, Store, DEFAULT_VOLUME, FIELD_ORDER, HEADER_LEN, MAX_CODEC_VOLUME, MAX_RECORD,
    OP_CHAT_COMPLETIONS, OP_SPEECH, OP_TRANSCRIPTIONS,
};

fn configured() -> Settings {
    let mut s = Settings::unconfigured();
    s.set(Field::WifiSsid, "home".to_string());
    s.set(Field::WifiPassword, "p\u{e4}ssword".to_string());
    s.set(Field::AgentBaseUrl, "https://agent.example.net/v1".to_string());
    s.set(Field::AgentModel, "small".to_string());
    s.set(Field::SpeechBaseUrl, "http://10.0.0.2:8000/api/v1".to_string());
    s.set(Field::SpeechSttModel, "whisper".to_string());
    s.set(Field::SpeechTtsModel, "voice".to_string());
    s
}

#[test]
fn fresh_device_is_blank_and_needs_setup() {
    let s = Settings::unconfigured();
    for f in FIELD_ORDER {
        assert_eq!(s.get(f), "");
    }
    assert_eq!(s.volume, DEFAULT_VOLUME);
    assert_eq!(s.first_invalid(), Some(Field::WifiSsid));
    assert_eq!(configured().first_invalid(), None);
}

#[test]
fn first_invalid_is_the_first_in_form_order() {
    let mut s = configured();
    s.set(Field::SpeechTtsModel, String::new());
    assert_eq!(s.first_invalid(), Some(Field::SpeechTtsModel));
    s.set(Field::AgentBaseUrl, "agent.example.net/v1".to_string());
    assert_eq!(s.first_invalid(), Some(Field::AgentBaseUrl));
}

#[test]
fn keys_are_unique_and_secrets_optional() {
    for (i, f) in FIELD_ORDER.iter().enumerate() {
        for g in &FIELD_ORDER[i + 1..] {
            assert_ne!(f.key(), g.key());
        }
        assert_eq!(f.is_required(), !f.is_secret());
        assert_eq!(f.accepts(""), f.is_secret());
        assert!(!f.label().is_empty());
        assert!(!f.hint().is_empty());
    }
    assert_eq!(Field::AgentApiKey.key(), "agent_api_key");
    assert_eq!(Field::SpeechSttModel.label(), "Transcription model");
    assert_eq!(Field::WifiPassword.hint(), "blank for an open network");
}

#[test]
fn base_urls_need_a_scheme() {
    assert!(Field::AgentBaseUrl.accepts("https://host"));
    assert!(Field::SpeechBaseUrl.accepts("http://host"));
    assert!(!Field::AgentBaseUrl.accepts("host.example.net/v1"));
    assert!(!Field::AgentBaseUrl.accepts("ftp://host"));
    assert!(Field::AgentModel.accepts("anything"));
    assert!(Field::AgentBaseUrl.is_base_url());
    assert!(!Field::AgentModel.is_base_url());
}

#[test]
fn pasted_base_urls_are_cleaned() {
    let mut s = Settings::unconfigured();
    for (typed, kept) in [
        ("https://h/v1", "https://h/v1"),
        ("  https://h/v1/  ", "https://h/v1"),
        ("https://h/v1///", "https://h/v1"),
        ("https://h/v1/chat/completions", "https://h/v1"),
        ("https://h/v1/chat/completions/", "https://h/v1"),
        ("https://h/v1/audio/transcriptions", "https://h/v1"),
        ("https://h/v1/audio/speech", "https://h/v1"),
        ("https://h/v1//audio/speech", "https://h/v1"),
        ("https://h/v1/audio/speech/chat/completions", "https://h/v1"),
        ("h", "h"),
        ("", ""),
        ("///", ""),
    ] {
        s.set(Field::AgentBaseUrl, typed.to_string());
        assert_eq!(s.get(Field::AgentBaseUrl), kept, "{typed}");
    }
    // Only base URLs are cleaned.
    s.set(Field::AgentModel, " m/ ".to_string());
    assert_eq!(s.get(Field::AgentModel), " m/ ");
}

#[test]
fn endpoints_and_headers() {
    let mut s = configured();
    assert_eq!(
        s.endpoint(Field::AgentBaseUrl, OP_CHAT_COMPLETIONS),
        "https://agent.example.net/v1/chat/completions"
    );
    assert_eq!(
        s.endpoint(Field::SpeechBaseUrl, OP_TRANSCRIPTIONS),
        "http://10.0.0.2:8000/api/v1/audio/transcriptions"
    );
    assert_eq!(
        s.endpoint(Field::SpeechBaseUrl, OP_SPEECH),
        "http://10.0.0.2:8000/api/v1/audio/speech"
    );
    assert_eq!(s.bearer(Field::AgentApiKey), "Bearer ");
    s.set(Field::AgentApiKey, "key".to_string());
    assert_eq!(s.bearer(Field::AgentApiKey), "Bearer key");
    assert_eq!(s.wifi_ssid(), "home");
    assert_eq!(s.wifi_password(), "p\u{e4}ssword");
}

#[test]
fn codec_volume_is_scaled_and_capped() {
    let mut s = Settings::unconfigured();
    for (percent, codec) in [(0, 0), (1, 1), (2, 2), (50, 43), (70, 60), (82, 70), (100, 85), (101, 85), (255, 85)] {
        s.volume = percent;
        assert_eq!(s.codec_volume(), codec);
        assert!(s.codec_volume() <= MAX_CODEC_VOLUME);
    }
}

#[test]
fn crc_of_the_check_string() {
    assert_eq!(crc32(b"123456789"), 0xCBF4_3926);
    assert_eq!(crc32(b""), 0);
}

#[test]
fn record_layout() {
    let s = configured();
    let mut out = [0xAAu8; 512];
    let n = s.encode_into(&mut out).unwrap();
    assert_eq!(n % 4, 0);
    assert_eq!(&out[..4], b"E32S");
    assert_eq!(out[4], 2);
    assert_eq!(out[5], 82);
    let len = usize::from(u16::from_le_bytes([out[6], out[7]]));
    let payload = &out[HEADER_LEN..HEADER_LEN + len];
    assert_eq!(u32::from_le_bytes([out[8], out[9], out[10], out[11]]), crc32(payload));
    // The first field: a length, then its bytes.
    assert_eq!(&payload[..6], b"\x04\x00home");
    // The second one counts bytes, not characters.
    assert_eq!(&payload[6..8], b"\x09\x00");
    assert!(out[HEADER_LEN + len..n].iter().all(|&b| b == 0));
    assert!(out[n..].iter().all(|&b| b == 0xAA));
}

#[test]
fn record_reads_back() {
    let mut s = configured();
    s.volume = 35;
    let mut out = [0xFFu8; 1024];
    s.encode_into(&mut out).unwrap();
    let back = Settings::decode(&out).unwrap();
    for f in FIELD_ORDER {
        assert_eq!(back.get(f), s.get(f));
    }
    assert_eq!(back.volume, 35);
    // A stored volume beyond the scale is read as the end of it.
    s.volume = 200;
    s.encode_into(&mut out).unwrap();
    assert_eq!(Settings::decode(&out).unwrap().volume, 100);
}

#[test]
fn record_that_does_not_fit_is_refused() {
    let s = configured();
    let mut room = [0x55u8; 512];
    let n = s.encode_into(&mut room).unwrap();
    let mut exact = vec![0x55u8; n];
    assert_eq!(s.encode_into(&mut exact), Some(n));
    let mut short = vec![0x55u8; n - 1];
    assert_eq!(s.encode_into(&mut short), None);
    let mut big = configured();
    big.set(Field::AgentModel, "m".repeat(70_000));
    assert_eq!(big.encode_into(&mut vec![0u8; 100_000]), None);
}

#[test]
fn record_that_does_not_fit_leaves_what_was_written() {
    let mut s = Settings::unconfigured();
    s.set(Field::WifiSsid, "abc".to_string());
    let mut whole = [0u8; 36];
    assert_eq!(s.encode_into(&mut whole), Some(36));
    // The length of the first field stands at 12, its text at 14, the end of
    // the last field at 33.
    let cases = [(0, 0), (11, 0), (13, 0), (14, 2), (16, 2), (17, 5), (18, 5), (19, 7), (32, 19)];
    for (room, written) in cases {
        let mut out = vec![0x55u8; room];
        assert_eq!(s.encode_into(&mut out), None);
        let mut expected = vec![0x55u8; room];
        expected.iter_mut().zip(whole).skip(HEADER_LEN).take(written).for_each(|(e, b)| *e = b);
        assert_eq!(out, expected, "{room} bytes");
    }
    // Only the padding lacks room: header and fields stand.
    for room in 33..36 {
        let mut out = vec![0x55u8; room];
        assert_eq!(s.encode_into(&mut out), None);
        assert_eq!(out[..33], whole[..33]);
        assert!(out[33..].iter().all(|&b| b == 0x55));
    }
}

#[test]
fn text_that_no_length_can_count_ends_the_record() {
    let mut s = Settings::unconfigured();
    s.set(Field::WifiSsid, "abc".to_string());
    s.set(Field::WifiPassword, "p".repeat(65_536));
    let mut out = vec![0x55u8; 100_000];
    assert_eq!(s.encode_into(&mut out), None);
    assert_eq!(out[HEADER_LEN..17], [3, 0, b'a', b'b', b'c']);
    assert!(out[..HEADER_LEN].iter().chain(&out[17..]).all(|&b| b == 0x55));
    // Each field can be counted, all of them together cannot.
    s.set(Field::WifiPassword, "p".repeat(65_535));
    let mut out = vec![0x55u8; 100_000];
    assert_eq!(s.encode_into(&mut out), None);
    assert_eq!(out[17..20], [255, 255, b'p']);
    let end = HEADER_LEN + 18 + 3 + 65_535;
    assert_eq!(out[end - 14..end], [0u8; 14]);
    assert!(out[..HEADER_LEN].iter().chain(&out[end..]).all(|&b| b == 0x55));
}

#[test]
fn damaged_records_read_as_nothing() {
    let s = configured();
    let mut good = [0u8; 512];
    s.encode_into(&mut good).unwrap();
    let len = usize::from(u16::from_le_bytes([good[6], good[7]]));
    for at in HEADER_LEN..HEADER_LEN + len {
        let mut bad = good;
        bad[at] ^= 0x10;
        assert!(Settings::decode(&bad).is_none());
    }
    for at in [0, 4, 6, 8] {
        let mut bad = good;
        bad[at] ^= 1;
        assert!(Settings::decode(&bad).is_none());
    }
    assert!(Settings::decode(&good[..HEADER_LEN - 1]).is_none());
    assert!(Settings::decode(&good[..HEADER_LEN + len - 1]).is_none());
    assert!(Settings::decode(&[0xFF; 4096]).is_none());
    assert!(Settings::decode(&[]).is_none());
    // Bytes that are no text.
    let mut bad = good;
    bad[HEADER_LEN + 2] = 0xFF;
    let crc = crc32(&bad[HEADER_LEN..HEADER_LEN + len]).to_le_bytes();
    bad[8..12].copy_from_slice(&crc);
    assert!(Settings::decode(&bad).is_none());
}

#[test]
fn saving_and_loading_through_flash() {
    let s = configured();
    let store = Store::locate(Some((0x100, 0x6000))).unwrap();
    assert!(Store::locate(None).is_none());
    assert_eq!(store.load_range(), (0x100, MAX_RECORD));
    assert_eq!(Store { offset: 8, size: 100 }.load_range(), (8, 100));
    let mut flash = vec![0u8; 0x8000];
    let plan = store.save(&s, 4096).ok().unwrap();
    assert_eq!((plan.erase_from, plan.erase_to), (0x100, 0x1100));
    flash[0x100..0x1100].fill(0xFF);
    flash[0x100..0x100 + plan.data.len()].copy_from_slice(&plan.data);
    let (at, len) = store.load_range();
    let read = &flash[at as usize..at as usize + len];
    let back = store.load(Some(read)).unwrap();
    assert_eq!(back.get(Field::SpeechBaseUrl), "http://10.0.0.2:8000/api/v1");
    assert!(store.load(None).is_none());
    // Erasing is forgetting.
    let (from, to) = store.clear(4096);
    flash[from as usize..to as usize].fill(0xFF);
    let read = &flash[at as usize..at as usize + len];
    assert!(store.load(Some(read)).is_none());
}

#[test]
fn saving_can_fail() {
    let mut s = configured();
    let store = Store { offset: 0, size: 0x6000 };
    let tiny = Store { offset: 0, size: 1024 };
    assert_eq!(tiny.save(&s, 4096).err(), Some("settings record exceeds nvs partition"));
    assert!(tiny.save(&s, 512).is_ok());
    s.set(Field::AgentModel, "m".repeat(5000));
    assert_eq!(store.save(&s, 4096).err(), Some("settings too large to store"));
}

#[test]
fn clones_hold_the_same() {
    let s = configured();
    let c = s.clone();
    for f in FIELD_ORDER {
        assert_eq!(c.get(f), s.get(f));
    }
    assert_eq!(c.volume, s.volume);
}

#[test]
fn save_is_whole_words_in_one_sector() {
    let store = Store { offset: 0x9000, size: 0x6000 };
    let mut s = configured();
    for extra in 0..9 {
        s.set(Field::AgentModel, "m".repeat(extra));
        let plan = store.save(&s, 4096).ok().unwrap();
        assert_eq!(plan.data.len() % 4, 0);
        assert_eq!((plan.erase_from, plan.erase_to), (0x9000, 0xA000));
    }
}

#[test]
fn any_damaged_byte_but_volume_and_length_is_noticed() {
    let s = configured();
    let mut out = [0u8; 512];
    let n = s.encode_into(&mut out).unwrap();
    let payload = usize::from(u16::from_le_bytes([out[6], out[7]]));
    for at in (0..5).chain(8..HEADER_LEN + payload) {
        let mut bad = out[..n].to_vec();
        bad[at] ^= 0x40;
        assert!(Settings::decode(&bad).is_none());
    }
    out[5] = 7;
    assert_eq!(Settings::decode(&out[..n]).unwrap().volume, 7);
}

#[test]
fn operation_path_alone_leaves_nothing() {
    let mut s = Settings::unconfigured();
    s.set(Field::AgentBaseUrl, "/chat/completions".to_string());
    assert_eq!(s.get(Field::AgentBaseUrl), "");
}
