//! The setup portal: form, web server, names and addresses.
use edge_dhcp::{DhcpOption, MessageType, Options, Packet};
use voicebox::form::{apply_form, form_page, hex, push_escaped, saved_page, urldecode};
use voicebox::http::{HttpAction, HttpRequest, Response};
use voicebox::portal::{
    answer_name, count_client, destination, hands_out_address, leaves_portal, portal_card,
    portal_ends, AddressServer, DhcpRequest, PortalOutcome, PORTAL_SSID, PORTAL_URL,
};
use voicebox::settings::{Field, Settings, FIELD_ORDER};
use voicebox::touch::TouchEvent;
use voicebox::ui::UiState;

fn configured() -> Settings {
    let mut s = Settings::unconfigured();
    s.set(Field::WifiSsid, "My \"<net>\" & co".to_string());
    s.set(Field::WifiPassword, "hunter2".to_string());
    s.set(Field::AgentBaseUrl, "https://a/v1".to_string());
    s.volume = 35;
    s
}

// ---------- Form ----------

#[test]
fn escaping() {
    let mut out = "x".to_string();
    push_escaped(&mut out, "a&b<c>\"d\"'\u{e9}");
    assert_eq!(out, "xa&amp;b&lt;c&gt;&quot;d&quot;'\u{e9}");
}

#[test]
fn form_shows_values_but_no_secrets() {
    let s = configured();
    let page = form_page(&s);
    assert!(page.starts_with("<!DOCTYPE html><html><head><meta charset=utf-8><meta name=viewport"));
    assert!(page.ends_with("<button type=submit>Save &amp; Restart</button></form></body></html>"));
    assert!(page.contains(
        "<label for=wifi_ssid>Wi-Fi network (SSID)</label><input id=wifi_ssid name=wifi_ssid \
         type=text autocapitalize=off autocorrect=off placeholder=\"network name\" \
         value=\"My &quot;&lt;net&gt;&quot; &amp; co\">"
    ));
    assert!(page.contains(
        "<input id=wifi_password name=wifi_password type=password autocomplete=off \
         placeholder=\"unchanged\">"
    ));
    assert!(page.contains(
        "<input id=agent_api_key name=agent_api_key type=password autocomplete=off \
         placeholder=\"blank if the endpoint needs no key\">"
    ));
    assert!(page.contains(" name=agent_base_url type=url inputmode=url autocapitalize=off"));
    assert!(!page.contains("hunter2"));
    let mut other = s.clone();
    other.set(Field::WifiPassword, "another one".to_string());
    assert_eq!(form_page(&other), page);
}

#[test]
fn page_after_saving() {
    let page = saved_page();
    assert!(page.contains("<h1>Saved</h1><p>The device is restarting and will join your network. This page"));
}

#[test]
fn hexadecimal_digits() {
    assert_eq!(hex(b'0'), Some(0));
    assert_eq!(hex(b'9'), Some(9));
    assert_eq!(hex(b'a'), Some(10));
    assert_eq!(hex(b'F'), Some(15));
    assert_eq!(hex(b'g'), None);
    assert_eq!(hex(b'/'), None);
    assert_eq!(hex(b'@'), None);
}

#[test]
fn form_values_are_decoded() {
    assert_eq!(urldecode(b"a+b%20c"), "a b c");
    assert_eq!(urldecode(b"%C3%A9"), "\u{e9}");
    assert_eq!(urldecode(b"100%"), "100%");
    assert_eq!(urldecode(b"%4"), "%4");
    assert_eq!(urldecode(b"%41"), "A");
    assert_eq!(urldecode(b"%c3%a9%2f%2F!~"), "\u{e9}//!~");
    assert_eq!(urldecode(b"%zz%2"), "%zz%2");
    assert_eq!(urldecode(b"%FF"), "");
    assert_eq!(urldecode(b""), "");
}

#[test]
fn submitted_values_are_taken() {
    let s = configured();
    let out = apply_form(
        &s,
        b"wifi_ssid=caf%C3%A9+net&wifi_password=&agent_base_url=http%3A%2F%2Fh%2Fv1%2Fchat%2Fcompletions&\
          agent_api_key=k%26%3D&speech_stt_model=&nonsense&unknown=1",
    );
    assert_eq!(out.get(Field::WifiSsid), "caf\u{e9} net");
    assert_eq!(out.get(Field::WifiPassword), "hunter2");
    assert_eq!(out.get(Field::AgentBaseUrl), "http://h/v1");
    assert_eq!(out.get(Field::AgentApiKey), "k&=");
    assert_eq!(out.get(Field::SpeechSttModel), "");
    assert_eq!(out.volume, 35);
}

#[test]
fn absent_fields_are_kept() {
    let s = configured();
    let out = apply_form(&s, b"");
    for f in FIELD_ORDER {
        assert_eq!(out.get(f), s.get(f));
    }
    // The last of two decides, and a blank that is no secret clears.
    let out = apply_form(&s, b"agent_model=a&agent_model=b=c&wifi_ssid=");
    assert_eq!(out.get(Field::AgentModel), "b=c");
    assert_eq!(out.get(Field::WifiSsid), "");
}

#[test]
fn joined_bodies_are_taken_one_after_the_other() {
    let s = configured();
    for (a, b) in [
        ("agent_model=a&wifi_ssid=x", "agent_model=b&wifi_password="),
        ("", "agent_model=b"),
        ("agent_model=a", ""),
        ("agent_model", "=a&&agent_model=c"),
    ] {
        let joined = apply_form(&s, format!("{a}&{b}").as_bytes());
        let in_turn = apply_form(&apply_form(&s, a.as_bytes()), b.as_bytes());
        for f in FIELD_ORDER {
            assert_eq!(joined.get(f), in_turn.get(f));
        }
    }
}

// ---------- Web server ----------

fn reply_of(action: HttpAction) -> Response {
    match action {
        HttpAction::Reply(r) => r,
        _ => panic!("no reply"),
    }
}

#[test]
fn every_probe_is_answered_with_the_form() {
    let s = configured();
    for request in [
        "GET / HTTP/1.1\r\nHost: x\r\n\r\n",
        "GET /generate_204 HTTP/1.1\r\n\r\n",
        "POST /elsewhere HTTP/1.1\r\nContent-Length: 99999\r\n\r\n",
        "get /save HTTP/1.1\r\n\r\n",
        "GET /save HTTP/1.1\r\n\r\n",
        "POST /saved HTTP/1.1\r\nContent-Length: 0\r\n\r\n",
        "POST /save/ HTTP/1.1\r\nContent-Length: 3\r\n\r\na=b",
        "POST /sav HTTP/1.1\r\n\r\n",
        "POST /saved?x HTTP/1.1\r\nContent-Length: 0\r\n\r\n",
        "POST /?/save HTTP/1.1\r\nContent-Length: 0\r\n\r\n",
        "HEAD x\r\n\r\n",
    ] {
        let r = reply_of(HttpRequest::new().on_read(request.as_bytes(), &s));
        assert_eq!((r.status, r.content_type), ("200 OK", "text/html; charset=utf-8"));
        assert_eq!(r.body, form_page(&s).into_bytes());
    }
}

#[test]
fn answers_have_a_head() {
    let r = Response { status: "200 OK", content_type: "text/plain", body: vec![1, 2, 3] };
    assert_eq!(
        r.head(),
        "HTTP/1.1 200 OK\r\nContent-Type: text/plain\r\nContent-Length: 3\r\n\
         Cache-Control: no-store\r\nConnection: close\r\n\r\n"
    );
}

#[test]
fn submitted_form_is_saved() {
    let s = configured();
    let mut r = HttpRequest::new();
    assert_eq!(r.read_limit(), 4096);
    let head = b"POST /save HTTP/1.1\r\nHost: x\r\ncOnTeNt-LeNgTh:  18 \r\n\r\n";
    assert!(matches!(r.on_read(head, &s), HttpAction::ReadMore));
    assert_eq!(r.read_limit(), 512);
    assert!(matches!(r.on_read(b"wifi_ssid", &s), HttpAction::ReadMore));
    match r.on_read(b"=new+nameX&agent_model=late", &s) {
        HttpAction::Saved(page, updated) => {
            assert_eq!(page.body, saved_page().into_bytes());
            assert_eq!(updated.get(Field::WifiSsid), "new name");
            assert_eq!(updated.get(Field::AgentModel), "");
        }
        _ => panic!("not saved"),
    }
}

#[test]
fn submission_may_carry_a_query() {
    let s = configured();
    for path in ["/save?a", "/save?", "/save?a=b?c"] {
        let request = format!("POST {path} HTTP/1.1\r\nContent-Length: 13\r\n\r\nwifi_ssid=abc");
        match HttpRequest::new().on_read(request.as_bytes(), &s) {
            HttpAction::Saved(_, updated) => assert_eq!(updated.get(Field::WifiSsid), "abc"),
            _ => panic!("not saved"),
        }
    }
}

#[test]
fn form_cut_off_by_the_phone_is_saved_as_far_as_it_goes() {
    let s = configured();
    let mut r = HttpRequest::new();
    let request = b"POST /save HTTP/1.1\r\nContent-Length: 100\r\n\r\nwifi_ssid=abc";
    assert!(matches!(r.on_read(request, &s), HttpAction::ReadMore));
    match r.on_closed(&s) {
        HttpAction::Saved(_, updated) => assert_eq!(updated.get(Field::WifiSsid), "abc"),
        _ => panic!("not saved"),
    }
}

#[test]
fn forms_without_a_length_are_empty() {
    let s = configured();
    for line in ["", "Content-Length: x\r\n", "Content-Length: -1\r\n", "Content-Length\r\n"] {
        let request = format!("POST /save HTTP/1.1\r\n{line}\r\nwifi_ssid=abc");
        match HttpRequest::new().on_read(request.as_bytes(), &s) {
            HttpAction::Saved(_, updated) => {
                assert_eq!(updated.get(Field::WifiSsid), s.get(Field::WifiSsid));
            }
            _ => panic!("not saved"),
        }
    }
    // The first length that is one decides.
    let request = "POST /save HTTP/1.1\r\nContent-Length: ?\r\nContent-Length: +11\r\n\
                   Content-Length: 5\r\n\r\nwifi_ssid=abc";
    match HttpRequest::new().on_read(request.as_bytes(), &s) {
        HttpAction::Saved(_, updated) => assert_eq!(updated.get(Field::WifiSsid), "a"),
        _ => panic!("not saved"),
    }
}

#[test]
fn long_forms_are_refused() {
    let s = configured();
    let request = "POST /save HTTP/1.1\r\nContent-Length: 8193\r\n\r\n";
    let r = reply_of(HttpRequest::new().on_read(request.as_bytes(), &s));
    assert_eq!((r.status, r.content_type), ("413 Payload Too Large", "text/plain"));
    assert_eq!(r.body, b"too big");
    let huge = format!("POST /save X\r\nContent-Length: {}\r\n\r\n", "9".repeat(30));
    assert!(matches!(
        HttpRequest::new().on_read(huge.as_bytes(), &s),
        HttpAction::Saved(_, _)
    ));
    let just = "POST /save HTTP/1.1\r\nContent-Length: 8192\r\n\r\n";
    assert!(matches!(
        HttpRequest::new().on_read(just.as_bytes(), &s),
        HttpAction::ReadMore
    ));
}

#[test]
fn nonsense_is_dropped() {
    let s = configured();
    assert!(matches!(
        HttpRequest::new().on_read(b"GET\r\n\r\n", &s),
        HttpAction::Drop
    ));
    assert!(matches!(
        HttpRequest::new().on_read(b"GET /\xFF X\r\n\r\n", &s),
        HttpAction::Drop
    ));
    let mut r = HttpRequest::new();
    assert!(matches!(r.on_read(&[b'a'; 4095], &s), HttpAction::ReadMore));
    assert_eq!(r.read_limit(), 1);
    assert!(matches!(r.on_read(b"a", &s), HttpAction::Drop));
    assert_eq!(r.read_limit(), 0);
    assert!(matches!(HttpRequest::new().on_closed(&s), HttpAction::Drop));
}

#[test]
fn head_may_arrive_in_pieces() {
    let s = configured();
    let mut r = HttpRequest::new();
    for b in b"GET / HTTP/1.1\r\n\r" {
        assert!(matches!(r.on_read(&[*b], &s), HttpAction::ReadMore));
    }
    assert!(matches!(r.on_read(b"\n", &s), HttpAction::Reply(_)));
}

// ---------- Names ----------

const QUERY: &[u8] = b"\x12\x34\x01\x00\x00\x01\x00\x00\x00\x00\x00\x00\
    \x07captive\x05apple\x03com\x00\x00\x01\x00\x01";

#[test]
fn names_lead_to_the_portal() {
    let mut expected = b"\x12\x34\x81\x00\x00\x01\x00\x01\x00\x00\x00\x00".to_vec();
    expected.extend_from_slice(&QUERY[12..]);
    expected.extend_from_slice(&QUERY[12..QUERY.len() - 4]);
    expected.extend_from_slice(b"\x00\x01\x00\x01\x00\x00\x00\x3C\x00\x04\xC0\xA8\x04\x01");
    assert_eq!(answer_name(QUERY), Some(expected.clone()));
    // What follows the question makes no difference.
    let mut longer = QUERY.to_vec();
    longer.extend_from_slice(&[0, 0, 41]);
    assert_eq!(answer_name(&longer), Some(expected));
}

#[test]
fn longest_name_is_answered() {
    let mut query = QUERY[..12].to_vec();
    query[2] = 0;
    for len in [63usize, 63, 63, 61] {
        query.push(len as u8);
        query.extend(vec![b'n'; len]);
    }
    query.extend_from_slice(b"\x00\x00\x01\x00\x01");
    assert_eq!(query.len(), 12 + 255 + 4);
    let answer = answer_name(&query).unwrap();
    assert_eq!(answer.len(), 12 + 259 + 255 + 14);
    assert_eq!(answer[2], 0x80);
    assert_eq!(answer[answer.len() - 4..], [192, 168, 4, 1]);
}

#[test]
fn other_questions_get_no_address() {
    assert_eq!(answer_name(&QUERY[..11]), None);
    assert_eq!(answer_name(&QUERY[..20]), None);
    let mut aaaa = QUERY.to_vec();
    let at = aaaa.len() - 3;
    aaaa[at] = 28;
    let answer = answer_name(&aaaa).unwrap();
    assert_eq!(answer[6..8], [0, 0]);
    assert_eq!(answer.len(), QUERY.len());
}

// ---------- Addresses ----------

fn packet(options: &[DhcpOption<'_>], hops: u8, relay: [u8; 4]) -> Vec<u8> {
    let mut p = Packet::new_request([2, 0, 0, 0, 0, 9], 0x0102_0304, 0, None, true, Options::new(options));
    p.hops = hops;
    p.giaddr = relay.into();
    let mut buf = [0u8; 600];
    p.encode(&mut buf).unwrap().to_vec()
}

#[test]
fn phone_gets_an_address() {
    let mut server = AddressServer::new();
    let discover = packet(&[DhcpOption::MessageType(MessageType::Discover)], 0, [0; 4]);
    let offer = server.answer(&discover, 10).unwrap();
    assert!(offer.handed_out);
    assert_eq!(offer.bytes[16..20], [192, 168, 4, 50]);
    assert_eq!(offer.bytes[4..8], discover[4..8]);
    assert_eq!(offer.bytes[28..44], discover[28..44]);
    assert_eq!((offer.to.ip, offer.to.port), ([255; 4], 68));
    let wanted = [1, 3, 6, 114];
    let request = packet(
        &[
            DhcpOption::MessageType(MessageType::Request),
            DhcpOption::RequestedIpAddress([192, 168, 4, 50].into()),
            DhcpOption::ParameterRequestList(&wanted),
        ],
        0,
        [0; 4],
    );
    let ack = server.answer(&request, 11).unwrap();
    assert!(ack.handed_out);
    assert_eq!(ack.bytes[16..20], [192, 168, 4, 50]);
    let parsed = Packet::decode(&ack.bytes).unwrap();
    let options: Vec<DhcpOption<'_>> = parsed.options.iter().collect();
    assert!(options.contains(&DhcpOption::MessageType(MessageType::Ack)));
    assert!(options.contains(&DhcpOption::ServerIdentifier([192, 168, 4, 1].into())));
    assert!(options.contains(&DhcpOption::SubnetMask([255, 255, 255, 0].into())));
    let dns = [6, 4, 192, 168, 4, 1];
    assert!(ack.bytes.windows(6).any(|w| w == dns));
    let router = [3, 4, 192, 168, 4, 1];
    assert!(ack.bytes.windows(6).any(|w| w == router));
    let url = PORTAL_URL.as_bytes();
    assert!(ack.bytes.windows(url.len()).any(|w| w == url));
    // Leased now: another phone is offered the next one.
    let mut other = discover.clone();
    other[33] = 77;
    assert_eq!(server.answer(&other, 12).unwrap().bytes[16..20], [192, 168, 4, 51]);
    assert_eq!(server.answer(&discover, 13).unwrap().bytes[16..20], [192, 168, 4, 50]);
}

#[test]
fn address_that_is_taken_is_refused() {
    let mut server = AddressServer::new();
    let request = packet(
        &[
            DhcpOption::MessageType(MessageType::Request),
            DhcpOption::RequestedIpAddress([192, 168, 4, 60].into()),
        ],
        0,
        [0; 4],
    );
    assert!(server.answer(&request, 0).unwrap().handed_out);
    let mut other = request.clone();
    other[33] = 77;
    let nak = server.answer(&other, 100).unwrap();
    assert!(!nak.handed_out);
    // Once the lease is over, it is free again.
    assert!(server.answer(&other, 7201).unwrap().handed_out);
    let outside = packet(
        &[
            DhcpOption::MessageType(MessageType::Request),
            DhcpOption::RequestedIpAddress([192, 168, 4, 201].into()),
        ],
        0,
        [0; 4],
    );
    assert!(!server.answer(&outside, 8000).unwrap().handed_out);
}

#[test]
fn what_is_no_request_gets_no_answer() {
    let mut server = AddressServer::new();
    assert!(server.answer(b"", 0).is_none());
    assert!(server.answer(&[1u8; 300], 0).is_none());
    let elsewhere = packet(
        &[
            DhcpOption::MessageType(MessageType::Discover),
            DhcpOption::ServerIdentifier([10, 0, 0, 1].into()),
        ],
        0,
        [0; 4],
    );
    assert!(server.answer(&elsewhere, 0).is_none());
}

#[test]
fn relayed_answers_go_to_the_relay() {
    let mut server = AddressServer::new();
    let discover = packet(&[DhcpOption::MessageType(MessageType::Discover)], 1, [10, 1, 2, 3]);
    let offer = server.answer(&discover, 0).unwrap();
    assert_eq!((offer.to.ip, offer.to.port), ([10, 1, 2, 3], 67));
}

#[test]
fn destinations() {
    let to = |ciaddr, giaddr, broadcast| {
        let d = destination(&DhcpRequest { ciaddr, giaddr, broadcast });
        (d.ip, d.port)
    };
    assert_eq!(to([0; 4], [0; 4], false), ([255; 4], 68));
    assert_eq!(to([9, 9, 9, 9], [0; 4], false), ([9, 9, 9, 9], 68));
    assert_eq!(to([9, 9, 9, 9], [0; 4], true), ([255; 4], 68));
    assert_eq!(to([9, 9, 9, 9], [0, 0, 0, 1], true), ([0, 0, 0, 1], 67));
    let mut answer = [0u8; 20];
    assert!(!hands_out_address(&answer));
    answer[19] = 1;
    assert!(hands_out_address(&answer));
}

#[test]
fn clients_are_counted_up_to_nine() {
    assert_eq!(count_client(0, true), 1);
    assert_eq!(count_client(3, false), 3);
    assert_eq!(count_client(8, true), 9);
    assert_eq!(count_client(9, true), 9);
    assert_eq!(count_client(200, true), 9);
    assert_eq!(count_client(200, false), 200);
}

#[test]
fn portal_card_and_its_end() {
    match portal_card(4) {
        UiState::Portal { ap_ssid, url, clients } => {
            assert_eq!((ap_ssid.as_str(), url.as_str(), clients), (PORTAL_SSID, PORTAL_URL, 4));
        }
        _ => panic!("no portal card"),
    }
    assert!(leaves_portal(Some(TouchEvent::Tap { x: 3, y: 3 })));
    assert!(!leaves_portal(Some(TouchEvent::SwipeLeft)));
    assert!(!leaves_portal(None));
    assert!(matches!(portal_ends(None), PortalOutcome::Cancelled));
    match portal_ends(Some(configured())) {
        PortalOutcome::Saved(s) => assert_eq!(s.volume, 35),
        PortalOutcome::Cancelled => panic!("cancelled"),
    }
}
