//! The setup portal: what a phone needs before it shows the form.
//!
//! The device's access point hands out addresses, answers every name with its
//! own address, and serves the form. The wire formats of the first two are
//! those of `edge-dhcp` and `edge-captive`.
use crate::settings::Settings;
use crate::touch::TouchEvent;
use crate::ui::UiState;
use edge_dhcp::server::{Server, ServerOptions};
use edge_dhcp::{Options, Packet};
use vstd::prelude::*;

verus! {

/// The access point's own address, which is also the gateway, the name server
/// and what the user browses to.
pub const PORTAL_IP: [u8; 4] = [192, 168, 4, 1];

/// The name of the setup network.
pub const PORTAL_SSID: &'static str = "voicebox-setup";

/// Where the form is.
pub const PORTAL_URL: &'static str = "http://192.168.4.1";

/// Seconds for which a phone may remember an answered name.
pub const DNS_TTL_SECS: u32 = 60;

/// Bytes that an answer to a name query may take.
pub const DNS_REPLY_BYTES: usize = 768;

/// Bytes that an answer to an address request may take.
pub const DHCP_REPLY_BYTES: usize = 1024;

/// What came of the setup portal. Both end in a restart; the difference is
/// whether settings are written first.
pub enum PortalOutcome {
    /// The form was submitted, and these are the settings.
    Saved(Settings),
    /// The user backed out.
    Cancelled,
}

/// What the portal's card shows.
pub fn portal_card(clients: u8) -> (state: UiState)
    ensures
        state matches UiState::Portal { ap_ssid, url, clients: c } && ap_ssid@ == PORTAL_SSID@
            && url@ == PORTAL_URL@ && c == clients,
{
    UiState::Portal { ap_ssid: PORTAL_SSID.to_owned(), url: PORTAL_URL.to_owned(), clients }
}

/// Whether a touch ends the portal: only a tap does.
pub fn leaves_portal(event: Option<TouchEvent>) -> (r: bool)
    ensures
        r == (event matches Some(e) && e is Tap),
{
    match event {
        Some(TouchEvent::Tap { .. }) => true,
        _ => false,
    }
}

/// How the portal ends: with what was submitted, or with nothing.
pub fn portal_ends(submitted: Option<Settings>) -> (outcome: PortalOutcome)
    ensures
        match submitted {
            Some(s) => outcome == PortalOutcome::Saved(s),
            None => outcome is Cancelled,
        },
{
    match submitted {
        Some(s) => PortalOutcome::Saved(s),
        None => PortalOutcome::Cancelled,
    }
}

// ---------- Names ----------
/// One past the name that stands at `at`: labels, each behind its length, up to
/// one of no length. A name that refers to another is none of these.
pub open spec fn name_end(query: Seq<u8>, at: int) -> Option<int>
    decreases
            if at <= query.len() {
                query.len() - at
            } else {
                0
            },
{
    if at < 0 || at >= query.len() || query[at] >= 64 {
        None
    } else if query[at] == 0 {
        Some(at + 1)
    } else {
        name_end(query, at + 1 + query[at])
    }
}

/// Whether a query asks for the address of a name, and for nothing else: one
/// question, with a name of 255 bytes at most, of type and class 1.
pub open spec fn asks_for_address(query: Seq<u8>) -> bool {
    &&& query.len() >= 12
    &&& query[2] / 8 % 16 == 0
    &&& query[4] == 0 && query[5] == 1
    &&& name_end(query, 12) matches Some(end) && end <= 12 + 255 && end + 4 <= query.len()
        && query.subrange(end, end + 4) == seq![0u8, 1, 0, 1]
}

/// The four bytes of `n`, the most significant first.
pub open spec fn be32(n: u32) -> Seq<u8> {
    seq![(n / 16777216) as u8, (n / 65536 % 256) as u8, (n / 256 % 256) as u8, (n % 256) as u8]
}

/// The answer that gives an address to such a query: the query's number, one
/// question and one answer, the question again, and the name with the address and
/// how long it may be remembered.
pub open spec fn address_answer(query: Seq<u8>, ip: Seq<u8>, ttl_secs: u32) -> Seq<u8> {
    let end = name_end(query, 12)->0;
    query.take(2) + seq![(128 + query[2] % 2) as u8, 0, 0, 1, 0, 1, 0, 0, 0, 0] + query.subrange(
        12,
        end + 4,
    ) + query.subrange(12, end) + seq![0u8, 1, 0, 1] + be32(ttl_secs) + seq![0u8, 4] + ip
}

/// What `edge_captive::reply` writes for a query, given the address to answer
/// with, the time to live in seconds and the room for the answer; nothing where
/// it fails.
pub uninterp spec fn captive_answer(
    query: Seq<u8>,
    ip: Seq<u8>,
    ttl_secs: u32,
    room: nat,
) -> Option<Seq<u8>>;

/// `edge_captive::reply`: answers a name query with an address, or fails on what
/// is no query and where the answer does not fit. The answer has the name
/// `captive_answer`, and stands at the front of `out`, which keeps its length. To
/// a query for an address, and for nothing else, it is `address_answer`.
#[verifier::external_body]
fn captive_reply(query: &[u8], ip: [u8; 4], ttl_secs: u32, out: &mut [u8]) -> (r: Option<usize>)
    ensures
        final(out)@.len() == old(out)@.len(),
        match r {
            Some(n) => n <= final(out)@.len() && captive_answer(
                query@,
                ip@,
                ttl_secs,
                old(out)@.len(),
            ) == Some(final(out)@.take(n as int)),
            None => captive_answer(query@, ip@, ttl_secs, old(out)@.len()) is None,
        },
        asks_for_address(query@) && address_answer(query@, ip@, ttl_secs).len() <= old(out)@.len()
            ==> (r matches Some(n) && final(out)@.take(n as int) == address_answer(
            query@,
            ip@,
            ttl_secs,
        )),
{
    edge_captive::reply(query, &ip, core::time::Duration::from_secs(ttl_secs.into()), out).ok()
}

/// The answer to a name query: every name is this device. Nothing for what is
/// no query.
pub fn answer_name(query: &[u8]) -> (r: Option<Vec<u8>>)
    ensures
        match r {
            Some(bytes) => captive_answer(
                query@,
                PORTAL_IP@,
                DNS_TTL_SECS,
                DNS_REPLY_BYTES as nat,
            ) == Some(bytes@),
            None => captive_answer(query@, PORTAL_IP@, DNS_TTL_SECS, DNS_REPLY_BYTES as nat)
                is None,
        },
        asks_for_address(query@) ==> (r matches Some(bytes) && bytes@ == address_answer(
            query@,
            PORTAL_IP@,
            DNS_TTL_SECS,
        )),
{
    proof {
        if asks_for_address(query@) {
            every_name_leads_here(query@);
        }
    }
    let mut out: Vec<u8> = Vec::new();
    out.resize(DNS_REPLY_BYTES, 0);
    match captive_reply(query, PORTAL_IP, DNS_TTL_SECS, &mut out) {
        Some(n) => {
            let ghost answer = out@.take(n as int);
            out.truncate(n);
            assert(out@ =~= answer);
            Some(out)
        },
        None => None,
    }
}

proof fn lemma_name_end(query: Seq<u8>, at: int)
    ensures
        name_end(query, at) matches Some(end) ==> at < end <= query.len(),
    decreases
            if at <= query.len() {
                query.len() - at
            } else {
                0
            },
{
    if 0 <= at < query.len() && 0 < query[at] < 64 {
        lemma_name_end(query, at + 1 + query[at]);
    }
}

/// Whatever name is asked for, the answer is that the portal is there: it bears
/// the query's number, gives the portal's address, and there is room for it.
pub proof fn every_name_leads_here(query: Seq<u8>)
    requires
        asks_for_address(query),
    ensures
        ({
            let answer = address_answer(query, PORTAL_IP@, DNS_TTL_SECS);
            &&& answer.len() <= DNS_REPLY_BYTES
            &&& answer.take(2) == query.take(2)
            &&& answer.skip(answer.len() - 4) == PORTAL_IP@
        }),
{
    lemma_name_end(query, 12);
    let answer = address_answer(query, PORTAL_IP@, DNS_TTL_SECS);
    assert(PORTAL_IP@.len() == 4);
    assert(answer.take(2) =~= query.take(2));
    assert(answer.skip(answer.len() - 4) =~= PORTAL_IP@);
}

// ---------- Addresses ----------
/// What is read of an address request.
pub struct DhcpRequest {
    /// The address the client holds, or none.
    pub ciaddr: [u8; 4],
    /// The address of a relay, or none.
    pub giaddr: [u8; 4],
    /// Whether the client asks for a broadcast.
    pub broadcast: bool,
}

/// Whether `edge_dhcp::Packet::decode` accepts a packet.
pub uninterp spec fn dhcp_accepted(packet: Seq<u8>) -> bool;

/// `edge_dhcp::Packet::decode`: what is accepted has the name `dhcp_accepted`. Of
/// what is accepted the client's address is bytes 12 to 15, the relay's bytes 24
/// to 27, and the client asks for a broadcast with the upper bit of byte 11.
#[verifier::external_body]
fn dhcp_decode(packet: &[u8]) -> (r: Option<DhcpRequest>)
    ensures
        r is Some == dhcp_accepted(packet@),
        r matches Some(d) ==> {
            &&& packet@.len() >= 28
            &&& d.ciaddr@ == packet@.subrange(12, 16)
            &&& d.giaddr@ == packet@.subrange(24, 28)
            &&& d.broadcast == (packet@[11] >= 128)
        },
{
    let p = edge_dhcp::Packet::decode(packet).ok()?;
    let (ciaddr, giaddr) = (p.ciaddr.octets(), p.giaddr.octets());
    Some(DhcpRequest { ciaddr, giaddr, broadcast: p.broadcast })
}

/// `edge_dhcp::server::Server`: addresses leased to clients.
#[verifier::external_type_specification]
#[verifier::external_body]
#[verifier::reject_recursive_types(F)]
pub struct ExServer<F, const N: usize>(edge_dhcp::server::Server<F, N>);

/// The leases that a server holds, in the order it keeps them: an address, the
/// client it is leased to, and when the lease ends.
pub uninterp spec fn leases_of(server: edge_dhcp::server::Server<(), 4>) -> Seq<
    (Seq<u8>, Seq<u8>, u64),
>;

/// What `edge_dhcp::server::Server::handle_request` makes of a request, given the
/// leases, the time in seconds, the server's own address, that of the name
/// server, the portal's URL and the room for the answer: the encoded answer, if
/// there is one, and the leases afterwards.
pub uninterp spec fn dhcp_handled(
    leases: Seq<(Seq<u8>, Seq<u8>, u64)>,
    now: u64,
    ip: Seq<u8>,
    dns: Seq<u8>,
    url: Seq<char>,
    request: Seq<u8>,
    room: nat,
) -> (Option<Seq<u8>>, Seq<(Seq<u8>, Seq<u8>, u64)>);

/// Whether an address is one of those that a server with the address `ip` leases.
pub open spec fn in_pool(addr: Seq<u8>, ip: Seq<u8>) -> bool {
    addr.len() == 4 && addr[0] == ip[0] && addr[1] == ip[1] && addr[2] == ip[2] && 50 <= addr[3]
        <= 200
}

/// Whether all leases are of addresses that a server with the address `ip`
/// leases.
pub open spec fn pooled(leases: Seq<(Seq<u8>, Seq<u8>, u64)>, ip: Seq<u8>) -> bool {
    forall|i: int| 0 <= i < leases.len() ==> in_pool((#[trigger] leases[i]).0, ip)
}

/// The value of the first option with a code, at or behind `at`: options follow
/// each other, each a code, a length and as many bytes, up to an end mark.
pub open spec fn option_from(packet: Seq<u8>, at: int, code: u8) -> Option<Seq<u8>>
    decreases
            if at <= packet.len() {
                packet.len() - at
            } else {
                0
            },
{
    if at < 0 || at + 2 > packet.len() || packet[at] == 255 {
        None
    } else if packet[at] == code {
        Some(packet.subrange(at + 2, at + 2 + packet[at + 1]))
    } else {
        option_from(packet, at + 2 + packet[at + 1], code)
    }
}

/// Whether a packet looks for a server to get an address from: a request of
/// message type 1, not meant for any server in particular.
pub open spec fn is_discover(packet: Seq<u8>) -> bool {
    &&& dhcp_accepted(packet)
    &&& packet[0] != 2
    &&& option_from(packet, 240, 53) == Some(seq![1u8])
    &&& option_from(packet, 240, 54) is None
}

/// Whether an answer goes with a request: it is a reply, with the request's
/// number and the client's hardware address.
pub open spec fn answers(answer: Seq<u8>, request: Seq<u8>) -> bool {
    &&& answer.len() >= 272
    &&& answer[0] == 2
    &&& answer.subrange(4, 8) == request.subrange(4, 8)
    &&& answer.subrange(28, 44) == request.subrange(28, 44)
}

/// Whether an answer tells what its request asks for by a code: the value stands
/// in the option of that code, if the code is in the request's list.
pub open spec fn tells(answer: Seq<u8>, request: Seq<u8>, code: u8, value: Seq<u8>) -> bool {
    option_from(request, 240, 55) is Some && option_from(request, 240, 55)->0.contains(code)
        ==> option_from(answer, 240, code) == Some(value)
}

/// The address that an answer hands out.
pub open spec fn offered(answer: Seq<u8>) -> Seq<u8> {
    answer.subrange(16, 20)
}

/// `edge_dhcp::server::Server::new`: a server without leases.
#[verifier::external_body]
fn dhcp_server(ip: [u8; 4]) -> (server: edge_dhcp::server::Server<(), 4>)
    ensures
        leases_of(server) == Seq::<(Seq<u8>, Seq<u8>, u64)>::empty(),
{
    let s = edge_dhcp::server::Server::<_, 4>::new(|| 0u64, ip.into());
    let (range_start, range_end) = (s.range_start, s.range_end);
    edge_dhcp::server::Server { now: (), range_start, range_end, leases: s.leases }
}

/// `edge_dhcp::server::Server::handle_request`, on a request as it arrived, with
/// the answer as it is sent. The server's own address is also the gateway, the
/// lease time and the subnet are those of `ServerOptions::new`, and the clock
/// stands still at `now`. Answer and leases have the name `dhcp_handled`. An
/// answer is a reply to the request, no longer than there is room for. One that
/// hands out an address tells the gateway, the name server and the URL to a client
/// that asks for them. Addresses leased and handed out are those of the pool, from
/// .50 to .200 in the server's network. A client that looks for a server is handed
/// one: there are more addresses than leases.
#[verifier::external_body]
fn dhcp_handle(
    server: &mut edge_dhcp::server::Server<(), 4>,
    now: u64,
    ip: [u8; 4],
    dns: [u8; 4],
    url: &str,
    request: &[u8],
    room: usize,
) -> (r: Option<Vec<u8>>)
    requires
        now <= u64::MAX - 7200,
    ensures
        ({
            let handled = dhcp_handled(
                leases_of(*old(server)),
                now,
                ip@,
                dns@,
                url@,
                request@,
                room as nat,
            );
            &&& leases_of(*final(server)) == handled.1
            &&& match r {
                Some(bytes) => handled.0 == Some(bytes@),
                None => handled.0 is None,
            }
        }),
        r matches Some(bytes) ==> bytes@.len() <= room && answers(bytes@, request@),
        r matches Some(bytes) ==> unspecified(offered(bytes@)) || crate::text::byte_len(url@) > 255
            || {
            &&& tells(bytes@, request@, 3, ip@)
            &&& tells(bytes@, request@, 6, dns@)
            &&& tells(bytes@, request@, 114, vstd::utf8::encode_utf8(url@))
        },
        pooled(leases_of(*old(server)), ip@) ==> {
            &&& pooled(leases_of(*final(server)), ip@)
            &&& r matches Some(bytes) ==> unspecified(offered(bytes@)) || in_pool(
                offered(bytes@),
                ip@,
            )
        },
        is_discover(request@) && room >= 300 + crate::text::byte_len(url@) ==> (r matches Some(
            bytes,
        ) && (pooled(leases_of(*old(server)), ip@) ==> in_pool(offered(bytes@), ip@))),
{
    let packet = Packet::decode(request).ok()?;
    let mut gateway = [ip.into()];
    let servers = [dns.into()];
    let mut options = ServerOptions::new(ip.into(), Some(&mut gateway));
    options.dns = &servers;
    options.captive_url = Some(url);
    let mut s = Server::<_, 4>::new(move || now, ip.into());
    core::mem::swap(&mut s.leases, &mut server.leases);
    let mut buf = Options::buf();
    let reply = s.handle_request(&mut buf, &options, &packet);
    core::mem::swap(&mut s.leases, &mut server.leases);
    let mut out = vec![0u8; room];
    Some(reply?.encode(&mut out).ok()?.to_vec())
}

/// Where an answer goes.
pub struct Destination {
    pub ip: [u8; 4],
    pub port: u16,
}

/// No address.
pub open spec fn unspecified(ip: Seq<u8>) -> bool {
    ip[0] == 0 && ip[1] == 0 && ip[2] == 0 && ip[3] == 0
}

fn is_unspecified(ip: [u8; 4]) -> (r: bool)
    ensures
        r == unspecified(ip@),
{
    ip[0] == 0 && ip[1] == 0 && ip[2] == 0 && ip[3] == 0
}

/// Where the answer to a request goes: back through the relay it came from; to
/// the client, if it has an address and asks for no broadcast; to everyone
/// otherwise.
pub fn destination(request: &DhcpRequest) -> (d: Destination)
    ensures
        if !unspecified(request.giaddr@) {
            d.ip == request.giaddr && d.port == 67
        } else if !unspecified(request.ciaddr@) && !request.broadcast {
            d.ip == request.ciaddr && d.port == 68
        } else {
            d.ip@ == seq![255u8, 255, 255, 255] && d.port == 68
        },
{
    if !is_unspecified(request.giaddr) {
        Destination { ip: request.giaddr, port: 67 }
    } else if !is_unspecified(request.ciaddr) && !request.broadcast {
        Destination { ip: request.ciaddr, port: 68 }
    } else {
        let ip: [u8; 4] = [255, 255, 255, 255];
        assert(ip@ =~= seq![255u8, 255, 255, 255]);
        Destination { ip, port: 68 }
    }
}

/// Whether an answer hands out an address: bytes 16 to 19 name one.
pub fn hands_out_address(answer: &[u8]) -> (r: bool)
    requires
        answer@.len() >= 20,
    ensures
        r == !unspecified(offered(answer@)),
{
    answer[16] != 0 || answer[17] != 0 || answer[18] != 0 || answer[19] != 0
}

/// Clients counted so far, with one more that was handed an address: never more
/// than fit the card.
pub fn count_client(clients: u8, handed_out: bool) -> (n: u8)
    ensures
        n == (if handed_out {
            if clients < 9 {
                clients + 1
            } else {
                9
            }
        } else {
            clients as int
        }),
{
    if !handed_out {
        clients
    } else if clients < 9 {
        clients + 1
    } else {
        9
    }
}

/// The server that hands out addresses.
pub struct AddressServer {
    pub server: edge_dhcp::server::Server<(), 4>,
}

/// An answer to an address request.
pub struct DhcpAnswer {
    pub bytes: Vec<u8>,
    pub to: Destination,
    /// Whether it hands out an address.
    pub handed_out: bool,
}

impl AddressServer {
    pub open spec fn leases(self) -> Seq<(Seq<u8>, Seq<u8>, u64)> {
        leases_of(self.server)
    }

    /// Nothing is leased but addresses of the setup network.
    pub open spec fn valid(self) -> bool {
        pooled(self.leases(), PORTAL_IP@)
    }

    /// A server without leases.
    pub fn new() -> (s: AddressServer)
        ensures
            s.leases() == Seq::<(Seq<u8>, Seq<u8>, u64)>::empty(),
            s.valid(),
    {
        AddressServer { server: dhcp_server(PORTAL_IP) }
    }

    /// Answers a request that arrived `now` seconds after the start. What is no
    /// request changes nothing and gets no answer. A client that looks for an
    /// address is offered one, and what is handed out is an address of the setup
    /// network. A client that asks for them is told that gateway and name server
    /// are the portal itself, and where the form is.
    pub fn answer(&mut self, request: &[u8], now: u64) -> (r: Option<DhcpAnswer>)
        requires
            old(self).valid(),
            now <= u64::MAX - 7200,
        ensures
            final(self).valid(),
            is_discover(request@) ==> (r matches Some(a) && a.handed_out),
            r matches Some(a) ==> {
                &&& answers(a.bytes@, request@)
                &&& a.handed_out ==> {
                    &&& in_pool(offered(a.bytes@), PORTAL_IP@)
                    &&& tells(a.bytes@, request@, 3, PORTAL_IP@)
                    &&& tells(a.bytes@, request@, 6, PORTAL_IP@)
                    &&& tells(a.bytes@, request@, 114, vstd::utf8::encode_utf8(PORTAL_URL@))
                }
            },
            !dhcp_accepted(request@) ==> r is None && final(self).leases() == old(self).leases(),
            dhcp_accepted(request@) ==> {
                let handled = dhcp_handled(
                    old(self).leases(),
                    now,
                    PORTAL_IP@,
                    PORTAL_IP@,
                    PORTAL_URL@,
                    request@,
                    DHCP_REPLY_BYTES as nat,
                );
                &&& final(self).leases() == handled.1
                &&& match r {
                    Some(a) => {
                        &&& handled.0 == Some(a.bytes@)
                        &&& a.handed_out == !unspecified(offered(a.bytes@))
                        &&& goes_to(a.to, request@)
                    },
                    None => handled.0 is None,
                }
            },
    {
        proof {
            reveal_strlit("http://192.168.4.1");
            assert(crate::text::byte_len(PORTAL_URL@) <= 4 * PORTAL_URL@.len()) by {
                crate::text::lemma_byte_len_bound(PORTAL_URL@);
            }
        }
        let decoded = match dhcp_decode(request) {
            Some(d) => d,
            None => {
                return None;
            },
        };
        let bytes = match dhcp_handle(
            &mut self.server,
            now,
            PORTAL_IP,
            PORTAL_IP,
            PORTAL_URL,
            request,
            DHCP_REPLY_BYTES,
        ) {
            Some(b) => b,
            None => {
                return None;
            },
        };
        let to = destination(&decoded);
        let handed_out = hands_out_address(&bytes);
        Some(DhcpAnswer { bytes, to, handed_out })
    }
}

/// Whether a destination is the one that a request asks for.
pub open spec fn goes_to(d: Destination, request: Seq<u8>) -> bool {
    let ciaddr = request.subrange(12, 16);
    let giaddr = request.subrange(24, 28);
    if !unspecified(giaddr) {
        d.ip@ == giaddr && d.port == 67
    } else if !unspecified(ciaddr) && request[11] < 128 {
        d.ip@ == ciaddr && d.port == 68
    } else {
        d.ip@ == seq![255u8, 255, 255, 255] && d.port == 68
    }
}

} // verus!
