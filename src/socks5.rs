use vstd::prelude::*;

use vstd::utf8::encode_utf8;

use crate::dns::{decode_lossy, lossy_text};
use crate::registry::{ProxyConfig, ProxyType};

verus! {

/// An IP address as its octets.
#[derive(Debug, Clone, Copy, PartialEq, Eq)]
pub enum IpAddress {
    V4([u8; 4]),
    V6([u8; 16]),
}

/// An IP address and a port.
#[derive(Debug, Clone, Copy, PartialEq, Eq)]
pub struct SocketAddress {
    pub ip: IpAddress,
    pub port: u16,
}

/// The errors of the SOCKS5 exchanges.
#[derive(Debug, Clone, Copy, PartialEq, Eq, Structural)]
pub enum ProxyError {
    /// The peer broke the protocol: a wrong version, a short or malformed
    /// message, an address type that is not known.
    Protocol,
    /// No acceptable authentication, or the credentials were refused.
    Auth,
    /// The upstream refused the CONNECT; the reply code is kept.
    Connect(u8),
    /// The upstream speaks a protocol that is not implemented.
    Unsupported,
}

/// The two bytes of a port, most significant first.
pub open spec fn port_bytes(port: u16) -> Seq<u8> {
    seq![(port / 256) as u8, (port % 256) as u8]
}

/// The address type byte and the octets of an address.
pub open spec fn ip_wire(ip: IpAddress) -> Seq<u8> {
    match ip {
        IpAddress::V4(o) => seq![1u8] + o@,
        IpAddress::V6(o) => seq![4u8] + o@,
    }
}

/// An address as SOCKS5 writes it: type, octets, port.
pub open spec fn address_wire(a: SocketAddress) -> Seq<u8> {
    ip_wire(a.ip) + port_bytes(a.port)
}

fn push_port(out: &mut Vec<u8>, port: u16)
    ensures
        final(out)@ == old(out)@ + port_bytes(port),
{
    out.push((port / 256) as u8);
    out.push((port % 256) as u8);
    assert(final(out)@ =~= old(out)@ + port_bytes(port));
}

/// Appends the address as SOCKS5 writes it.
fn push_address(out: &mut Vec<u8>, a: &SocketAddress)
    ensures
        final(out)@ == old(out)@ + address_wire(*a),
{
    let ghost start = out@;
    match a.ip {
        IpAddress::V4(o) => {
            out.push(1u8);
            let mut i: usize = 0;
            while i < 4
                invariant
                    i <= 4,
                    out@ == start + seq![1u8] + o@.subrange(0, i as int),
                decreases 4 - i,
            {
                out.push(o[i]);
                i += 1;
                assert(out@ =~= start + seq![1u8] + o@.subrange(0, i as int));
            }
            assert(o@.subrange(0, 4) =~= o@);
        },
        IpAddress::V6(o) => {
            out.push(4u8);
            let mut i: usize = 0;
            while i < 16
                invariant
                    i <= 16,
                    out@ == start + seq![4u8] + o@.subrange(0, i as int),
                decreases 16 - i,
            {
                out.push(o[i]);
                i += 1;
                assert(out@ =~= start + seq![4u8] + o@.subrange(0, i as int));
            }
            assert(o@.subrange(0, 16) =~= o@);
        },
    }
    push_port(out, a.port);
    assert(final(out)@ =~= start + address_wire(*a));
}

// ---------------------------------------------------------------------------
// Server side: a client greets us and asks for a destination.

/// What the server does after reading a message from its client.
#[derive(Debug)]
pub enum ServerAction {
    /// Send these bytes and go on.
    Reply(Vec<u8>),
    /// Send these bytes, then close.
    ReplyAndClose(Vec<u8>),
    /// Close without a reply.
    Close,
}

/// Whether `b` offers the method "no authentication" among its first
/// `count` methods (which start at index 2).
pub open spec fn offers_no_auth(b: Seq<u8>, count: int) -> bool {
    exists|i: int| 2 <= i < 2 + count && b[i] == 0u8
}

/// A greeting that can be answered: version 5, a method count, and as many
/// methods as it announces.
pub open spec fn greeting_well_formed(b: Seq<u8>) -> bool {
    b.len() >= 2 && b[0] == 5u8 && b.len() >= 2 + b[1] as int
}

/// Answers a client's greeting: "no authentication" when the client offers
/// it, "no acceptable method" and close when it does not; a greeting that is
/// short, of another version or truncated closes the connection unanswered.
pub fn answer_greeting(b: &[u8]) -> (r: ServerAction)
    ensures
        !greeting_well_formed(b@) ==> r is Close,
        greeting_well_formed(b@) && offers_no_auth(b@, b@[1] as int) ==> (r matches ServerAction::Reply(v)
            && v@ == seq![5u8, 0u8]),
        greeting_well_formed(b@) && !offers_no_auth(b@, b@[1] as int) ==> (
        r matches ServerAction::ReplyAndClose(v) && v@ == seq![5u8, 0xffu8]),
{
    let n = b.len();
    if n < 2 || b[0] != 5 {
        return ServerAction::Close;
    }
    let count = b[1] as usize;
    if n - 2 < count {
        return ServerAction::Close;
    }
    let mut i: usize = 0;
    while i < count
        invariant
            count == b@[1] as int,
            greeting_well_formed(b@),
            2 + count <= b@.len(),
            i <= count,
            forall|j: int| 2 <= j < 2 + i ==> b@[j] != 0u8,
        decreases count - i,
    {
        if b[2 + i] == 0 {
            let v = vec![5u8, 0u8];
            assert(v@ =~= seq![5u8, 0u8]);
            return ServerAction::Reply(v);
        }
        i += 1;
    }
    let v = vec![5u8, 0xffu8];
    assert(v@ =~= seq![5u8, 0xffu8]);
    ServerAction::ReplyAndClose(v)
}

/// The destination a client asks for.
#[derive(Debug)]
pub enum Destination {
    Address(SocketAddress),
    /// A domain, to be resolved by the server, and the port.
    Domain(String, u16),
}

/// What the server does with a request message.
#[derive(Debug)]
pub enum RequestOutcome {
    /// Connect to this destination.
    Connect(Destination),
    /// Refuse: reply and close, or close.
    Refuse(ServerAction),
}

/// The reply for a command other than CONNECT.
pub open spec fn command_not_supported_reply() -> Seq<u8> {
    seq![5u8, 7u8, 0u8, 1u8, 0u8, 0u8, 0u8, 0u8, 0u8, 0u8]
}

/// The reply for an address type that is not known.
pub open spec fn address_type_not_supported_reply() -> Seq<u8> {
    seq![5u8, 8u8, 0u8, 1u8, 0u8, 0u8, 0u8, 0u8, 0u8, 0u8]
}

/// The reply when the destination cannot be reached or resolved.
pub open spec fn general_failure_reply() -> Seq<u8> {
    seq![5u8, 1u8, 0u8, 1u8, 0u8, 0u8, 0u8, 0u8, 0u8, 0u8]
}

/// The port stored big-endian at `b[i]`, `b[i + 1]`.
pub open spec fn port_at(b: Seq<u8>, i: int) -> u16 {
    (b[i] as int * 256 + b[i + 1] as int) as u16
}

fn read_port(b: &[u8], i: usize) -> (r: u16)
    requires
        i + 1 < b@.len(),
    ensures
        r == port_at(b@, i as int),
{
    (b[i] as u16) * 256 + (b[i + 1] as u16)
}

/// The general-failure reply.
pub fn general_failure() -> (r: Vec<u8>)
    ensures
        r@ == general_failure_reply(),
{
    let r = vec![5u8, 1u8, 0u8, 1u8, 0u8, 0u8, 0u8, 0u8, 0u8, 0u8];
    assert(r@ =~= general_failure_reply());
    r
}

/// What reading a request gives: a message shorter than its header or of
/// another version closes unanswered; another command is refused with "command not supported"; an
/// IPv4, IPv6 or domain destination is read with its port (a truncated one
/// closes unanswered); another address type is refused with "address type
/// not supported".
pub open spec fn request_outcome_spec(b: Seq<u8>, r: RequestOutcome) -> bool {
    &&& (b.len() < 4 || b[0] != 5u8 ==> (r matches RequestOutcome::Refuse(a) && a is Close))
    &&& (b.len() >= 4 && b[0] == 5u8 && b[1] != 1u8 ==> (r matches RequestOutcome::Refuse(a) && (
    a matches ServerAction::ReplyAndClose(v) && v@ == command_not_supported_reply())))
    &&& (b.len() >= 4 && b[0] == 5u8 && b[1] == 1u8 && b[3] == 1u8 ==> (if b.len() < 10 {
        (r matches RequestOutcome::Refuse(a) && a is Close)
    } else {
        (r matches RequestOutcome::Connect(Destination::Address(a)) && (a.ip matches IpAddress::V4(o)
            && o@ == b.subrange(4, 8)) && a.port == port_at(b, 8))
    }))
    &&& (b.len() >= 4 && b[0] == 5u8 && b[1] == 1u8 && b[3] == 4u8 ==> (if b.len() < 22 {
        (r matches RequestOutcome::Refuse(a) && a is Close)
    } else {
        (r matches RequestOutcome::Connect(Destination::Address(a)) && (a.ip matches IpAddress::V6(o)
            && o@ == b.subrange(4, 20)) && a.port == port_at(b, 20))
    }))
    &&& (b.len() >= 4 && b[0] == 5u8 && b[1] == 1u8 && b[3] == 3u8 ==> (if b.len() < 5 || b.len()
        < 7 + b[4] as int {
        (r matches RequestOutcome::Refuse(a) && a is Close)
    } else {
        (r matches RequestOutcome::Connect(Destination::Domain(d, port)) && d@ == lossy_text(
            b.subrange(5, 5 + b[4] as int),
        ) && port == port_at(b, 5 + b[4] as int))
    }))
    &&& (b.len() >= 4 && b[0] == 5u8 && b[1] == 1u8 && b[3] != 1u8 && b[3] != 3u8 && b[3]
        != 4u8 ==> (r matches RequestOutcome::Refuse(a) && (a matches ServerAction::ReplyAndClose(v)
        && v@ == address_type_not_supported_reply())))
}

/// Reads a client's request. Only CONNECT is served; an IPv4, IPv6 or domain
/// destination is read with its port. Another command or address type is
/// refused with its reply; a message of another version, or one shorter than
/// its header or its address needs, closes the connection unanswered.
pub fn parse_request(b: &[u8]) -> (r: RequestOutcome)
    ensures
        request_outcome_spec(b@, r),
{
    let n = b.len();
    if n < 4 || b[0] != 5 {
        return RequestOutcome::Refuse(ServerAction::Close);
    }
    if b[1] != 1 {
        let v = vec![5u8, 7u8, 0u8, 1u8, 0u8, 0u8, 0u8, 0u8, 0u8, 0u8];
        assert(v@ =~= command_not_supported_reply());
        return RequestOutcome::Refuse(ServerAction::ReplyAndClose(v));
    }
    let atyp = b[3];
    if atyp == 1 {
        if n < 10 {
            return RequestOutcome::Refuse(ServerAction::Close);
        }
        let o: [u8; 4] = [b[4], b[5], b[6], b[7]];
        assert(o@ =~= b@.subrange(4, 8));
        let ip = IpAddress::V4(o);
        let port = read_port(b, 8);
        RequestOutcome::Connect(Destination::Address(SocketAddress { ip, port }))
    } else if atyp == 3 {
        if n < 5 {
            return RequestOutcome::Refuse(ServerAction::Close);
        }
        let len = b[4] as usize;
        if n < 7 + len {
            return RequestOutcome::Refuse(ServerAction::Close);
        }
        let mut bytes: Vec<u8> = Vec::new();
        let mut i: usize = 5;
        while i < 5 + len
            invariant
                5 <= i <= 5 + len,
                len < 256,
                7 + len <= b@.len(),
                bytes@ == b@.subrange(5, i as int),
            decreases 5 + len - i,
        {
            bytes.push(b[i]);
            i += 1;
        }
        let domain = decode_lossy(bytes.as_slice());
        let port = read_port(b, 5 + len);
        RequestOutcome::Connect(Destination::Domain(domain, port))
    } else if atyp == 4 {
        if n < 22 {
            return RequestOutcome::Refuse(ServerAction::Close);
        }
        let mut o: [u8; 16] = [0u8; 16];
        let mut i: usize = 0;
        while i < 16
            invariant
                i <= 16,
                22 <= b@.len(),
                o@.len() == 16,
                forall|j: int| 0 <= j < i ==> o@[j] == b@[4 + j],
            decreases 16 - i,
        {
            o[i] = b[4 + i];
            i += 1;
        }
        assert(o@ =~= b@.subrange(4, 20));
        let port = read_port(b, 20);
        RequestOutcome::Connect(Destination::Address(SocketAddress { ip: IpAddress::V6(o), port }))
    } else {
        let v = vec![5u8, 8u8, 0u8, 1u8, 0u8, 0u8, 0u8, 0u8, 0u8, 0u8];
        assert(v@ =~= address_type_not_supported_reply());
        RequestOutcome::Refuse(ServerAction::ReplyAndClose(v))
    }
}

/// The success reply once the destination is connected: it carries the
/// destination's own address and port.
pub fn connect_success_reply(dest: &SocketAddress) -> (r: Vec<u8>)
    ensures
        r@ == seq![5u8, 0u8, 0u8] + address_wire(*dest),
{
    let mut r: Vec<u8> = vec![5u8, 0u8, 0u8];
    let ghost start = r@;
    push_address(&mut r, dest);
    assert(start =~= seq![5u8, 0u8, 0u8]);
    r
}

/// Where an inbound SOCKS5 connection stands.
#[derive(Debug, Clone, Copy, PartialEq, Eq, Structural)]
pub enum ServerState {
    Greeting,
    Request,
    Connecting,
    Relaying,
    Closed,
}

/// The server's side of one inbound SOCKS5 connection. The caller reads and
/// writes the socket; the session decides what to send and when to close.
#[derive(Debug)]
pub struct Socks5ServerSession {
    pub state: ServerState,
}

impl Socks5ServerSession {
    /// A session waiting for the client's greeting.
    pub fn new() -> (r: Socks5ServerSession)
        ensures
            r.state == ServerState::Greeting,
    {
        Socks5ServerSession { state: ServerState::Greeting }
    }

    /// Handles the greeting. A greeting of another version than 5, or one
    /// that is empty, closes the connection without a reply; the session is
    /// then over and nothing else is affected.
    pub fn on_greeting(&mut self, b: &[u8]) -> (r: ServerAction)
        requires
            old(self).state == ServerState::Greeting,
        ensures
            !greeting_well_formed(b@) ==> r is Close,
            (b@.len() == 0 || b@[0] != 5u8) ==> r is Close && final(self).state == ServerState::Closed,
            greeting_well_formed(b@) && offers_no_auth(b@, b@[1] as int) ==> (
            r matches ServerAction::Reply(v) && v@ == seq![5u8, 0u8]),
            greeting_well_formed(b@) && !offers_no_auth(b@, b@[1] as int) ==> (
            r matches ServerAction::ReplyAndClose(v) && v@ == seq![5u8, 0xffu8]),
            r is Reply ==> final(self).state == ServerState::Request,
            !(r is Reply) ==> final(self).state == ServerState::Closed,
    {
        let r = answer_greeting(b);
        match r {
            ServerAction::Reply(_) => {
                self.state = ServerState::Request;
            },
            _ => {
                self.state = ServerState::Closed;
            },
        }
        r
    }

    /// Handles the request; a destination moves the session on to
    /// connecting, a refusal closes it.
    pub fn on_request(&mut self, b: &[u8]) -> (r: RequestOutcome)
        requires
            old(self).state == ServerState::Request,
        ensures
            r is Connect ==> final(self).state == ServerState::Connecting,
            r is Refuse ==> final(self).state == ServerState::Closed,
            request_outcome_spec(b@, r),
    {
        let r = parse_request(b);
        match r {
            RequestOutcome::Connect(_) => {
                self.state = ServerState::Connecting;
            },
            RequestOutcome::Refuse(_) => {
                self.state = ServerState::Closed;
            },
        }
        r
    }

    /// Handles the outcome of resolving and connecting to the destination:
    /// the address connected to, or none when resolution or the connection
    /// failed. Success is answered with that address and starts the relay;
    /// failure is answered with a general failure and closes.
    pub fn on_connect_result(&mut self, connected: Option<SocketAddress>) -> (r: ServerAction)
        requires
            old(self).state == ServerState::Connecting,
        ensures
            connected matches Some(a) ==> (r matches ServerAction::Reply(v) && v@ == seq![5u8, 0u8, 0u8]
                + address_wire(a)) && final(self).state == ServerState::Relaying,
            connected is None ==> (r matches ServerAction::ReplyAndClose(v) && v@
                == general_failure_reply()) && final(self).state == ServerState::Closed,
    {
        match connected {
            Some(a) => {
                self.state = ServerState::Relaying;
                ServerAction::Reply(connect_success_reply(&a))
            },
            None => {
                self.state = ServerState::Closed;
                ServerAction::ReplyAndClose(general_failure())
            },
        }
    }

    /// The relay has ended: the session is over.
    pub fn on_relay_end(&mut self)
        requires
            old(self).state == ServerState::Relaying,
        ensures
            final(self).state == ServerState::Closed,
    {
        self.state = ServerState::Closed;
    }
}

// ---------------------------------------------------------------------------
// Client side: this gateway dials an upstream SOCKS5 proxy.

/// The greeting: version 5 and the methods offered, user/password and
/// none when credentials are configured, else none alone.
pub open spec fn client_greeting(has_credentials: bool) -> Seq<u8> {
    if has_credentials {
        seq![5u8, 2u8, 2u8, 0u8]
    } else {
        seq![5u8, 1u8, 0u8]
    }
}

/// A length-prefixed field of the user/password sub-negotiation.
pub open spec fn auth_field(s: Seq<char>) -> Seq<u8> {
    seq![(encode_utf8(s).len() % 256) as u8] + encode_utf8(s)
}

/// The user/password request: version 1, then the user and the password.
pub open spec fn auth_request(user: Seq<char>, pass: Seq<char>) -> Seq<u8> {
    seq![1u8] + auth_field(user) + auth_field(pass)
}

/// The CONNECT request for a destination.
pub open spec fn connect_request(target: SocketAddress) -> Seq<u8> {
    seq![5u8, 1u8, 0u8] + address_wire(target)
}

/// The text of an optional string, empty when absent.
pub open spec fn text_or_empty(o: Option<String>) -> Seq<char> {
    match o {
        Some(s) => s@,
        None => Seq::empty(),
    }
}

/// Where the dial of an upstream proxy stands.
#[derive(Debug, Clone, Copy, PartialEq, Eq, Structural)]
pub enum ClientState {
    AwaitMethod,
    AwaitAuth,
    AwaitReplyHeader,
    AwaitBoundLength,
    AwaitBound,
    Done,
    Failed,
}

/// What the dialer does next.
#[derive(Debug)]
pub enum ClientStep {
    /// Send these bytes, then read exactly `read` bytes and hand them back.
    Exchange { send: Vec<u8>, read: usize },
    /// Read exactly this many bytes and hand them back.
    Read(usize),
    /// The tunnel is established.
    Done,
    /// The dial failed.
    Fail(ProxyError),
}

/// The client's side of a SOCKS5 dial: the messages it will send and where
/// it stands.
#[derive(Debug)]
pub struct ClientHandshake {
    pub state: ClientState,
    pub has_credentials: bool,
    pub auth: Vec<u8>,
    pub connect: Vec<u8>,
}

fn append_vec(out: &mut Vec<u8>, b: &Vec<u8>)
    ensures
        final(out)@ == old(out)@ + b@,
{
    let mut i: usize = 0;
    while i < b.len()
        invariant
            i <= b@.len(),
            out@ == old(out)@ + b@.subrange(0, i as int),
        decreases b@.len() - i,
    {
        out.push(b[i]);
        i += 1;
        assert(out@ =~= old(out)@ + b@.subrange(0, i as int));
    }
    assert(b@.subrange(0, b@.len() as int) =~= b@);
}

fn push_auth_field(out: &mut Vec<u8>, s: &str)
    ensures
        final(out)@ == old(out)@ + auth_field(s@),
{
    let b = s.as_bytes_vec();
    out.push((b.len() % 256) as u8);
    append_vec(out, &b);
    assert(final(out)@ =~= old(out)@ + auth_field(s@));
}

fn text_of(o: &Option<String>) -> (r: &str)
    ensures
        r@ == text_or_empty(*o),
{
    match o {
        Some(s) => s.as_str(),
        None => {
            proof {
                reveal_strlit("");
            }
            ""
        },
    }
}

/// A client that dials destinations through one upstream proxy.
#[derive(Debug)]
pub struct Socks5Client {
    pub proxy_config: ProxyConfig,
}

impl Socks5Client {
    pub fn new(proxy_config: ProxyConfig) -> (r: Socks5Client)
        ensures
            r.proxy_config == proxy_config,
    {
        Socks5Client { proxy_config }
    }

    /// Starts a dial of `target` through the proxy: the handshake and the
    /// greeting to send, after which two bytes are to be read. Only SOCKS5
    /// proxies can be dialed. Credentials count as configured when a user
    /// name is set; a missing password is sent empty.
    pub fn start_handshake(&self, target: &SocketAddress) -> (r: Result<(ClientHandshake, Vec<u8>), ProxyError>)
        ensures
            self.proxy_config.proxy_type != ProxyType::Socks5 ==> r == Err::<(ClientHandshake, Vec<u8>), ProxyError>(ProxyError::Unsupported),
            self.proxy_config.proxy_type == ProxyType::Socks5 ==> (r matches Ok((h, g)) && h.state
                == ClientState::AwaitMethod && h.has_credentials == self.proxy_config.username.is_some()
                && g@ == client_greeting(h.has_credentials) && h.auth@ == auth_request(
                text_or_empty(self.proxy_config.username),
                text_or_empty(self.proxy_config.password),
            ) && h.connect@ == connect_request(*target)),
    {
        if self.proxy_config.proxy_type != ProxyType::Socks5 {
            return Err(ProxyError::Unsupported);
        }
        let has_credentials = self.proxy_config.username.is_some();
        let greeting = if has_credentials {
            vec![5u8, 2u8, 2u8, 0u8]
        } else {
            vec![5u8, 1u8, 0u8]
        };
        assert(greeting@ =~= client_greeting(has_credentials));
        let mut auth: Vec<u8> = vec![1u8];
        push_auth_field(&mut auth, text_of(&self.proxy_config.username));
        push_auth_field(&mut auth, text_of(&self.proxy_config.password));
        assert(auth@ =~= auth_request(
            text_or_empty(self.proxy_config.username),
            text_or_empty(self.proxy_config.password),
        ));
        let mut connect: Vec<u8> = vec![5u8, 1u8, 0u8];
        let ghost start = connect@;
        push_address(&mut connect, target);
        assert(start =~= seq![5u8, 1u8, 0u8]);
        let h = ClientHandshake { state: ClientState::AwaitMethod, has_credentials, auth, connect };
        Ok((h, greeting))
    }
}

fn copy_vec(v: &Vec<u8>) -> (r: Vec<u8>)
    ensures
        r@ == v@,
{
    let mut r: Vec<u8> = Vec::new();
    append_vec(&mut r, v);
    r
}

impl ClientHandshake {
    /// Takes the bytes read for the last step and says what comes next.
    /// The method choice must be version 5; user/password is negotiated
    /// when chosen and credentials exist, no authentication goes straight to
    /// CONNECT, any other choice fails. The sub-negotiation must answer
    /// `[1, 0]`. The CONNECT reply must be version 5 with code 0, else the
    /// dial fails with that code; then the bound address (4 or 16 bytes, or a
    /// length byte and that many) and the port are read and discarded.
    pub fn on_input(&mut self, input: &[u8]) -> (r: ClientStep)
        requires
            old(self).state == ClientState::AwaitMethod ==> input@.len() == 2,
            old(self).state == ClientState::AwaitAuth ==> input@.len() == 2,
            old(self).state == ClientState::AwaitReplyHeader ==> input@.len() == 4,
            old(self).state == ClientState::AwaitBoundLength ==> input@.len() == 1,
            old(self).state != ClientState::Done && old(self).state != ClientState::Failed,
        ensures
            final(self).has_credentials == old(self).has_credentials,
            final(self).auth == old(self).auth,
            final(self).connect == old(self).connect,
            r is Fail <==> final(self).state == ClientState::Failed,
            r is Done <==> final(self).state == ClientState::Done,
            old(self).state == ClientState::AwaitMethod ==> {
                if input@[0] != 5u8 {
                    r == ClientStep::Fail(ProxyError::Protocol)
                } else if input@[1] == 2u8 && old(self).has_credentials {
                    (r matches ClientStep::Exchange { send, read } && send@ == old(self).auth@ && read
                        == 2) && final(self).state == ClientState::AwaitAuth
                } else if input@[1] == 0u8 {
                    (r matches ClientStep::Exchange { send, read } && send@ == old(self).connect@
                        && read == 4) && final(self).state == ClientState::AwaitReplyHeader
                } else {
                    r == ClientStep::Fail(ProxyError::Auth)
                }
            },
            old(self).state == ClientState::AwaitAuth ==> {
                if input@[0] == 1u8 && input@[1] == 0u8 {
                    (r matches ClientStep::Exchange { send, read } && send@ == old(self).connect@
                        && read == 4) && final(self).state == ClientState::AwaitReplyHeader
                } else {
                    r == ClientStep::Fail(ProxyError::Auth)
                }
            },
            old(self).state == ClientState::AwaitReplyHeader ==> {
                if input@[0] != 5u8 || input@[1] != 0u8 {
                    r == ClientStep::Fail(ProxyError::Connect(input@[1]))
                } else if input@[3] == 1u8 {
                    r == ClientStep::Read(6) && final(self).state == ClientState::AwaitBound
                } else if input@[3] == 4u8 {
                    r == ClientStep::Read(18) && final(self).state == ClientState::AwaitBound
                } else if input@[3] == 3u8 {
                    r == ClientStep::Read(1) && final(self).state == ClientState::AwaitBoundLength
                } else {
                    r == ClientStep::Fail(ProxyError::Protocol)
                }
            },
            old(self).state == ClientState::AwaitBoundLength ==> (r matches ClientStep::Read(n) && n == input@[0] + 2) && final(self).state == ClientState::AwaitBound,
            old(self).state == ClientState::AwaitBound ==> r is Done,
    {
        match self.state {
            ClientState::AwaitMethod => {
                if input[0] != 5 {
                    self.state = ClientState::Failed;
                    ClientStep::Fail(ProxyError::Protocol)
                } else if input[1] == 2 && self.has_credentials {
                    self.state = ClientState::AwaitAuth;
                    ClientStep::Exchange { send: copy_vec(&self.auth), read: 2 }
                } else if input[1] == 0 {
                    self.state = ClientState::AwaitReplyHeader;
                    ClientStep::Exchange { send: copy_vec(&self.connect), read: 4 }
                } else {
                    self.state = ClientState::Failed;
                    ClientStep::Fail(ProxyError::Auth)
                }
            },
            ClientState::AwaitAuth => {
                if input[0] == 1 && input[1] == 0 {
                    self.state = ClientState::AwaitReplyHeader;
                    ClientStep::Exchange { send: copy_vec(&self.connect), read: 4 }
                } else {
                    self.state = ClientState::Failed;
                    ClientStep::Fail(ProxyError::Auth)
                }
            },
            ClientState::AwaitReplyHeader => {
                if input[0] != 5 || input[1] != 0 {
                    self.state = ClientState::Failed;
                    ClientStep::Fail(ProxyError::Connect(input[1]))
                } else if input[3] == 1 {
                    self.state = ClientState::AwaitBound;
                    ClientStep::Read(6)
                } else if input[3] == 4 {
                    self.state = ClientState::AwaitBound;
                    ClientStep::Read(18)
                } else if input[3] == 3 {
                    self.state = ClientState::AwaitBoundLength;
                    ClientStep::Read(1)
                } else {
                    self.state = ClientState::Failed;
                    ClientStep::Fail(ProxyError::Protocol)
                }
            },
            ClientState::AwaitBoundLength => {
                self.state = ClientState::AwaitBound;
                ClientStep::Read(input[0] as usize + 2)
            },
            _ => {
                self.state = ClientState::Done;
                ClientStep::Done
            },
        }
    }
}

} // verus!
