//! The chat client's state and the decisions it takes on what the server sends.
use vstd::prelude::*;
use vstd::utf8::encode_utf8;

use crate::pattern::{matches_pattern, pattern_matches};
use crate::protocol::{buffer_holds, message_buffer, owned, text_eq, ReadOutcome, BUF_LEN};
use crate::text::{
    append_chars, chars_of, contains_char, decimal, decimal_chars, parse_i32, parse_i32_spec,
    trim_received, trim_received_text,
};

verus! {

/// A nickname: three to twenty word characters followed by `$`.
pub const NICKNAME_PATTERN: &'static str = "^(\\w{3,20}\\$)$";

/// A dotted-quad IPv4 address, each part between 0 and 255.
pub const IP_PATTERN: &'static str = "^(?:(?:25[0-5]|2[0-4]\\d|1\\d{2}|[1-9]\\d|\\d)\\.){3}(?:25[0-5]|2[0-4]\\d|1\\d{2}|[1-9]\\d|\\d)$";

/// Seconds after which a reply no longer counts and the client logs out; a
/// session also ends once this long has passed since the last reply.
pub const REPLY_TIMEOUT_SECS: u64 = 10;

/// A chat client: its nickname, the server's address, and the ports it uses.
#[derive(Debug)]
pub struct Client {
    nickname: String,
    ip: String,
    tcp_port: i32,
    udp_port: i32,
}

/// The values a [`Client`] holds.
pub struct ClientView {
    pub nickname: Seq<char>,
    pub ip: Seq<char>,
    pub tcp_port: int,
    pub udp_port: int,
}

impl View for Client {
    type V = ClientView;

    closed spec fn view(&self) -> ClientView {
        ClientView {
            nickname: self.nickname@,
            ip: self.ip@,
            tcp_port: self.tcp_port as int,
            udp_port: self.udp_port as int,
        }
    }
}

/// The client that registration falls back to.
pub open spec fn default_client() -> ClientView {
    ClientView { nickname: "User123$"@, ip: "127.0.0.1"@, tcp_port: 5000, udp_port: 0 }
}

/// Whether a registration is accepted, given whether the nickname and the
/// address match their patterns: both must, and the TCP port must lie strictly
/// between 0 and 65535.
pub open spec fn registration_decision(nick_ok: bool, ip_ok: bool, tcp_port: int) -> bool {
    nick_ok && ip_ok && 0 < tcp_port < 65535
}

/// Whether a registration is accepted: the nickname and the address match their
/// patterns and the TCP port lies strictly between 0 and 65535.
pub open spec fn registration_accepted(nickname: Seq<char>, ip: Seq<char>, tcp_port: int) -> bool {
    registration_decision(
        pattern_matches(NICKNAME_PATTERN@, nickname),
        pattern_matches(IP_PATTERN@, ip),
        tcp_port,
    )
}

/// How the client prints itself.
pub open spec fn client_text(c: ClientView) -> Seq<char> {
    "nickname: "@ + c.nickname + ", ip: "@ + c.ip + ", tcp_port: "@ + decimal(c.tcp_port)
        + ", udp_port: "@ + decimal(c.udp_port)
}

/// The text the client takes from one read of its TCP stream, `elapsed_secs`
/// after it last heard from the server.
pub open spec fn client_reply(read: ReadOutcome, elapsed_secs: int) -> Seq<char> {
    match read {
        ReadOutcome::Closed => "C_SOCKET_CLOSED"@,
        ReadOutcome::Data(text) => if elapsed_secs > REPLY_TIMEOUT_SECS {
            "LOGOUT"@
        } else if trim_received(text@).contains('$') {
            "LOGOUT"@
        } else {
            trim_received(text@)
        },
        ReadOutcome::Failed => "CLIENT_READ_ERR"@,
    }
}

/// What the client's session loop does after a reply.
#[derive(Debug, PartialEq, Eq, Structural)]
pub enum ClientStep {
    /// Shut the stream down and exit the process.
    Exit,
    /// Log out and leave the session loop.
    Logout,
    /// Open the UDP side channel.
    OpenUdp,
    /// Leave the session loop.
    Stop,
    /// Send the next message.
    Continue,
}

/// The step for a reply.
pub open spec fn client_step(reply: Seq<char>) -> ClientStep {
    if reply == "EXIT"@ {
        ClientStep::Exit
    } else if reply == "LOGOUT"@ {
        ClientStep::Logout
    } else if reply == "UDP"@ {
        ClientStep::OpenUdp
    } else if reply == "C_SOCKED_CLOSED"@ {
        ClientStep::Stop
    } else {
        ClientStep::Continue
    }
}

impl Client {
    /// The client used when no valid registration is given.
    pub fn init() -> (c: Self)
        ensures
            c@ == default_client(),
    {
        Self { nickname: owned("User123$"), ip: owned("127.0.0.1"), tcp_port: 5000, udp_port: 0 }
    }

    /// Whether `new` accepts this registration.
    pub fn registration_valid(nickname: &str, ip: &str, tcp_port: i32) -> (r: bool)
        ensures
            r == registration_accepted(nickname@, ip@, tcp_port as int),
    {
        let nick_ok = matches_pattern(NICKNAME_PATTERN, nickname);
        let ip_ok = matches_pattern(IP_PATTERN, ip);
        Self::registration_from_matches(nick_ok, ip_ok, tcp_port)
    }

    /// Whether a registration is accepted, given whether the nickname and the
    /// address match their patterns.
    pub fn registration_from_matches(nick_ok: bool, ip_ok: bool, tcp_port: i32) -> (r: bool)
        ensures
            r == registration_decision(nick_ok, ip_ok, tcp_port as int),
    {
        nick_ok && ip_ok && tcp_port > 0 && tcp_port < 65535
    }

    /// A client registered under `nickname` for the server at `ip:tcp_port`, or
    /// the default client when the registration is invalid.
    pub fn new(nickname: String, ip: String, tcp_port: i32) -> (c: Self)
        ensures
            registration_accepted(nickname@, ip@, tcp_port as int) ==> c@ == (ClientView {
                nickname: nickname@,
                ip: ip@,
                tcp_port: tcp_port as int,
                udp_port: 0,
            }),
            !registration_accepted(nickname@, ip@, tcp_port as int) ==> c@ == default_client(),
    {
        if !Self::registration_valid(nickname.as_str(), ip.as_str(), tcp_port) {
            return Self::init();
        }
        Self { nickname: nickname, ip: ip, tcp_port: tcp_port, udp_port: 0 }
    }

    /// The bytes of `s` in a zeroed buffer of 1024 bytes, and their number.
    pub fn write_into_buf(s: String) -> (r: ([u8; 1024], usize))
        requires
            encode_utf8(s@).len() <= BUF_LEN,
        ensures
            buffer_holds(r.0@, r.1 as int, s@),
    {
        message_buffer(s.as_str())
    }

    /// The text the client takes from one read of its stream.
    pub fn reply_from_read(read: ReadOutcome, elapsed_secs: u64) -> (r: String)
        ensures
            r@ == client_reply(read, elapsed_secs as int),
    {
        match read {
            ReadOutcome::Closed => owned("C_SOCKET_CLOSED"),
            ReadOutcome::Data(text) => {
                if elapsed_secs > REPLY_TIMEOUT_SECS {
                    return owned("LOGOUT");
                }
                let s = trim_received_text(text.as_str());
                let cs = chars_of(s.as_str());
                if contains_char(cs.as_slice(), '$') {
                    owned("LOGOUT")
                } else {
                    s
                }
            },
            ReadOutcome::Failed => owned("CLIENT_READ_ERR"),
        }
    }

    /// What the session loop does after `reply`.
    pub fn step_for(reply: &str) -> (r: ClientStep)
        ensures
            r == client_step(reply@),
    {
        if text_eq(reply, "EXIT") {
            ClientStep::Exit
        } else if text_eq(reply, "LOGOUT") {
            ClientStep::Logout
        } else if text_eq(reply, "UDP") {
            ClientStep::OpenUdp
        } else if text_eq(reply, "C_SOCKED_CLOSED") {
            ClientStep::Stop
        } else {
            ClientStep::Continue
        }
    }

    /// Whether the session loop ends: `elapsed_secs` seconds have passed since
    /// the last reply, and that reaches the timeout.
    pub fn session_over(elapsed_secs: u64) -> (r: bool)
        ensures
            r == (elapsed_secs >= REPLY_TIMEOUT_SECS),
    {
        elapsed_secs >= REPLY_TIMEOUT_SECS
    }

    /// Takes the UDP port from the server's first reply.
    pub fn set_udp_port(&mut self, reply: &str)
        requires
            parse_i32_spec(reply@) is Some,
        ensures
            final(self)@ == (ClientView { udp_port: parse_i32_spec(reply@)->0, ..old(self)@ }),
    {
        let cs = chars_of(reply);
        match parse_i32(cs.as_slice()) {
            Some(p) => {
                self.udp_port = p;
            },
            None => {},
        }
    }

    /// The nickname.
    pub fn nickname(&self) -> (r: &str)
        ensures
            r@ == self@.nickname,
    {
        self.nickname.as_str()
    }

    /// The server's address.
    pub fn ip(&self) -> (r: &str)
        ensures
            r@ == self@.ip,
    {
        self.ip.as_str()
    }

    /// The server's TCP port.
    pub fn tcp_port(&self) -> (r: i32)
        ensures
            r as int == self@.tcp_port,
    {
        self.tcp_port
    }

    /// The UDP port.
    pub fn udp_port(&self) -> (r: i32)
        ensures
            r as int == self@.udp_port,
    {
        self.udp_port
    }

    /// How the client prints itself.
    pub fn to_display_string(&self) -> (r: String)
        ensures
            r@ == client_text(self@),
    {
        let mut r = owned("nickname: ");
        r.append(self.nickname.as_str());
        r.append(", ip: ");
        r.append(self.ip.as_str());
        r.append(", tcp_port: ");
        append_chars(&mut r, decimal_chars(self.tcp_port as i64).as_slice());
        r.append(", udp_port: ");
        append_chars(&mut r, decimal_chars(self.udp_port as i64).as_slice());
        r
    }
}

} // verus!
