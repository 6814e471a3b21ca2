//! The chat server's state and the decisions it takes on what clients send.
use vstd::prelude::*;
use vstd::utf8::encode_utf8;

use crate::protocol::{buffer_holds, message_buffer, owned, text_eq, ReadOutcome, BUF_LEN};
use crate::text::{chars_of, contains_char, trim_received, trim_received_text};

verus! {

/// Seconds after which the server stops serving.
pub const TIMEOUT_SECS: u64 = 30;

/// A chat server: the address it listens on and the ports of its clients.
#[derive(Debug, Clone)]
pub struct Server {
    ip: String,
    clients: Vec<u16>,
}

/// The values a [`Server`] holds.
pub struct ServerView {
    pub ip: Seq<char>,
    pub clients: Seq<u16>,
}

impl View for Server {
    type V = ServerView;

    closed spec fn view(&self) -> ServerView {
        ServerView { ip: self.ip@, clients: self.clients@ }
    }
}

/// What the server does after handling a message from a client.
pub enum ServerStep {
    /// Exit the process.
    Exit,
    /// Send `replies` to the client, in order; keep reading from it when
    /// `keep_connection`, else go back to accepting connections.
    Respond { replies: Vec<String>, keep_connection: bool },
}

/// The values a [`ServerStep`] holds.
pub enum StepView {
    Exit,
    Respond(Seq<Seq<char>>, bool),
}

impl View for ServerStep {
    type V = StepView;

    open spec fn view(&self) -> StepView {
        match self {
            ServerStep::Exit => StepView::Exit,
            ServerStep::Respond { replies, keep_connection } => StepView::Respond(
                reply_texts(replies@),
                *keep_connection,
            ),
        }
    }
}

/// Logging out `peer`, over the first `k` entries of a snapshot `orig` of the
/// client list: each entry equal to `peer` is removed from the live list at the
/// snapshot's index, which later removals shift. Yields the live list and the
/// number of removals, or `None` where an index lies past the live list's end
/// (the removal would panic).
pub open spec fn logout_scan(orig: Seq<u16>, peer: u16, k: nat) -> Option<(Seq<u16>, nat)>
    decreases k,
{
    if k == 0 {
        Some((orig, 0))
    } else {
        match logout_scan(orig, peer, (k - 1) as nat) {
            None => None,
            Some((cur, n)) => if k - 1 < orig.len() && orig[k - 1] == peer {
                if k - 1 < cur.len() {
                    Some((cur.remove(k - 1), n + 1))
                } else {
                    None
                }
            } else {
                Some((cur, n))
            },
        }
    }
}

/// Logging `peer` out of `clients`.
pub open spec fn logout_effect(clients: Seq<u16>, peer: u16) -> Option<(Seq<u16>, nat)> {
    logout_scan(clients, peer, clients.len())
}

/// The texts of `v`.
pub open spec fn reply_texts(v: Seq<String>) -> Seq<Seq<char>> {
    v.map_values(|r: String| r@)
}

/// `n` copies of `"LOGOUT"`.
pub open spec fn logout_replies(n: nat) -> Seq<Seq<char>> {
    Seq::new(n, |i: int| "LOGOUT"@)
}

/// The new client list and the step after the server receives `rv` from the
/// client on port `peer`; `None` where handling it would panic.
pub open spec fn server_handle(clients: Seq<u16>, rv: Seq<char>, peer: u16) -> Option<(Seq<u16>, StepView)> {
    if rv == "SERVER_SHUTDOWN"@ || rv == "S_CLIENT_CLOSE"@ {
        if clients.len() == 0 {
            Some((clients, StepView::Exit))
        } else {
            match logout_effect(clients, peer) {
                Some((rest, n)) => Some((rest, StepView::Respond(logout_replies(n), false))),
                None => None,
            }
        }
    } else if rv == "TIMEOUT_SHUTDOWN"@ {
        Some((clients, StepView::Exit))
    } else if rv == "S_RECEIVE_ERR"@ {
        Some((clients, StepView::Respond(Seq::empty(), false)))
    } else if rv == "LOGOUT"@ {
        match logout_effect(clients, peer) {
            Some((rest, n)) => Some((rest, StepView::Respond(logout_replies(n), false))),
            None => None,
        }
    } else {
        Some((clients, StepView::Respond(seq![rv], true)))
    }
}

/// Whether `rv` is one of the messages on which the server logs the sending
/// client out: `"SERVER_SHUTDOWN"`, `"S_CLIENT_CLOSE"` or `"LOGOUT"`.
pub open spec fn logout_message(rv: Seq<char>) -> bool {
    rv == "SERVER_SHUTDOWN"@ || rv == "S_CLIENT_CLOSE"@ || rv == "LOGOUT"@
}

/// The sending client's port matters only to a logout message while clients
/// are registered: otherwise handling `rv` gives the same for every port.
pub proof fn lemma_peer_only_for_logout(clients: Seq<u16>, rv: Seq<char>, p: u16, q: u16)
    requires
        !logout_message(rv) || clients.len() == 0,
    ensures
        server_handle(clients, rv, p) == server_handle(clients, rv, q),
{
}

/// A client closing its side is handled as a shutdown request from it: the
/// same client list and step for every client list and port. While clients are
/// registered neither ends the server: the step, where handling succeeds,
/// answers only `"LOGOUT"`s and drops the connection.
pub proof fn lemma_client_close_is_shutdown(clients: Seq<u16>, peer: u16)
    ensures
        server_handle(clients, "S_CLIENT_CLOSE"@, peer) == server_handle(
            clients,
            "SERVER_SHUTDOWN"@,
            peer,
        ),
        clients.len() > 0 ==> (server_handle(clients, "S_CLIENT_CLOSE"@, peer) matches Some(
            (_, StepView::Respond(replies, keep)),
        ) && !keep && forall|i: int| 0 <= i < replies.len() ==> replies[i] == "LOGOUT"@)
            || server_handle(clients, "S_CLIENT_CLOSE"@, peer) is None,
        clients.len() == 0 ==> server_handle(clients, "S_CLIENT_CLOSE"@, peer) == Some(
            (clients, StepView::Exit),
        ),
{
}

/// The text the server takes from one read of a client's stream.
pub open spec fn server_reply(read: ReadOutcome) -> Seq<char> {
    match read {
        ReadOutcome::Closed => "LOGOUT"@,
        ReadOutcome::Data(text) => if trim_received(text@).contains('$') {
            "LOGOUT"@
        } else {
            trim_received(text@)
        },
        ReadOutcome::Failed => "S_RECEIVE_ERR"@,
    }
}

impl Server {
    /// A server with no address and no clients.
    pub fn init() -> (s: Self)
        ensures
            s@.ip == Seq::<char>::empty(),
            s@.clients == Seq::<u16>::empty(),
    {
        Self { ip: String::new(), clients: Vec::new() }
    }

    /// A server that listens on `ip`, with no clients yet.
    pub fn new(ip: String) -> (s: Self)
        ensures
            s@.ip == ip@,
            s@.clients == Seq::<u16>::empty(),
    {
        Self { ip: ip, clients: Vec::new() }
    }

    /// The bytes of `s` in a zeroed buffer of 1024 bytes, and their number.
    pub fn write_into_buf(s: String) -> (r: ([u8; 1024], usize))
        requires
            encode_utf8(s@).len() <= BUF_LEN,
        ensures
            buffer_holds(r.0@, r.1 as int, s@),
    {
        message_buffer(s.as_str())
    }

    /// The address the server listens on.
    pub fn ip(&self) -> (r: &str)
        ensures
            r@ == self@.ip,
    {
        self.ip.as_str()
    }

    /// The ports of the connected clients, in the order they connected.
    pub fn clients(&self) -> (r: &[u16])
        ensures
            r@ == self@.clients,
    {
        self.clients.as_slice()
    }

    /// Records a newly accepted connection from port `port`.
    pub fn register_client(&mut self, port: u16)
        ensures
            final(self)@.ip == old(self)@.ip,
            final(self)@.clients == old(self)@.clients.push(port),
    {
        self.clients.push(port);
    }

    /// Whether the server has run past its time limit.
    pub fn timed_out(elapsed_secs: u64) -> (r: bool)
        ensures
            r == (elapsed_secs > TIMEOUT_SECS),
    {
        elapsed_secs > TIMEOUT_SECS
    }

    /// Whether the server still accepts connections, `elapsed_secs` seconds
    /// after it started.
    pub fn still_serving(elapsed_secs: u64) -> (r: bool)
        ensures
            r == (elapsed_secs < TIMEOUT_SECS),
    {
        elapsed_secs < TIMEOUT_SECS
    }

    /// Whether `rv` logs the sending client out, so that handling it needs the
    /// client's port.
    pub fn logs_out(rv: &str) -> (r: bool)
        ensures
            r == logout_message(rv@),
    {
        text_eq(rv, "SERVER_SHUTDOWN") || text_eq(rv, "S_CLIENT_CLOSE") || text_eq(rv, "LOGOUT")
    }

    /// The text the server takes from one read of a client's stream.
    pub fn reply_from_read(read: ReadOutcome) -> (r: String)
        ensures
            r@ == server_reply(read),
    {
        match read {
            ReadOutcome::Closed => owned("LOGOUT"),
            ReadOutcome::Data(text) => {
                let s = trim_received_text(text.as_str());
                let cs = chars_of(s.as_str());
                if contains_char(cs.as_slice(), '$') {
                    owned("LOGOUT")
                } else {
                    s
                }
            },
            ReadOutcome::Failed => owned("S_RECEIVE_ERR"),
        }
    }

    /// Whether handling `rv` from the client on port `peer` would fail (logging
    /// out removes past the end of the shifted client list).
    pub fn handling_fails(&self, rv: &str, peer: u16) -> (r: bool)
        ensures
            r == (server_handle(self@.clients, rv@, peer) is None),
    {
        let logs_out = if text_eq(rv, "SERVER_SHUTDOWN") || text_eq(rv, "S_CLIENT_CLOSE") {
            self.clients.len() > 0
        } else if text_eq(rv, "TIMEOUT_SHUTDOWN") || text_eq(rv, "S_RECEIVE_ERR") {
            false
        } else {
            text_eq(rv, "LOGOUT")
        };
        if !logs_out {
            return false;
        }
        let mut scratch = Server { ip: String::new(), clients: Vec::new() };
        let mut j: usize = 0;
        while j < self.clients.len()
            invariant
                j <= self.clients@.len(),
                scratch.clients@ == self.clients@.take(j as int),
            decreases self.clients@.len() - j,
        {
            scratch.clients.push(self.clients[j]);
            j = j + 1;
            assert(scratch.clients@ == self.clients@.take(j as int));
        }
        assert(self.clients@.take(self.clients@.len() as int) == self.clients@);
        scratch.logout_checked(peer).is_none()
    }

    /// Logs `peer` out of the client list; `None` (the list then in no
    /// particular state) where a removal would fall past the list's end.
    fn logout_checked(&mut self, peer: u16) -> (n: Option<usize>)
        ensures
            final(self)@.ip == old(self)@.ip,
            n is None <==> logout_effect(old(self)@.clients, peer) is None,
            n matches Some(k) ==> logout_effect(old(self)@.clients, peer) == Some(
                (final(self)@.clients, k as nat),
            ),
    {
        let ghost orig = self.clients@;
        let len = self.clients.len();
        let mut snapshot: Vec<u16> = Vec::new();
        let mut j: usize = 0;
        while j < len
            invariant
                len == orig.len(),
                self.clients@ == orig,
                j <= len,
                snapshot@ == orig.take(j as int),
            decreases len - j,
        {
            snapshot.push(self.clients[j]);
            j = j + 1;
            assert(snapshot@ == orig.take(j as int));
        }
        assert(orig.take(len as int) == orig);
        let mut n: usize = 0;
        let mut idx: usize = 0;
        while idx < len
            invariant
                len == orig.len(),
                orig == old(self)@.clients,
                self@.ip == old(self)@.ip,
                snapshot@ == orig,
                idx <= len,
                n <= idx,
                logout_scan(orig, peer, idx as nat) == Some((self.clients@, n as nat)),
            decreases len - idx,
        {
            if snapshot[idx] == peer {
                if idx >= self.clients.len() {
                    proof {
                        lemma_logout_scan_fails_after(orig, peer, (idx + 1) as nat, len as nat);
                    }
                    return None;
                }
                self.clients.remove(idx);
                n = n + 1;
            }
            idx = idx + 1;
        }
        Some(n)
    }

    /// Handles the text `rv` received from the client on port `peer` (see
    /// [`Server::handle_client`]); `None`, with nothing changed, where handling
    /// it would fail.
    pub fn handle_client_checked(&mut self, rv: &str, peer: u16) -> (r: Option<ServerStep>)
        ensures
            r is None <==> server_handle(old(self)@.clients, rv@, peer) is None,
            r is None ==> final(self)@ == old(self)@,
            r matches Some(step) ==> final(self)@.ip == old(self)@.ip && server_handle(
                old(self)@.clients,
                rv@,
                peer,
            ) == Some((final(self)@.clients, step@)),
    {
        if self.handling_fails(rv, peer) {
            None
        } else {
            Some(self.handle_client(rv, peer))
        }
    }

    /// Handles the text `rv` received from the client on port `peer`: updates
    /// the client list and says what to send back and whether to go on.
    pub fn handle_client(&mut self, rv: &str, peer: u16) -> (step: ServerStep)
        requires
            server_handle(old(self)@.clients, rv@, peer) is Some,
        ensures
            final(self)@.ip == old(self)@.ip,
            server_handle(old(self)@.clients, rv@, peer) == Some((final(self)@.clients, step@)),
    {
        if text_eq(rv, "SERVER_SHUTDOWN") || text_eq(rv, "S_CLIENT_CLOSE") {
            if self.clients.len() == 0 {
                ServerStep::Exit
            } else {
                let n = match self.logout_checked(peer) {
                    Some(n) => n,
                    None => 0,
                };
                ServerStep::Respond { replies: logout_reply_list(n), keep_connection: false }
            }
        } else if text_eq(rv, "TIMEOUT_SHUTDOWN") {
            ServerStep::Exit
        } else if text_eq(rv, "S_RECEIVE_ERR") {
            let replies: Vec<String> = Vec::new();
            assert(reply_texts(replies@) == Seq::<Seq<char>>::empty());
            ServerStep::Respond { replies, keep_connection: false }
        } else if text_eq(rv, "LOGOUT") {
            let n = match self.logout_checked(peer) {
                Some(n) => n,
                None => 0,
            };
            ServerStep::Respond { replies: logout_reply_list(n), keep_connection: false }
        } else {
            let mut replies: Vec<String> = Vec::new();
            replies.push(owned(rv));
            assert(reply_texts(replies@) == seq![rv@]);
            ServerStep::Respond { replies, keep_connection: true }
        }
    }
}

/// `n` copies of `"LOGOUT"`.
fn logout_reply_list(n: usize) -> (r: Vec<String>)
    ensures
        reply_texts(r@) == logout_replies(n as nat),
{
    let mut r: Vec<String> = Vec::new();
    let mut i: usize = 0;
    while i < n
        invariant
            i <= n,
            r@.len() == i,
            forall|k: int| 0 <= k < i ==> (#[trigger] r@[k])@ == "LOGOUT"@,
        decreases n - i,
    {
        r.push(owned("LOGOUT"));
        i = i + 1;
    }
    assert(reply_texts(r@) =~= logout_replies(n as nat));
    r
}

/// A scan that fails over some prefix fails over every longer prefix.
proof fn lemma_logout_scan_fails_after(orig: Seq<u16>, peer: u16, k: nat, m: nat)
    requires
        k <= m,
        logout_scan(orig, peer, k) is None,
    ensures
        logout_scan(orig, peer, m) is None,
    decreases m - k,
{
    if k < m {
        lemma_logout_scan_fails_after(orig, peer, k + 1, m);
    }
}

proof fn lemma_logout_scan_single(clients: Seq<u16>, peer: u16, j: int, k: nat)
    requires
        0 <= j < clients.len(),
        k <= clients.len(),
        clients[j] == peer,
        forall|i: int| 0 <= i < clients.len() && i != j ==> clients[i] != peer,
    ensures
        logout_scan(clients, peer, k) == if k <= j {
            Some((clients, 0nat))
        } else {
            Some((clients.remove(j), 1nat))
        },
    decreases k,
{
    if k > 0 {
        lemma_logout_scan_single(clients, peer, j, (k - 1) as nat);
    }
}

proof fn lemma_logout_scan_absent(clients: Seq<u16>, peer: u16, k: nat)
    requires
        k <= clients.len(),
        !clients.contains(peer),
    ensures
        logout_scan(clients, peer, k) == Some((clients, 0nat)),
    decreases k,
{
    if k > 0 {
        lemma_logout_scan_absent(clients, peer, (k - 1) as nat);
        assert(clients[k - 1] != peer);
    }
}

/// A port that is not in the client list logs out without touching the list
/// and without any reply.
pub proof fn lemma_logout_absent(clients: Seq<u16>, peer: u16)
    requires
        !clients.contains(peer),
    ensures
        logout_effect(clients, peer) == Some((clients, 0nat)),
{
    lemma_logout_scan_absent(clients, peer, clients.len());
}

/// A port that occurs once in the client list logs out by removing exactly that
/// entry, with one `"LOGOUT"` reply.
pub proof fn lemma_logout_single(clients: Seq<u16>, peer: u16, j: int)
    requires
        0 <= j < clients.len(),
        clients[j] == peer,
        forall|i: int| 0 <= i < clients.len() && i != j ==> clients[i] != peer,
    ensures
        logout_effect(clients, peer) == Some((clients.remove(j), 1nat)),
{
    lemma_logout_scan_single(clients, peer, j, clients.len());
}

/// A logout message from a client registered once logs exactly that client
/// out: its entry leaves the list, the reply is one `"LOGOUT"`, and the
/// connection is dropped.
pub proof fn lemma_logout_message_removes_sender(clients: Seq<u16>, rv: Seq<char>, peer: u16, j: int)
    requires
        logout_message(rv),
        0 <= j < clients.len(),
        clients[j] == peer,
        forall|i: int| 0 <= i < clients.len() && i != j ==> clients[i] != peer,
    ensures
        server_handle(clients, rv, peer) == Some(
            (clients.remove(j), StepView::Respond(seq!["LOGOUT"@], false)),
        ),
{
    lemma_logout_single(clients, peer, j);
    assert(logout_replies(1) == seq!["LOGOUT"@]);
    reveal_strlit("LOGOUT");
    reveal_strlit("SERVER_SHUTDOWN");
    reveal_strlit("S_CLIENT_CLOSE");
    reveal_strlit("TIMEOUT_SHUTDOWN");
    reveal_strlit("S_RECEIVE_ERR");
    assert("LOGOUT"@.len() != "SERVER_SHUTDOWN"@.len());
    assert("LOGOUT"@.len() != "S_CLIENT_CLOSE"@.len());
    assert("LOGOUT"@.len() != "TIMEOUT_SHUTDOWN"@.len());
    assert("LOGOUT"@.len() != "S_RECEIVE_ERR"@.len());
}

/// A message that is no request of the protocol is echoed back to its sender:
/// the client list stays, and the connection is kept.
pub proof fn lemma_other_messages_echo(clients: Seq<u16>, rv: Seq<char>, peer: u16)
    requires
        !logout_message(rv),
        rv != "TIMEOUT_SHUTDOWN"@,
        rv != "S_RECEIVE_ERR"@,
    ensures
        server_handle(clients, rv, peer) == Some((clients, StepView::Respond(seq![rv], true))),
{
}

} // verus!
