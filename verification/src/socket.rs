//! The connection endpoints: the state machines of a listening
//! multi-client server and a single connecting client, the parsing of
//! IPv4 socket addresses, and the per-connection reader and writer task
//! decisions. Opening sockets, spawning tasks and moving bytes are the
//! caller's side; everything decided here — address validation, the
//! peer registry, queueing, cooperative stop — is verified.

use vstd::prelude::*;
use vstd::utf8::encode_utf8;

use crate::error::{Error, IoErrorKind};
use crate::msg::{Message, MessageFormat};
use crate::text::{
    dec_val,
    digits_end,
    is_digit_byte,
    lemma_digits_end_unique,
    lemma_pow10_increases,
    lemma_pow10_pos,
    lemma_pow10_values,
    pow10,
};

verus! {

/// The digits starting at `i` form a decimal number of at most `max_len`
/// digits and value at most `max_val`, with no leading zero.
pub open spec fn number_ok(b: Seq<u8>, i: int, max_len: int, max_val: int) -> bool {
    let j = digits_end(b, i);
    &&& 1 <= j - i <= max_len
    &&& (j - i > 1 ==> b[i] != 0x30)
    &&& dec_val(b, i, j) <= max_val
}

/// The value of the decimal number starting at `i`.
pub open spec fn number_val(b: Seq<u8>, i: int) -> int {
    dec_val(b, i, digits_end(b, i))
}

/// A parsed IPv4 socket address: four octets and a port.
#[derive(Debug, Clone, Copy, PartialEq, Eq, Structural)]
pub struct SockAddrV4 {
    pub o1: u8,
    pub o2: u8,
    pub o3: u8,
    pub o4: u8,
    pub port: u16,
}

/// The IPv4 socket address denoted by the UTF-8 bytes of an input
/// string: four dot-separated decimal octets, a colon, and a decimal
/// port, with nothing around them; or nothing when the input has any
/// other shape.
pub open spec fn spec_parse_addr(b: Seq<u8>) -> Option<SockAddrV4> {
    let e1 = digits_end(b, 0);
    let s2 = e1 + 1;
    let e2 = digits_end(b, s2);
    let s3 = e2 + 1;
    let e3 = digits_end(b, s3);
    let s4 = e3 + 1;
    let e4 = digits_end(b, s4);
    let s5 = e4 + 1;
    if number_ok(b, 0, 3, 255) && e1 < b.len() && b[e1] == 0x2e && number_ok(b, s2, 3, 255) && e2
        < b.len() && b[e2] == 0x2e && number_ok(b, s3, 3, 255) && e3 < b.len() && b[e3] == 0x2e
        && number_ok(b, s4, 3, 255) && e4 < b.len() && b[e4] == 0x3a && number_ok(b, s5, 5, 0xffff)
        && digits_end(b, s5) == b.len() {
        Some(
            (SockAddrV4 {
                o1: number_val(b, 0) as u8,
                o2: number_val(b, s2) as u8,
                o3: number_val(b, s3) as u8,
                o4: number_val(b, s4) as u8,
                port: number_val(b, s5) as u16,
            }),
        )
    } else {
        None
    }
}

/// Scans the decimal number starting at `start`: at most `max_len`
/// digits, no leading zero, value at most `max_val`; yields the value
/// and the index just past the digits.
fn scan_number(b: &[u8], start: usize, max_len: usize, max_val: u32) -> (r: Option<(u32, usize)>)
    requires
        start <= b@.len(),
        1 <= max_len <= 5,
        max_val < 0x8000_0000,
    ensures
        match r {
            Some((val, end)) => {
                &&& number_ok(b@, start as int, max_len as int, max_val as int)
                &&& end == digits_end(b@, start as int)
                &&& start < end <= b@.len()
                &&& val == number_val(b@, start as int)
                &&& val <= max_val
            },
            None => !number_ok(b@, start as int, max_len as int, max_val as int),
        },
{
    let n = b.len();
    let mut j = start;
    while j < n && *vstd::slice::slice_index_get(b, j) >= 0x30 && *vstd::slice::slice_index_get(
        b,
        j,
    ) <= 0x39
        invariant
            start <= j <= n,
            n == b@.len(),
            forall|k: int| start <= k < j ==> is_digit_byte(#[trigger] b@[k]),
        decreases n - j,
    {
        j = j + 1;
    }
    proof {
        lemma_digits_end_unique(b@, start as int, j as int);
    }
    if j == start || j - start > max_len {
        return None;
    }
    if j - start > 1 && *vstd::slice::slice_index_get(b, start) == 0x30 {
        return None;
    }
    let mut val: u32 = 0;
    let mut k = start;
    while k < j
        invariant
            start <= k <= j <= n,
            n == b@.len(),
            j - start <= max_len <= 5,
            forall|q: int| start <= q < j ==> is_digit_byte(#[trigger] b@[q]),
            val == dec_val(b@, start as int, k as int),
            val < pow10((k - start) as nat),
        decreases j - k,
    {
        let d = *vstd::slice::slice_index_get(b, k);
        proof {
            lemma_pow10_values();
            lemma_pow10_pos((k - start) as nat);
            assert(val * 10 + (d - 0x30) < pow10((k + 1 - start) as nat)) by (nonlinear_arith)
                requires
                    val < pow10((k - start) as nat),
                    0x30 <= d <= 0x39,
                    pow10((k + 1 - start) as nat) == 10 * pow10((k - start) as nat),
            ;
            lemma_pow10_increases((k + 1 - start) as nat, 5);
        }
        val = val * 10 + ((d - 0x30) as u32);
        k = k + 1;
    }
    if val > max_val {
        return None;
    }
    Some((val, j))
}

/// Parses an IPv4 socket address of the form `a.b.c.d:port`; any other
/// input is rejected with an address-parse error carrying the offending
/// string.
pub fn parse_sock_addr(s: &str) -> (r: Result<SockAddrV4, Error>)
    ensures
        match r {
            Ok(a) => spec_parse_addr(encode_utf8(s@)) == Some(a),
            Err(e) => {
                &&& spec_parse_addr(encode_utf8(s@)) is None
                &&& e matches Error::AddrParse { invalid_addr } && invalid_addr@ == s@
            },
        },
{
    let b = s.as_bytes();
    let parsed = parse_addr_bytes(b);
    match parsed {
        Some(a) => Ok(a),
        None => Err(Error::AddrParse { invalid_addr: s.to_owned() }),
    }
}

/// Parses the UTF-8 bytes of an IPv4 socket address.
fn parse_addr_bytes(b: &[u8]) -> (r: Option<SockAddrV4>)
    ensures
        r == spec_parse_addr(b@),
{
    let n = b.len();
    let (o1, e1) = match scan_number(b, 0, 3, 255) {
        Some(v) => v,
        None => {
            return None;
        },
    };
    if e1 >= n || *vstd::slice::slice_index_get(b, e1) != 0x2e {
        return None;
    }
    let (o2, e2) = match scan_number(b, e1 + 1, 3, 255) {
        Some(v) => v,
        None => {
            return None;
        },
    };
    if e2 >= n || *vstd::slice::slice_index_get(b, e2) != 0x2e {
        return None;
    }
    let (o3, e3) = match scan_number(b, e2 + 1, 3, 255) {
        Some(v) => v,
        None => {
            return None;
        },
    };
    if e3 >= n || *vstd::slice::slice_index_get(b, e3) != 0x2e {
        return None;
    }
    let (o4, e4) = match scan_number(b, e3 + 1, 3, 255) {
        Some(v) => v,
        None => {
            return None;
        },
    };
    if e4 >= n || *vstd::slice::slice_index_get(b, e4) != 0x3a {
        return None;
    }
    let (port, e5) = match scan_number(b, e4 + 1, 5, 0xffff) {
        Some(v) => v,
        None => {
            return None;
        },
    };
    if e5 != n {
        return None;
    }
    Some(
        SockAddrV4 {
            o1: o1 as u8,
            o2: o2 as u8,
            o3: o3 as u8,
            o4: o4 as u8,
            port: port as u16,
        },
    )
}

/// The address a server listens on when the caller names none: any
/// ephemeral port on the loopback interface.
pub open spec fn requested_addr(addr: Option<&str>) -> Seq<char> {
    match addr {
        Some(s) => s@,
        None => "127.0.0.1:0"@,
    }
}

/// One registered peer of a server: its address and the queue of
/// messages waiting to be written to it.
#[derive(Debug)]
pub struct Peer {
    pub addr: String,
    pub outbox: Vec<Message>,
}

/// The queues of `pre` after appending `msg` to peer `i`'s, all else
/// unchanged.
pub open spec fn sent_to(pre: Seq<Peer>, post: Seq<Peer>, i: int, msg: Message) -> bool {
    &&& post.len() == pre.len()
    &&& post[i].addr == pre[i].addr
    &&& post[i].outbox@ == pre[i].outbox@.push(msg)
    &&& forall|j: int| 0 <= j < pre.len() && j != i ==> post[j] == pre[j]
}

/// The listening endpoint: a schema shared with every connection, the
/// running state, the address listened on, and one registered peer per
/// live client connection. The accept loop, reader and writer tasks
/// that move bytes live with the caller and drive this state machine
/// through its methods.
#[derive(Debug)]
pub struct Server {
    pub fmt: MessageFormat,
    pub running: bool,
    pub listen_addr: Option<String>,
    pub peers: Vec<Peer>,
}

impl Server {
    /// Registered peer addresses are distinct: the registry is a map
    /// from address to queue.
    pub open spec fn wf(&self) -> bool {
        forall|i: int, j: int|
            #![trigger self.peers@[i].addr@, self.peers@[j].addr@]
            0 <= i < j < self.peers@.len() ==> self.peers@[i].addr@ != self.peers@[j].addr@
    }

    /// Some peer is registered under this address.
    pub open spec fn has_peer(&self, addr: Seq<char>) -> bool {
        exists|i: int| 0 <= i < self.peers@.len() && #[trigger] self.peers@[i].addr@ == addr
    }

    pub fn new(fmt: MessageFormat) -> (s: Server)
        ensures
            s.fmt == fmt,
            !s.running,
            s.listen_addr is None,
            s.peers@.len() == 0,
            s.wf(),
    {
        Server { fmt, running: false, listen_addr: None, peers: Vec::new() }
    }

    /// The address the server listens on while running.
    pub fn listen_addr(&self) -> (r: &Option<String>)
        ensures
            r == &self.listen_addr,
    {
        &self.listen_addr
    }

    /// How many client connections are registered.
    pub fn client_len(&self) -> (r: usize)
        ensures
            r == self.peers@.len(),
    {
        self.peers.len()
    }

    /// Validates the requested listen address (the loopback ephemeral
    /// default when none is given) and enters the running state; a
    /// string that is not an IPv4 socket address is rejected and the
    /// state left untouched.
    pub fn run(&mut self, listen_addr: Option<&str>) -> (r: Result<(), Error>)
        requires
            !old(self).running,
        ensures
            r is Ok <==> spec_parse_addr(encode_utf8(requested_addr(listen_addr))) is Some,
            final(self).fmt == old(self).fmt,
            final(self).peers == old(self).peers,
            final(self).wf() == old(self).wf(),
            r is Ok ==> final(self).running && (final(self).listen_addr matches Some(a) && a@
                == requested_addr(listen_addr)),
            r matches Err(e) ==> {
                &&& !final(self).running
                &&& final(self).listen_addr == old(self).listen_addr
                &&& e matches Error::AddrParse { invalid_addr } && invalid_addr@ == requested_addr(
                    listen_addr,
                )
            },
    {
        let addr_str: &str = match listen_addr {
            Some(s) => s,
            None => "127.0.0.1:0",
        };
        match parse_sock_addr(addr_str) {
            Ok(_) => {
                self.running = true;
                self.listen_addr = Some(addr_str.to_owned());
                Ok(())
            },
            Err(e) => Err(e),
        }
    }

    /// Records the concrete local address the listening socket was
    /// bound to, as reported once the caller has opened it — the
    /// requested address may have named an ephemeral port.
    pub fn set_listen_addr(&mut self, addr: String)
        requires
            old(self).running,
        ensures
            final(self).listen_addr == Some(addr),
            final(self).fmt == old(self).fmt,
            final(self).running == old(self).running,
            final(self).peers == old(self).peers,
    {
        self.listen_addr = Some(addr);
    }

    /// Registers a newly accepted client connection under its address,
    /// with an empty queue; an address already registered gets a fresh
    /// queue in place of its old one. A connection accepted after the
    /// server stopped running is not registered.
    pub fn register_client(&mut self, addr: String) -> (r: bool)
        requires
            old(self).wf(),
        ensures
            r == old(self).running,
            final(self).fmt == old(self).fmt,
            final(self).running == old(self).running,
            final(self).listen_addr == old(self).listen_addr,
            final(self).wf(),
            !old(self).running ==> final(self).peers == old(self).peers,
            old(self).running ==> {
                &&& final(self).has_peer(addr@)
                &&& if old(self).has_peer(addr@) {
                    exists|i: int|
                        {
                            &&& 0 <= i < old(self).peers@.len()
                            &&& #[trigger] old(self).peers@[i].addr@ == addr@
                            &&& final(self).peers@.len() == old(self).peers@.len()
                            &&& final(self).peers@[i].addr@ == addr@
                            &&& final(self).peers@[i].outbox@.len() == 0
                            &&& forall|j: int|
                                0 <= j < old(self).peers@.len() && j != i ==> final(self).peers@[j]
                                    == old(self).peers@[j]
                        }
                } else {
                    &&& final(self).peers@.len() == old(self).peers@.len() + 1
                    &&& final(self).peers@[old(self).peers@.len() as int].addr == addr
                    &&& final(self).peers@[old(self).peers@.len() as int].outbox@.len() == 0
                    &&& forall|j: int|
                        0 <= j < old(self).peers@.len() ==> final(self).peers@[j] == old(
                            self,
                        ).peers@[j]
                }
            },
    {
        if !self.running {
            return false;
        }
        let n = self.peers.len();
        let mut idx: usize = 0;
        while idx < n
            invariant
                *self == *old(self),
                old(self).wf(),
                old(self).running,
                n == self.peers@.len(),
                idx <= n,
                forall|j: int| 0 <= j < idx ==> #[trigger] self.peers@[j].addr@ != addr@,
            decreases n - idx,
        {
            if self.peers[idx].addr == addr {
                self.peers.remove(idx);
                self.peers.insert(idx, Peer { addr, outbox: Vec::new() });
                proof {
                    assert(self.peers@[idx as int].addr@ == addr@);
                    assert(forall|j: int|
                        0 <= j < old(self).peers@.len() && j != idx ==> self.peers@[j] == old(
                            self,
                        ).peers@[j]);
                    assert(forall|i: int, j: int|
                        #![trigger self.peers@[i].addr@, self.peers@[j].addr@]
                        0 <= i < j < self.peers@.len() ==> self.peers@[i].addr@
                            != self.peers@[j].addr@);
                }
                return true;
            }
            idx = idx + 1;
        }
        self.peers.push(Peer { addr, outbox: Vec::new() });
        proof {
            assert(self.peers@[self.peers@.len() - 1].addr@ == addr@);
            assert(forall|i: int, j: int|
                #![trigger self.peers@[i].addr@, self.peers@[j].addr@]
                0 <= i < j < self.peers@.len() ==> self.peers@[i].addr@ != self.peers@[j].addr@);
        }
        true
    }

    /// Looks the target address up in the registry and queues the
    /// message for that peer's writer, in send order; an address with no
    /// registered peer is reported, and nothing is queued.
    pub fn send_msg(&mut self, addr: &str, msg: Message) -> (r: Result<(), Error>)
        requires
            old(self).wf(),
        ensures
            final(self).fmt == old(self).fmt,
            final(self).running == old(self).running,
            final(self).listen_addr == old(self).listen_addr,
            final(self).wf(),
            r is Ok <==> old(self).has_peer(addr@),
            r is Ok ==> exists|i: int|
                {
                    &&& 0 <= i < old(self).peers@.len()
                    &&& #[trigger] old(self).peers@[i].addr@ == addr@
                    &&& sent_to(old(self).peers@, final(self).peers@, i, msg)
                },
            r matches Err(e) ==> {
                &&& final(self).peers == old(self).peers
                &&& e matches Error::NoSuchClient { addr: a } && a@ == addr@
            },
    {
        let n = self.peers.len();
        let mut idx: usize = 0;
        while idx < n
            invariant
                *self == *old(self),
                old(self).wf(),
                n == self.peers@.len(),
                idx <= n,
                forall|j: int| 0 <= j < idx ==> #[trigger] self.peers@[j].addr@ != addr@,
            decreases n - idx,
        {
            if compare_str(&self.peers[idx].addr, addr) {
                let mut peer = self.peers.remove(idx);
                peer.outbox.push(msg);
                self.peers.insert(idx, peer);
                proof {
                    assert(sent_to(old(self).peers@, self.peers@, idx as int, msg));
                    assert(forall|i: int, j: int|
                        #![trigger self.peers@[i].addr@, self.peers@[j].addr@]
                        0 <= i < j < self.peers@.len() ==> self.peers@[i].addr@
                            != self.peers@[j].addr@);
                }
                return Ok(());
            }
            idx = idx + 1;
        }
        Err(Error::NoSuchClient { addr: addr.to_owned() })
    }

    /// Takes the oldest queued message for the peer at `addr`, in the
    /// order `send_msg` queued them; nothing when the peer is unknown or
    /// its queue is empty.
    pub fn next_outgoing(&mut self, addr: &str) -> (r: Option<Message>)
        requires
            old(self).wf(),
        ensures
            final(self).fmt == old(self).fmt,
            final(self).running == old(self).running,
            final(self).listen_addr == old(self).listen_addr,
            final(self).wf(),
            match r {
                Some(m) => exists|i: int|
                    {
                        &&& 0 <= i < old(self).peers@.len()
                        &&& #[trigger] old(self).peers@[i].addr@ == addr@
                        &&& old(self).peers@[i].outbox@.len() > 0
                        &&& m == old(self).peers@[i].outbox@[0]
                        &&& final(self).peers@.len() == old(self).peers@.len()
                        &&& final(self).peers@[i].addr == old(self).peers@[i].addr
                        &&& final(self).peers@[i].outbox@ == old(self).peers@[i].outbox@.drop_first()
                        &&& forall|j: int|
                            0 <= j < old(self).peers@.len() && j != i ==> final(self).peers@[j]
                                == old(self).peers@[j]
                    },
                None => final(self).peers == old(self).peers && (forall|i: int|
                    0 <= i < old(self).peers@.len() && #[trigger] old(self).peers@[i].addr@ == addr@
                        ==> old(self).peers@[i].outbox@.len() == 0),
            },
    {
        let n = self.peers.len();
        let mut idx: usize = 0;
        while idx < n
            invariant
                *self == *old(self),
                old(self).wf(),
                n == self.peers@.len(),
                idx <= n,
                forall|j: int| 0 <= j < idx ==> #[trigger] self.peers@[j].addr@ != addr@,
            decreases n - idx,
        {
            if compare_str(&self.peers[idx].addr, addr) {
                if self.peers[idx].outbox.len() == 0 {
                    proof {
                        assert forall|i: int|
                            0 <= i < self.peers@.len() && #[trigger] self.peers@[i].addr@
                                == addr@ implies self.peers@[i].outbox@.len() == 0 by {
                            if i < idx {
                            } else if i > idx {
                                assert(self.peers@[idx as int].addr@ != self.peers@[i].addr@);
                            }
                        }
                    }
                    return None;
                }
                let mut peer = self.peers.remove(idx);
                let m = peer.outbox.remove(0);
                self.peers.insert(idx, peer);
                proof {
                    assert(old(self).peers@[idx as int].outbox@.remove(0) =~= old(
                        self,
                    ).peers@[idx as int].outbox@.drop_first());
                    assert(forall|j: int|
                        0 <= j < old(self).peers@.len() && j != idx ==> self.peers@[j] == old(
                            self,
                        ).peers@[j]);
                    assert(forall|i: int, j: int|
                        #![trigger self.peers@[i].addr@, self.peers@[j].addr@]
                        0 <= i < j < self.peers@.len() ==> self.peers@[i].addr@
                            != self.peers@[j].addr@);
                }
                return Some(m);
            }
            idx = idx + 1;
        }
        None
    }

    /// Leaves the running state and clears the peer registry, closing
    /// every per-peer queue; the caller joins its tasks before this
    /// returns to them. Stopping an endpoint that never ran is a usage
    /// error.
    pub fn stop(&mut self)
        requires
            old(self).running,
        ensures
            !final(self).running,
            final(self).listen_addr is None,
            final(self).peers@.len() == 0,
            final(self).fmt == old(self).fmt,
            final(self).wf(),
    {
        self.running = false;
        self.listen_addr = None;
        self.peers.clear();
    }
}

/// Whether two strings hold the same characters.
fn compare_str(a: &String, b: &str) -> (r: bool)
    ensures
        r == (a@ == b@),
{
    let bs = b.to_owned();
    *a == bs
}

/// The connecting endpoint: a schema shared with the server, the
/// running state, the local address bound to, and the queue of messages
/// waiting for the writer task.
#[derive(Debug)]
pub struct Client {
    pub fmt: MessageFormat,
    pub running: bool,
    pub bind_addr: Option<String>,
    pub outbox: Vec<Message>,
}

impl Client {
    pub fn new(fmt: MessageFormat) -> (c: Client)
        ensures
            c.fmt == fmt,
            !c.running,
            c.bind_addr is None,
            c.outbox@.len() == 0,
    {
        Client { fmt, running: false, bind_addr: None, outbox: Vec::new() }
    }

    /// The local address the client is bound to while connected.
    pub fn bind_addr(&self) -> (r: &Option<String>)
        ensures
            r == &self.bind_addr,
    {
        &self.bind_addr
    }

    /// Validates the connect address and, when one is given, the local
    /// bind address, and enters the running state with an empty send
    /// queue; a string that is not an IPv4 socket address is rejected,
    /// the connect address first, and the state left untouched.
    pub fn run(&mut self, bind_addr: Option<&str>, connect_addr: &str) -> (r: Result<(), Error>)
        requires
            !old(self).running,
        ensures
            final(self).fmt == old(self).fmt,
            r is Ok <==> spec_parse_addr(encode_utf8(connect_addr@)) is Some && (
            bind_addr matches Some(ba) ==> spec_parse_addr(encode_utf8(ba@)) is Some),
            r is Ok ==> {
                &&& final(self).running
                &&& final(self).outbox@.len() == 0
                &&& match bind_addr {
                    Some(ba) => final(self).bind_addr matches Some(a) && a@ == ba@,
                    None => final(self).bind_addr is None,
                }
            },
            r matches Err(e) ==> {
                &&& !final(self).running
                &&& final(self).bind_addr == old(self).bind_addr
                &&& final(self).outbox == old(self).outbox
                &&& (e matches Error::AddrParse { invalid_addr } && (invalid_addr@ == connect_addr@
                    || (bind_addr matches Some(ba) && invalid_addr@ == ba@)))
                &&& (e matches Error::AddrParse { invalid_addr } && invalid_addr@ == connect_addr@
                    ==> spec_parse_addr(encode_utf8(connect_addr@)) is None)
            },
    {
        match parse_sock_addr(connect_addr) {
            Ok(_) => {},
            Err(e) => {
                return Err(e);
            },
        }
        match bind_addr {
            Some(ba) => {
                match parse_sock_addr(ba) {
                    Ok(_) => {
                        self.bind_addr = Some(ba.to_owned());
                    },
                    Err(e) => {
                        return Err(e);
                    },
                }
            },
            None => {
                self.bind_addr = None;
            },
        }
        self.running = true;
        self.outbox = Vec::new();
        Ok(())
    }

    /// Records the concrete local address the socket was bound to, as
    /// reported once the caller has opened it.
    pub fn set_bind_addr(&mut self, addr: String)
        requires
            old(self).running,
        ensures
            final(self).bind_addr == Some(addr),
            final(self).fmt == old(self).fmt,
            final(self).running == old(self).running,
            final(self).outbox == old(self).outbox,
    {
        self.bind_addr = Some(addr);
    }

    /// Queues a message for the writer task, in send order; a client
    /// with no active connection reports it instead.
    pub fn send_msg(&mut self, msg: Message) -> (r: Result<(), Error>)
        ensures
            final(self).fmt == old(self).fmt,
            final(self).running == old(self).running,
            final(self).bind_addr == old(self).bind_addr,
            r is Ok <==> old(self).running,
            r is Ok ==> final(self).outbox@ == old(self).outbox@.push(msg),
            r matches Err(e) ==> final(self).outbox == old(self).outbox && e
                == Error::NotConnected,
    {
        if self.running {
            self.outbox.push(msg);
            Ok(())
        } else {
            Err(Error::NotConnected)
        }
    }

    /// Takes the oldest queued message, in the order `send_msg` queued
    /// them; nothing when the queue is empty.
    pub fn next_outgoing(&mut self) -> (r: Option<Message>)
        ensures
            final(self).fmt == old(self).fmt,
            final(self).running == old(self).running,
            final(self).bind_addr == old(self).bind_addr,
            match r {
                Some(m) => old(self).outbox@.len() > 0 && m == old(self).outbox@[0]
                    && final(self).outbox@ == old(self).outbox@.drop_first(),
                None => old(self).outbox@.len() == 0 && final(self).outbox == old(self).outbox,
            },
    {
        if self.outbox.len() == 0 {
            None
        } else {
            let m = self.outbox.remove(0);
            proof {
                assert(old(self).outbox@.remove(0) =~= old(self).outbox@.drop_first());
            }
            Some(m)
        }
    }

    /// Leaves the running state, closing the send queue; the caller
    /// joins its reader and writer tasks before this returns to them.
    /// Stopping a client that never ran is a usage error.
    pub fn stop(&mut self)
        requires
            old(self).running,
        ensures
            !final(self).running,
            final(self).bind_addr is None,
            final(self).outbox@.len() == 0,
            final(self).fmt == old(self).fmt,
    {
        self.running = false;
        self.bind_addr = None;
        self.outbox = Vec::new();
    }
}

/// What one blocking read attempt came back with, as the transport
/// classifies it: `n` bytes arrived, or an I/O failure of some kind.
#[derive(Debug, Clone, Copy, PartialEq, Eq, Structural)]
pub enum ReadEvent {
    Data { n: usize },
    Failed { kind: IoErrorKind },
}

/// What a reader does next after one read attempt.
#[derive(Debug, Clone, PartialEq)]
pub enum ReadStep {
    /// The current field's bytes are complete.
    Done,
    /// Some bytes arrived; keep reading the rest.
    More,
    /// Nothing yet; sleep a fixed backoff interval and retry.
    Retry,
    /// Reading this message is over, for the reason carried.
    Fail(Error),
}

/// Decides how a reader waiting for the `len` bytes of one field, with
/// `cnt` of them already in hand, proceeds after a read attempt: a read
/// of zero bytes short of the field is the peer closing; a reset peer
/// ends the stream; would-block, timeout and interruption are retried
/// until the cooperative stop flag is observed; any other failure is an
/// I/O error.
pub fn read_step(cnt: usize, len: usize, event: ReadEvent, stop_requested: bool) -> (r: ReadStep)
    requires
        cnt <= len,
        event matches ReadEvent::Data { n } ==> n <= len - cnt,
    ensures
        r == match event {
            ReadEvent::Data { n } => if cnt + n == len {
                ReadStep::Done
            } else if n == 0 {
                ReadStep::Fail(Error::EndOfStream)
            } else {
                ReadStep::More
            },
            ReadEvent::Failed { kind } => match kind {
                IoErrorKind::ConnectionReset => ReadStep::Fail(Error::EndOfStream),
                IoErrorKind::WouldBlock | IoErrorKind::TimedOut | IoErrorKind::Interrupted => if stop_requested {
                    ReadStep::Fail(Error::Stopped)
                } else {
                    ReadStep::Retry
                },
                IoErrorKind::Other => ReadStep::Fail(Error::Io { kind }),
            },
        },
{
    match event {
        ReadEvent::Data { n } => {
            if cnt + n == len {
                ReadStep::Done
            } else if n == 0 {
                ReadStep::Fail(Error::EndOfStream)
            } else {
                ReadStep::More
            }
        },
        ReadEvent::Failed { kind } => match kind {
            IoErrorKind::ConnectionReset => ReadStep::Fail(Error::EndOfStream),
            IoErrorKind::WouldBlock | IoErrorKind::TimedOut | IoErrorKind::Interrupted => {
                if stop_requested {
                    ReadStep::Fail(Error::Stopped)
                } else {
                    ReadStep::Retry
                }
            },
            IoErrorKind::Other => ReadStep::Fail(Error::Io { kind }),
        },
    }
}

/// Whether a per-connection reader task ends on this outcome: the peer
/// closing and the cooperative stop are its normal termination; any
/// other failure is reported and the task reads on.
pub fn reader_should_exit(outcome: &Result<Message, Error>) -> (r: bool)
    ensures
        r == (outcome matches Err(e) && (e is EndOfStream || e is Stopped)),
{
    match outcome {
        Err(Error::EndOfStream) => true,
        Err(Error::Stopped) => true,
        _ => false,
    }
}

/// Whether a per-connection writer task ends on this outcome: it exits
/// on an OS-level write failure and otherwise keeps serving its queue.
pub fn writer_should_exit(outcome: &Result<(), Error>) -> (r: bool)
    ensures
        r == (outcome matches Err(e) && e is Io),
{
    match outcome {
        Err(Error::Io { .. }) => true,
        _ => false,
    }
}

} // verus!
