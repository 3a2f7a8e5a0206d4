use std::collections::HashMap;
use vstd::prelude::*;
use vstd::utf8::{decode_utf8, encode_utf8, valid_utf8};

use crate::rsknet_mq::{msg_is, RuskynetMsg};
use crate::rsknet_text::{
    dec_chars, decode_text, is_word, lemma_dec_len, join_words, lemma_dec_chars, lemma_split_join, parse_u32,
    parse_u32_spec, split_whitespace, split_whitespace_words, text_bytes, u32_to_string,
};

verus! {

broadcast use vstd::std_specs::hash::group_hash_axioms;

/// The counter that numbers socket requests, starting at 1.
pub struct GlobalReqRecord {
    pub id: u32,
}

impl GlobalReqRecord {
    pub fn new() -> (r: Self)
        ensures
            r.id == 0,
    {
        GlobalReqRecord { id: 0 }
    }

    /// Hands out the next request number.
    pub fn add_req(&mut self) -> (id: u32)
        requires
            old(self).id < u32::MAX,
        ensures
            id == old(self).id + 1,
            final(self).id == id,
    {
        self.id = self.id + 1;
        self.id
    }
}

/// Kinds of socket notification, the first field of the message text.
pub const RSKNET_SOCKET_TYPE_DATA: u32 = 1;

pub const RSKNET_SOCKET_TYPE_CONNECT: u32 = 2;

pub const RSKNET_SOCKET_TYPE_ACCEPT: u32 = 4;

/// The protocol number of socket notifications.
pub const PTYPE_SOCKET: u32 = 6;

// ---------------------------------------------------------------- commands

/// A request that a service sends to the socket thread.
pub enum SocketCmd {
    /// Listen on `host:port` for service `source`, as request `req_id`.
    Listen { req_id: u32, source: u32, host: String, port: String },
    /// Hand socket `id` to service `source`.
    Start { id: u32, source: u32 },
    /// Write `data` to socket `id`.
    Send { id: u32, data: String },
    /// A request of a kind the socket thread ignores.
    Other,
}

/// A `SocketCmd` with its strings as character sequences.
pub enum SocketCmdView {
    Listen { req_id: u32, source: u32, host: Seq<char>, port: Seq<char> },
    Start { id: u32, source: u32 },
    Send { id: u32, data: Seq<char> },
    Other,
}

impl View for SocketCmd {
    type V = SocketCmdView;

    open spec fn view(&self) -> SocketCmdView {
        match self {
            SocketCmd::Listen { req_id, source, host, port } => SocketCmdView::Listen {
                req_id: *req_id,
                source: *source,
                host: host@,
                port: port@,
            },
            SocketCmd::Start { id, source } => SocketCmdView::Start { id: *id, source: *source },
            SocketCmd::Send { id, data } => SocketCmdView::Send { id: *id, data: data@ },
            SocketCmd::Other => SocketCmdView::Other,
        }
    }
}

pub open spec fn opt_cmd_view(r: Option<SocketCmd>) -> Option<SocketCmdView> {
    match r {
        Some(c) => Some(c@),
        None => None,
    }
}

/// The request that the words `w` of a command line make: the request
/// number, the kind (`1` listen, `2` start, `3` send), then the kind's
/// arguments. Nothing where the line is too short or a number does not read.
pub open spec fn socket_cmd_of(w: Seq<Seq<char>>) -> Option<SocketCmdView> {
    if w.len() < 2 {
        None
    } else if w[1] == seq!['1'] {
        if w.len() >= 5 && parse_u32_spec(w[0]) is Some && parse_u32_spec(w[2]) is Some {
            Some(
                SocketCmdView::Listen {
                    req_id: parse_u32_spec(w[0])->0,
                    source: parse_u32_spec(w[2])->0,
                    host: w[3],
                    port: w[4],
                },
            )
        } else {
            None
        }
    } else if w[1] == seq!['2'] {
        if w.len() >= 3 && parse_u32_spec(w[0]) is Some && parse_u32_spec(w[2]) is Some {
            Some(
                SocketCmdView::Start {
                    id: parse_u32_spec(w[0])->0,
                    source: parse_u32_spec(w[2])->0,
                },
            )
        } else {
            None
        }
    } else if w[1] == seq!['3'] {
        if w.len() >= 3 && parse_u32_spec(w[0]) is Some {
            Some(SocketCmdView::Send { id: parse_u32_spec(w[0])->0, data: w[2] })
        } else {
            None
        }
    } else {
        Some(SocketCmdView::Other)
    }
}

/// The request that the bytes `payload` of a command frame carry.
pub open spec fn socket_cmd_of_bytes(payload: Seq<u8>) -> Option<SocketCmdView> {
    if valid_utf8(payload) {
        socket_cmd_of(split_whitespace(decode_utf8(payload)))
    } else {
        None
    }
}

fn is_char_word(t: &String, c: char) -> (b: bool)
    ensures
        b == (t@ == seq![c]),
{
    let s = t.as_str();
    if s.unicode_len() == 1 {
        let d = s.get_char(0);
        if d == c {
            assert(t@ =~= seq![c]);
            true
        } else {
            false
        }
    } else {
        false
    }
}

fn copy_string(t: &String) -> (r: String)
    ensures
        r@ == t@,
{
    String::from_str(t.as_str())
}

/// Reads the request in the payload of a command frame; nothing where the
/// payload is not UTF-8 or does not make a request.
pub fn parse_socket_cmd(payload: &[u8]) -> (r: Option<SocketCmd>)
    ensures
        opt_cmd_view(r) == socket_cmd_of_bytes(payload@),
{
    let text = match decode_text(payload) {
        Some(t) => t,
        None => return None,
    };
    let arg = split_whitespace_words(text);
    let ghost w = split_whitespace(text@);
    assert(arg@.len() == w.len());
    if arg.len() < 2 {
        return None;
    }
    assert(arg[1]@ == w[1]);
    assert(arg[0]@ == w[0]);
    if is_char_word(&arg[1], '1') {
        if arg.len() < 5 {
            return None;
        }
        assert(arg[2]@ == w[2]);
        assert(arg[3]@ == w[3]);
        assert(arg[4]@ == w[4]);
        let req_id = match parse_u32(arg[0].as_str()) {
            Some(v) => v,
            None => return None,
        };
        let source = match parse_u32(arg[2].as_str()) {
            Some(v) => v,
            None => return None,
        };
        let host = copy_string(&arg[3]);
        let port = copy_string(&arg[4]);
        Some(SocketCmd::Listen { req_id, source, host, port })
    } else if is_char_word(&arg[1], '2') {
        if arg.len() < 3 {
            return None;
        }
        assert(arg[2]@ == w[2]);
        let id = match parse_u32(arg[0].as_str()) {
            Some(v) => v,
            None => return None,
        };
        let source = match parse_u32(arg[2].as_str()) {
            Some(v) => v,
            None => return None,
        };
        Some(SocketCmd::Start { id, source })
    } else if is_char_word(&arg[1], '3') {
        if arg.len() < 3 {
            return None;
        }
        assert(arg[2]@ == w[2]);
        let id = match parse_u32(arg[0].as_str()) {
            Some(v) => v,
            None => return None,
        };
        let data = copy_string(&arg[2]);
        Some(SocketCmd::Send { id, data })
    } else {
        Some(SocketCmd::Other)
    }
}

// ---------------------------------------------------------------- frames

/// A command frame: one byte with the payload's length (truncated to a
/// byte), then the payload, the UTF-8 bytes of `text`.
pub open spec fn cmd_frame(text: Seq<char>) -> Seq<u8> {
    let b = encode_utf8(text);
    seq![(b.len() % 256) as u8] + b
}

/// `"{req_id} 1 {handle_id} {host} {port}"`
pub open spec fn listen_cmd_text(req_id: u32, handle_id: u32, host: Seq<char>, port: u32) -> Seq<
    char,
> {
    dec_chars(req_id as nat) + seq![' ', '1', ' '] + dec_chars(handle_id as nat) + seq![' ']
        + host + seq![' '] + dec_chars(port as nat)
}

/// `"{id} 2 {handle_id}"`
pub open spec fn start_cmd_text(handle_id: u32, id: u32) -> Seq<char> {
    dec_chars(id as nat) + seq![' ', '2', ' '] + dec_chars(handle_id as nat)
}

/// `"{id} 3 {data}"`
pub open spec fn send_cmd_text(id: u32, data: Seq<char>) -> Seq<char> {
    dec_chars(id as nat) + seq![' ', '3', ' '] + data
}

fn frame_of(text: &String) -> (f: Vec<u8>)
    ensures
        f@ == cmd_frame(text@),
{
    let mut bytes = text_bytes(text);
    let n = bytes.len();
    let mut f: Vec<u8> = Vec::new();
    f.push((n % 256) as u8);
    f.append(&mut bytes);
    assert(f@ =~= cmd_frame(text@));
    f
}

/// Takes a request number for a listen request of service `handle_id` on
/// `host:port`, and returns it with the command frame for the socket thread.
pub fn rsknet_socket_listen(req: &mut GlobalReqRecord, handle_id: u32, host: &str, port: u32) -> (r: (
    u32,
    Vec<u8>,
))
    requires
        old(req).id < u32::MAX,
    ensures
        r.0 == old(req).id + 1,
        final(req).id == r.0,
        r.1@ == cmd_frame(listen_cmd_text(r.0, handle_id, host@, port)),
{
    let req_id = req.add_req();
    let mut send_str = u32_to_string(req_id);
    send_str.append(" 1 ");
    send_str.append(u32_to_string(handle_id).as_str());
    send_str.append(" ");
    send_str.append(host);
    send_str.append(" ");
    send_str.append(u32_to_string(port).as_str());
    proof {
        reveal_strlit(" 1 ");
        reveal_strlit(" ");
        assert(send_str@ =~= listen_cmd_text(req_id, handle_id, host@, port));
    }
    (req_id, frame_of(&send_str))
}

/// The command frame that hands socket `id` to service `handle_id`.
pub fn rsknet_socket_start(handle_id: u32, id: u32) -> (f: Vec<u8>)
    ensures
        f@ == cmd_frame(start_cmd_text(handle_id, id)),
{
    let mut send_str = u32_to_string(id);
    send_str.append(" 2 ");
    send_str.append(u32_to_string(handle_id).as_str());
    proof {
        reveal_strlit(" 2 ");
        assert(send_str@ =~= start_cmd_text(handle_id, id));
    }
    frame_of(&send_str)
}

/// The command frame that writes `data` to socket `id`.
pub fn rsknet_socket_send(_handle_id: u32, id: u32, data: &str) -> (f: Vec<u8>)
    ensures
        f@ == cmd_frame(send_cmd_text(id, data@)),
{
    let mut send_str = u32_to_string(id);
    send_str.append(" 3 ");
    send_str.append(data);
    proof {
        reveal_strlit(" 3 ");
        assert(send_str@ =~= send_cmd_text(id, data@));
    }
    frame_of(&send_str)
}

proof fn lemma_frame_payload(text: Seq<char>)
    requires
        encode_utf8(text).len() < 256,
    ensures
        cmd_frame(text).len() == encode_utf8(text).len() + 1,
        cmd_frame(text)[0] == encode_utf8(text).len(),
        cmd_frame(text).drop_first() == encode_utf8(text),
        valid_utf8(encode_utf8(text)),
        decode_utf8(encode_utf8(text)) == text,
{
    assert(cmd_frame(text).drop_first() =~= encode_utf8(text));
    vstd::utf8::encode_utf8_valid_utf8(text);
    vstd::utf8::encode_utf8_decode_utf8(text);
}

proof fn lemma_join3(a: Seq<char>, b: Seq<char>, c: Seq<char>)
    ensures
        join_words(seq![a, b, c]) == a + seq![' '] + b + seq![' '] + c,
{
    let w = seq![a, b, c];
    assert(w.drop_last() =~= seq![a, b]);
    assert(seq![a, b].drop_last() =~= seq![a]);
    assert(join_words(seq![a]) == a);
    assert(join_words(seq![a, b]) == a + seq![' '] + b);
}

/// A listen request written by `rsknet_socket_listen` is read back by the
/// socket thread as the same request, when the host is a single word and
/// the payload fits the frame's length byte.
pub proof fn law_listen_frame_round_trip(req_id: u32, handle_id: u32, host: Seq<char>, port: u32)
    requires
        is_word(host),
        encode_utf8(listen_cmd_text(req_id, handle_id, host, port)).len() < 256,
    ensures
        ({
            let f = cmd_frame(listen_cmd_text(req_id, handle_id, host, port));
            &&& f[0] == f.len() - 1
            &&& socket_cmd_of_bytes(f.drop_first()) == Some(
                SocketCmdView::Listen {
                    req_id,
                    source: handle_id,
                    host,
                    port: dec_chars(port as nat),
                },
            )
        }),
{
    let text = listen_cmd_text(req_id, handle_id, host, port);
    lemma_frame_payload(text);
    let a = dec_chars(req_id as nat);
    let b = dec_chars(handle_id as nat);
    let p = dec_chars(port as nat);
    lemma_dec_chars(req_id as nat);
    lemma_dec_chars(handle_id as nat);
    lemma_dec_chars(port as nat);
    let w = seq![a, seq!['1'], b, host, p];
    assert(w.drop_last() =~= seq![a, seq!['1'], b, host]);
    assert(seq![a, seq!['1'], b, host].drop_last() =~= seq![a, seq!['1'], b]);
    lemma_join3(a, seq!['1'], b);
    assert(join_words(seq![a, seq!['1'], b, host]) == join_words(seq![a, seq!['1'], b]) + seq![' ']
        + host);
    assert(join_words(w) == join_words(seq![a, seq!['1'], b, host]) + seq![' '] + p);
    assert(join_words(w) =~= text);
    assert(is_word(seq!['1']));
    assert forall|k: int| 0 <= k < w.len() implies is_word(#[trigger] w[k]) by {}
    lemma_split_join(w);
}

/// A start request written by `rsknet_socket_start` is read back as the
/// same request.
pub proof fn law_start_frame_round_trip(handle_id: u32, id: u32)
    ensures
        ({
            let f = cmd_frame(start_cmd_text(handle_id, id));
            &&& f[0] == f.len() - 1
            &&& socket_cmd_of_bytes(f.drop_first()) == Some(
                SocketCmdView::Start { id, source: handle_id },
            )
        }),
{
    let text = start_cmd_text(handle_id, id);
    let a = dec_chars(id as nat);
    let b = dec_chars(handle_id as nat);
    lemma_dec_chars(id as nat);
    lemma_dec_chars(handle_id as nat);
    lemma_dec_len(id as nat);
    lemma_dec_len(handle_id as nat);
    assert(vstd::utf8::is_ascii_chars(text)) by {
        assert forall|i| 0 <= i < text.len() implies '\0' <= #[trigger] text[i] <= '\u{7f}' by {
            if i < a.len() {
                assert(text[i] == a[i]);
            } else if i >= a.len() + 3 {
                assert(text[i] == b[i - a.len() - 3]);
            }
        }
    }
    vstd::utf8::is_ascii_chars_encode_utf8(text);
    lemma_frame_payload(text);
    let w = seq![a, seq!['2'], b];
    lemma_join3(a, seq!['2'], b);
    assert(join_words(w) =~= text);
    assert(is_word(seq!['2']));
    assert forall|k: int| 0 <= k < w.len() implies is_word(#[trigger] w[k]) by {}
    lemma_split_join(w);
    assert(seq!['2'][0] != seq!['1'][0]);
    assert(w[1] != seq!['1']);
}

/// A send request written by `rsknet_socket_send` is read back as the same
/// request, when the data is a single word and the payload fits the
/// frame's length byte.
pub proof fn law_send_frame_round_trip(handle_id: u32, id: u32, data: Seq<char>)
    requires
        is_word(data),
        encode_utf8(send_cmd_text(id, data)).len() < 256,
    ensures
        ({
            let f = cmd_frame(send_cmd_text(id, data));
            &&& f[0] == f.len() - 1
            &&& socket_cmd_of_bytes(f.drop_first()) == Some(SocketCmdView::Send { id, data })
        }),
{
    let text = send_cmd_text(id, data);
    lemma_frame_payload(text);
    let a = dec_chars(id as nat);
    lemma_dec_chars(id as nat);
    let w = seq![a, seq!['3'], data];
    lemma_join3(a, seq!['3'], data);
    assert(join_words(w) =~= text);
    assert(is_word(seq!['3']));
    assert forall|k: int| 0 <= k < w.len() implies is_word(#[trigger] w[k]) by {}
    lemma_split_join(w);
    assert(seq!['3'][0] != seq!['1'][0]);
    assert(seq!['3'][0] != seq!['2'][0]);
    assert(w[1] != seq!['1']);
    assert(w[1] != seq!['2']);
}

// ---------------------------------------------------------------- notifications

/// `[2,{req_id},{port},"{host}"]`: the listener for request `req_id` is up.
pub open spec fn listen_ack_text(req_id: u32, port: Seq<char>, host: Seq<char>) -> Seq<char> {
    seq!['['] + dec_chars(RSKNET_SOCKET_TYPE_CONNECT as nat) + seq![','] + dec_chars(req_id as nat)
        + seq![','] + port + seq![',', '"'] + host + seq!['"', ']']
}

/// `[2,{id}]`: socket `id` now reports to the service.
pub open spec fn start_ack_text(id: u32) -> Seq<char> {
    seq!['['] + dec_chars(RSKNET_SOCKET_TYPE_CONNECT as nat) + seq![','] + dec_chars(id as nat)
        + seq![']']
}

/// `[4,{listen_id},{id},"{addr}"]`: the listener `listen_id` accepted a
/// connection from `addr`, now socket `id`.
pub open spec fn accept_text(listen_id: u32, id: u32, addr: Seq<char>) -> Seq<char> {
    seq!['['] + dec_chars(RSKNET_SOCKET_TYPE_ACCEPT as nat) + seq![','] + dec_chars(
        listen_id as nat,
    ) + seq![','] + dec_chars(id as nat) + seq![',', '"'] + addr + seq!['"', ']']
}

/// `[1,{id},"{data}"]`: socket `id` received `data`.
pub open spec fn data_text(id: u32, data: Seq<char>) -> Seq<char> {
    seq!['['] + dec_chars(RSKNET_SOCKET_TYPE_DATA as nat) + seq![','] + dec_chars(id as nat)
        + seq![',', '"'] + data + seq!['"', ']']
}

/// A socket notification: protocol 6, session 0, source 0, the text as data.
fn socket_msg(text: &String) -> (m: RuskynetMsg)
    ensures
        msg_is(m, PTYPE_SOCKET, encode_utf8(text@), 0, 0),
{
    RuskynetMsg::new(PTYPE_SOCKET, text_bytes(text), 0, 0)
}

/// The notification that socket `id` received `data`.
pub fn socket_data_msg(id: u32, data: &str) -> (m: RuskynetMsg)
    ensures
        msg_is(m, PTYPE_SOCKET, encode_utf8(data_text(id, data@)), 0, 0),
{
    let mut s = String::from_str("[");
    s.append(u32_to_string(RSKNET_SOCKET_TYPE_DATA).as_str());
    s.append(",");
    s.append(u32_to_string(id).as_str());
    s.append(",\"");
    s.append(data);
    s.append("\"]");
    proof {
        reveal_strlit("[");
        reveal_strlit(",");
        reveal_strlit(",\"");
        reveal_strlit("\"]");
        assert(s@ =~= data_text(id, data@));
    }
    socket_msg(&s)
}

/// The notification for the bytes that connection `id` received: nothing
/// when no byte arrived or the bytes are not UTF-8, else the data
/// notification with the bytes read as text.
pub fn socket_data_event(id: u32, bytes: &[u8]) -> (r: Option<RuskynetMsg>)
    ensures
        bytes@.len() == 0 || !valid_utf8(bytes@) ==> r is None,
        bytes@.len() > 0 && valid_utf8(bytes@) ==> r is Some && msg_is(
            r->0,
            PTYPE_SOCKET,
            encode_utf8(data_text(id, decode_utf8(bytes@))),
            0,
            0,
        ),
{
    if bytes.len() == 0 {
        return None;
    }
    match decode_text(bytes) {
        Some(text) => Some(socket_data_msg(id, text)),
        None => None,
    }
}

// ---------------------------------------------------------------- socket table

/// What the socket thread knows of one socket: its kind (1 listener,
/// 2 connection), its request number, and the service it reports to.
pub struct SocketEnety {
    pub socket_type: u32,
    pub req_id: u32,
    pub source: u32,
}

impl SocketEnety {
    pub fn new(source: u32, req_id: u32, socket_type: u32) -> (e: Self)
        ensures
            e == (SocketEnety { socket_type, req_id, source }),
    {
        SocketEnety { socket_type, req_id, source }
    }
}

/// What the socket thread must do for a poll event.
pub enum SocketEvent {
    /// Accept the waiting connections of listener `req_id`, for `source`.
    Accept { req_id: u32, source: u32 },
    /// Read what connection `req_id` received, for `source`.
    Read { req_id: u32, source: u32 },
    /// Nothing.
    Ignore,
}

/// The socket thread's table of sockets, keyed by request number, and
/// whether it should look at the command pipe before polling again.
pub struct SocketServer {
    pub checkctrl: bool,
    pub token_id: u32,
    pub token_map: HashMap<u32, SocketEnety>,
}

impl SocketServer {
    pub open spec fn entries(&self) -> Map<u32, SocketEnety> {
        self.token_map@
    }

    /// Every socket is filed under its own request number, and is a
    /// listener or a connection.
    pub open spec fn wf(&self) -> bool {
        forall|k: u32| #[trigger]
            self.entries().contains_key(k) ==> self.entries()[k].req_id == k && (
            self.entries()[k].socket_type == 1 || self.entries()[k].socket_type == 2)
    }

    pub fn new() -> (ss: Self)
        ensures
            ss.checkctrl,
            ss.token_id == 1,
            ss.entries() == Map::<u32, SocketEnety>::empty(),
            ss.wf(),
    {
        SocketServer { checkctrl: true, token_id: 1, token_map: HashMap::new() }
    }

    /// Records the listener opened for request `req_id` of service `source`
    /// and returns the notification for that service.
    pub fn add_listener(&mut self, req_id: u32, source: u32, host: &str, port: &str) -> (m: RuskynetMsg)
        ensures
            final(self).entries() == old(self).entries().insert(
                req_id,
                SocketEnety { socket_type: 1, req_id, source },
            ),
            final(self).checkctrl == old(self).checkctrl,
            final(self).token_id == old(self).token_id,
            old(self).wf() ==> final(self).wf(),
            msg_is(m, PTYPE_SOCKET, encode_utf8(listen_ack_text(req_id, port@, host@)), 0, 0),
    {
        self.token_map.insert(req_id, SocketEnety::new(source, req_id, 1));
        proof {
            if old(self).wf() {
                assert forall|k: u32| #[trigger] self.entries().contains_key(k) implies self.entries()[k].req_id
                    == k && (self.entries()[k].socket_type == 1 || self.entries()[k].socket_type
                    == 2) by {
                    if k != req_id {
                        assert(old(self).entries().contains_key(k));
                    }
                }
            }
        }
        let mut s = String::from_str("[");
        s.append(u32_to_string(RSKNET_SOCKET_TYPE_CONNECT).as_str());
        s.append(",");
        s.append(u32_to_string(req_id).as_str());
        s.append(",");
        s.append(port);
        s.append(",\"");
        s.append(host);
        s.append("\"]");
        proof {
            reveal_strlit("[");
            reveal_strlit(",");
            reveal_strlit(",\"");
            reveal_strlit("\"]");
            assert(s@ =~= listen_ack_text(req_id, port@, host@));
        }
        socket_msg(&s)
    }

    /// Hands socket `id` to service `source` and returns the notification
    /// for that service.
    pub fn start(&mut self, id: u32, source: u32) -> (m: RuskynetMsg)
        requires
            old(self).entries().contains_key(id),
        ensures
            final(self).entries() == old(self).entries().insert(
                id,
                SocketEnety { source, ..old(self).entries()[id] },
            ),
            final(self).checkctrl == old(self).checkctrl,
            final(self).token_id == old(self).token_id,
            old(self).wf() ==> final(self).wf(),
            msg_is(m, PTYPE_SOCKET, encode_utf8(start_ack_text(id)), 0, 0),
    {
        let e = match self.token_map.remove(&id) {
            Some(e) => e,
            None => vstd::pervasive::unreached(),
        };
        self.token_map.insert(id, SocketEnety { source, ..e });
        proof {
            assert(self.entries() =~= old(self).entries().insert(
                id,
                SocketEnety { source, ..old(self).entries()[id] },
            ));
        }
        let mut s = String::from_str("[");
        s.append(u32_to_string(RSKNET_SOCKET_TYPE_CONNECT).as_str());
        s.append(",");
        s.append(u32_to_string(id).as_str());
        s.append("]");
        proof {
            reveal_strlit("[");
            reveal_strlit(",");
            reveal_strlit("]");
            assert(s@ =~= start_ack_text(id));
        }
        socket_msg(&s)
    }

    /// Decides what a poll event on `token` asks for. An event on a socket
    /// the table does not know sends the thread back to the command pipe.
    pub fn on_event(&mut self, token: u32) -> (ev: SocketEvent)
        ensures
            final(self).entries() == old(self).entries(),
            final(self).token_id == old(self).token_id,
            old(self).entries().contains_key(token) ==> {
                let e = old(self).entries()[token];
                &&& final(self).checkctrl == old(self).checkctrl
                &&& ev == (if e.socket_type == 1 {
                    SocketEvent::Accept { req_id: e.req_id, source: e.source }
                } else if e.socket_type == 2 {
                    SocketEvent::Read { req_id: e.req_id, source: e.source }
                } else {
                    SocketEvent::Ignore
                })
            },
            !old(self).entries().contains_key(token) ==> final(self).checkctrl && ev
                == SocketEvent::Ignore,
    {
        match self.token_map.get(&token) {
            Some(e) => {
                if e.socket_type == 1 {
                    SocketEvent::Accept { req_id: e.req_id, source: e.source }
                } else if e.socket_type == 2 {
                    SocketEvent::Read { req_id: e.req_id, source: e.source }
                } else {
                    SocketEvent::Ignore
                }
            },
            None => {
                self.checkctrl = true;
                SocketEvent::Ignore
            },
        }
    }

    /// Records a connection that listener `listen_id` accepted from `addr`
    /// for service `source`, under a fresh request number, and returns that
    /// number with the notification for the service.
    pub fn accept(
        &mut self,
        req: &mut GlobalReqRecord,
        listen_id: u32,
        source: u32,
        addr: &str,
    ) -> (r: (u32, RuskynetMsg))
        requires
            old(req).id < u32::MAX,
        ensures
            r.0 == old(req).id + 1,
            final(req).id == r.0,
            final(self).entries() == old(self).entries().insert(
                r.0,
                SocketEnety { socket_type: 2, req_id: r.0, source },
            ),
            final(self).checkctrl == old(self).checkctrl,
            final(self).token_id == old(self).token_id,
            old(self).wf() ==> final(self).wf(),
            msg_is(r.1, PTYPE_SOCKET, encode_utf8(accept_text(listen_id, r.0, addr@)), 0, 0),
    {
        let req_id = req.add_req();
        self.token_map.insert(req_id, SocketEnety::new(source, req_id, 2));
        proof {
            if old(self).wf() {
                assert forall|k: u32| #[trigger] self.entries().contains_key(k) implies self.entries()[k].req_id
                    == k && (self.entries()[k].socket_type == 1 || self.entries()[k].socket_type
                    == 2) by {
                    if k != req_id {
                        assert(old(self).entries().contains_key(k));
                    }
                }
            }
        }
        let mut s = String::from_str("[");
        s.append(u32_to_string(RSKNET_SOCKET_TYPE_ACCEPT).as_str());
        s.append(",");
        s.append(u32_to_string(listen_id).as_str());
        s.append(",");
        s.append(u32_to_string(req_id).as_str());
        s.append(",\"");
        s.append(addr);
        s.append("\"]");
        proof {
            reveal_strlit("[");
            reveal_strlit(",");
            reveal_strlit(",\"");
            reveal_strlit("\"]");
            assert(s@ =~= accept_text(listen_id, req_id, addr@));
        }
        (req_id, socket_msg(&s))
    }

    /// After a look at the command pipe: a command that was handled ends
    /// the round (the answer is `true`); an empty pipe turns the thread to
    /// its poll events until the next poll.
    pub fn cmd_done(&mut self, handled: bool) -> (end_round: bool)
        ensures
            end_round == handled,
            final(self).checkctrl == (old(self).checkctrl && handled),
            final(self).entries() == old(self).entries(),
            final(self).token_id == old(self).token_id,
    {
        if handled {
            true
        } else {
            self.checkctrl = false;
            false
        }
    }

    /// Before blocking in a poll: the pipe is looked at again afterwards.
    pub fn begin_poll(&mut self)
        ensures
            final(self).checkctrl,
            final(self).entries() == old(self).entries(),
            final(self).token_id == old(self).token_id,
    {
        self.checkctrl = true;
    }
}

// ---------------------------------------------------------------- notification laws

proof fn lemma_kind_digits()
    ensures
        dec_chars(RSKNET_SOCKET_TYPE_DATA as nat) == seq!['1'],
        dec_chars(RSKNET_SOCKET_TYPE_CONNECT as nat) == seq!['2'],
        dec_chars(RSKNET_SOCKET_TYPE_ACCEPT as nat) == seq!['4'],
{
    let t = seq!['0', '1', '2', '3', '4', '5', '6', '7', '8', '9'];
    assert(t[1] == '1' && t[2] == '2' && t[4] == '4');
    assert(dec_chars(1) =~= seq!['1']);
    assert(dec_chars(2) =~= seq!['2']);
    assert(dec_chars(4) =~= seq!['4']);
}

proof fn lemma_text_of_msg(m: RuskynetMsg, text: Seq<char>)
    requires
        m.data@ == encode_utf8(text),
    ensures
        valid_utf8(m.data@),
        decode_utf8(m.data@) == text,
{
    vstd::utf8::encode_utf8_valid_utf8(text);
    vstd::utf8::encode_utf8_decode_utf8(text);
}

/// The data notification for connection `id` carries the whole received
/// text `d`: its data is UTF-8 text of length `n + |d| + 7`, where `n` is
/// the number of digits of `id`, made of `[1,`, a field that reads back as
/// `id`, `,"`, then exactly `d`, then `"]`.
pub proof fn law_data_notification_holds_whole_text(id: u32, d: Seq<char>, m: RuskynetMsg)
    requires
        msg_is(m, PTYPE_SOCKET, encode_utf8(data_text(id, d)), 0, 0),
    ensures
        ({
            let t = decode_utf8(m.data@);
            let n = dec_chars(id as nat).len() as int;
            &&& valid_utf8(m.data@)
            &&& m.proto_type == 6 && m.session == 0 && m.source == 0
            &&& t.len() == n + d.len() + 7
            &&& t.subrange(0, 3) == seq!['[', '1', ',']
            &&& parse_u32_spec(t.subrange(3, 3 + n)) == Some(id)
            &&& t.subrange(3 + n, 5 + n) == seq![',', '"']
            &&& t.subrange(5 + n, 5 + n + d.len()) == d
            &&& t.subrange(5 + n + d.len(), t.len() as int) == seq!['"', ']']
        }),
{
    let t = data_text(id, d);
    let a = dec_chars(id as nat);
    let n = a.len() as int;
    lemma_text_of_msg(m, t);
    lemma_kind_digits();
    lemma_dec_chars(id as nat);
    assert(t.subrange(0, 3) =~= seq!['[', '1', ',']);
    assert(t.subrange(3, 3 + n) =~= a);
    assert(t.subrange(3 + n, 5 + n) =~= seq![',', '"']);
    assert(t.subrange(5 + n, 5 + n + d.len()) =~= d);
    assert(t.subrange(5 + n + d.len(), t.len() as int) =~= seq!['"', ']']);
}

/// The accept notification names the listener and the new connection by
/// the very numbers given: its data is UTF-8 text of length
/// `n1 + n2 + |addr| + 8` (`n1`, `n2` the digit counts of `listen_id` and
/// `id`), made of `[4,`, a field that reads back as `listen_id`, `,`, a
/// field that reads back as `id`, `,"`, exactly `addr`, then `"]`.
pub proof fn law_accept_notification_names_the_connection(
    listen_id: u32,
    id: u32,
    addr: Seq<char>,
    m: RuskynetMsg,
)
    requires
        msg_is(m, PTYPE_SOCKET, encode_utf8(accept_text(listen_id, id, addr)), 0, 0),
    ensures
        ({
            let t = decode_utf8(m.data@);
            let n1 = dec_chars(listen_id as nat).len() as int;
            let n2 = dec_chars(id as nat).len() as int;
            &&& valid_utf8(m.data@)
            &&& m.proto_type == 6 && m.session == 0 && m.source == 0
            &&& t.len() == n1 + n2 + addr.len() + 8
            &&& t.subrange(0, 3) == seq!['[', '4', ',']
            &&& parse_u32_spec(t.subrange(3, 3 + n1)) == Some(listen_id)
            &&& t[3 + n1] == ','
            &&& parse_u32_spec(t.subrange(4 + n1, 4 + n1 + n2)) == Some(id)
            &&& t.subrange(4 + n1 + n2, 6 + n1 + n2) == seq![',', '"']
            &&& t.subrange(6 + n1 + n2, 6 + n1 + n2 + addr.len()) == addr
            &&& t.subrange(6 + n1 + n2 + addr.len(), t.len() as int) == seq!['"', ']']
        }),
{
    let t = accept_text(listen_id, id, addr);
    let a = dec_chars(listen_id as nat);
    let b = dec_chars(id as nat);
    let n1 = a.len() as int;
    let n2 = b.len() as int;
    lemma_text_of_msg(m, t);
    lemma_kind_digits();
    lemma_dec_chars(listen_id as nat);
    lemma_dec_chars(id as nat);
    assert(t.subrange(0, 3) =~= seq!['[', '4', ',']);
    assert(t.subrange(3, 3 + n1) =~= a);
    assert(t[3 + n1] == ',');
    assert(t.subrange(4 + n1, 4 + n1 + n2) =~= b);
    assert(t.subrange(4 + n1 + n2, 6 + n1 + n2) =~= seq![',', '"']);
    assert(t.subrange(6 + n1 + n2, 6 + n1 + n2 + addr.len()) =~= addr);
    assert(t.subrange(6 + n1 + n2 + addr.len(), t.len() as int) =~= seq!['"', ']']);
}

/// The listener acknowledgement carries the request number, the port
/// string and the host unchanged: its data is UTF-8 text of length
/// `n + |port| + |host| + 8` (`n` the digit count of `req_id`), made of
/// `[2,`, a field that reads back as `req_id`, `,`, exactly `port`, `,"`,
/// exactly `host`, then `"]`.
pub proof fn law_listen_ack_carries_port_and_host(
    req_id: u32,
    port: Seq<char>,
    host: Seq<char>,
    m: RuskynetMsg,
)
    requires
        msg_is(m, PTYPE_SOCKET, encode_utf8(listen_ack_text(req_id, port, host)), 0, 0),
    ensures
        ({
            let t = decode_utf8(m.data@);
            let n = dec_chars(req_id as nat).len() as int;
            let p = port.len() as int;
            &&& valid_utf8(m.data@)
            &&& m.proto_type == 6 && m.session == 0 && m.source == 0
            &&& t.len() == n + p + host.len() + 8
            &&& t.subrange(0, 3) == seq!['[', '2', ',']
            &&& parse_u32_spec(t.subrange(3, 3 + n)) == Some(req_id)
            &&& t[3 + n] == ','
            &&& t.subrange(4 + n, 4 + n + p) == port
            &&& t.subrange(4 + n + p, 6 + n + p) == seq![',', '"']
            &&& t.subrange(6 + n + p, 6 + n + p + host.len()) == host
            &&& t.subrange(6 + n + p + host.len(), t.len() as int) == seq!['"', ']']
        }),
{
    let t = listen_ack_text(req_id, port, host);
    let a = dec_chars(req_id as nat);
    let n = a.len() as int;
    let p = port.len() as int;
    lemma_text_of_msg(m, t);
    lemma_kind_digits();
    lemma_dec_chars(req_id as nat);
    assert(t.subrange(0, 3) =~= seq!['[', '2', ',']);
    assert(t.subrange(3, 3 + n) =~= a);
    assert(t[3 + n] == ',');
    assert(t.subrange(4 + n, 4 + n + p) =~= port);
    assert(t.subrange(4 + n + p, 6 + n + p) =~= seq![',', '"']);
    assert(t.subrange(6 + n + p, 6 + n + p + host.len()) =~= host);
    assert(t.subrange(6 + n + p + host.len(), t.len() as int) =~= seq!['"', ']']);
}

/// The start acknowledgement names the socket it was given: its data is
/// UTF-8 text of length `n + 4` (`n` the digit count of `id`), made of
/// `[2,`, a field that reads back as `id`, then `]`.
pub proof fn law_start_ack_names_the_socket(id: u32, m: RuskynetMsg)
    requires
        msg_is(m, PTYPE_SOCKET, encode_utf8(start_ack_text(id)), 0, 0),
    ensures
        ({
            let t = decode_utf8(m.data@);
            let n = dec_chars(id as nat).len() as int;
            &&& valid_utf8(m.data@)
            &&& m.proto_type == 6 && m.session == 0 && m.source == 0
            &&& t.len() == n + 4
            &&& t.subrange(0, 3) == seq!['[', '2', ',']
            &&& parse_u32_spec(t.subrange(3, 3 + n)) == Some(id)
            &&& t[3 + n] == ']'
        }),
{
    let t = start_ack_text(id);
    let a = dec_chars(id as nat);
    let n = a.len() as int;
    lemma_text_of_msg(m, t);
    lemma_kind_digits();
    lemma_dec_chars(id as nat);
    assert(t.subrange(0, 3) =~= seq!['[', '2', ',']);
    assert(t.subrange(3, 3 + n) =~= a);
    assert(t[3 + n] == ']');
}

} // verus!
