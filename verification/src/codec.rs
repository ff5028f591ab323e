//! The JSON wire codec for the watch-party protocol.
//!
//! Frames are JSON objects discriminated by a `type` field. [`encode`]
//! produces the canonical encoding of a message (`type` first, fields
//! in declaration order, no spaces); [`decode`] parses a frame back.
//! Decoding an encoded message returns a message with the same content
//! (the round-trip law at the end of the module).

use vstd::prelude::*;

use crate::strutil::push_char;
use crate::websocket::{ParticipantInfo, WsMessage};

verus! {

/// The content of a wire frame, with strings as character sequences.
pub enum MsgModel {
    Play { position_ms: u64, user_id: i64 },
    Pause { position_ms: u64, user_id: i64 },
    Seek { position_ms: u64, user_id: i64 },
    SyncRequest,
    SyncResponse { position_ms: u64, is_paused: bool, media_id: Seq<char> },
    Heartbeat { server_time_ms: u64, timestamp: u64, media_id: Seq<char> },
    NextEpisode,
    QueueAdd { media_id: Seq<char> },
    QueueRemove { index: usize },
    ChatMessage { from: Seq<char>, user_id: i64, message: Seq<char> },
    Join { user_id: i64, username: Seq<char>, thumb: Seq<char> },
    Leave { user_id: i64, username: Seq<char> },
    MediaChange { media_id: Seq<char>, title: Option<Seq<char>>, duration_ms: u64 },
    Navigate { media_id: Seq<char>, route: Seq<char> },
    Kicked { reason: Option<Seq<char>> },
    RoomClosed,
    RoomStateSnapshot {
        media_id: Seq<char>,
        media_title: Option<Seq<char>>,
        position_ms: u64,
        is_paused: bool,
        participants: Seq<PartModel>,
        episode_queue: Seq<Seq<char>>,
    },
    Buffering { user_id: i64 },
    Ready { user_id: i64 },
    AllReady,
    SyncAck,
    Ping,
    Pong,
    Error { message: Seq<char> },
}

/// The content of one participant entry of a snapshot frame.
pub struct PartModel {
    pub user_id: i64,
    pub username: Seq<char>,
    pub thumb: Seq<char>,
    pub is_host: bool,
}

impl View for ParticipantInfo {
    type V = PartModel;

    open spec fn view(&self) -> PartModel {
        PartModel {
            user_id: self.user_id,
            username: self.username@,
            thumb: self.thumb@,
            is_host: self.is_host,
        }
    }
}

impl View for WsMessage {
    type V = MsgModel;

    open spec fn view(&self) -> MsgModel {
        match self {
            WsMessage::Play { position_ms, user_id } => MsgModel::Play {
                position_ms: *position_ms,
                user_id: *user_id,
            },
            WsMessage::Pause { position_ms, user_id } => MsgModel::Pause {
                position_ms: *position_ms,
                user_id: *user_id,
            },
            WsMessage::Seek { position_ms, user_id } => MsgModel::Seek {
                position_ms: *position_ms,
                user_id: *user_id,
            },
            WsMessage::SyncRequest => MsgModel::SyncRequest,
            WsMessage::SyncResponse { position_ms, is_paused, media_id } => MsgModel::SyncResponse {
                position_ms: *position_ms,
                is_paused: *is_paused,
                media_id: media_id@,
            },
            WsMessage::Heartbeat { server_time_ms, timestamp, media_id } => MsgModel::Heartbeat {
                server_time_ms: *server_time_ms,
                timestamp: *timestamp,
                media_id: media_id@,
            },
            WsMessage::NextEpisode => MsgModel::NextEpisode,
            WsMessage::QueueAdd { media_id } => MsgModel::QueueAdd { media_id: media_id@ },
            WsMessage::QueueRemove { index } => MsgModel::QueueRemove { index: *index },
            WsMessage::ChatMessage { from, user_id, message } => MsgModel::ChatMessage {
                from: from@,
                user_id: *user_id,
                message: message@,
            },
            WsMessage::Join { user_id, username, thumb } => MsgModel::Join {
                user_id: *user_id,
                username: username@,
                thumb: thumb@,
            },
            WsMessage::Leave { user_id, username } => MsgModel::Leave {
                user_id: *user_id,
                username: username@,
            },
            WsMessage::MediaChange { media_id, title, duration_ms } => MsgModel::MediaChange {
                media_id: media_id@,
                title: title.deep_view(),
                duration_ms: *duration_ms,
            },
            WsMessage::Navigate { media_id, route } => MsgModel::Navigate {
                media_id: media_id@,
                route: route@,
            },
            WsMessage::Kicked { reason } => MsgModel::Kicked { reason: reason.deep_view() },
            WsMessage::RoomClosed => MsgModel::RoomClosed,
            WsMessage::RoomStateSnapshot {
                media_id,
                media_title,
                position_ms,
                is_paused,
                participants,
                episode_queue,
            } => MsgModel::RoomStateSnapshot {
                media_id: media_id@,
                media_title: media_title.deep_view(),
                position_ms: *position_ms,
                is_paused: *is_paused,
                participants: participants@.map(|i: int, p: ParticipantInfo| p@),
                episode_queue: episode_queue.deep_view(),
            },
            WsMessage::Buffering { user_id } => MsgModel::Buffering { user_id: *user_id },
            WsMessage::Ready { user_id } => MsgModel::Ready { user_id: *user_id },
            WsMessage::AllReady => MsgModel::AllReady,
            WsMessage::SyncAck => MsgModel::SyncAck,
            WsMessage::Ping => MsgModel::Ping,
            WsMessage::Pong => MsgModel::Pong,
            WsMessage::Error { message } => MsgModel::Error { message: message@ },
        }
    }
}

/// The decimal digit character for a value below ten.
pub open spec fn digit_char(d: int) -> char {
    if d == 0 {
        '0'
    } else if d == 1 {
        '1'
    } else if d == 2 {
        '2'
    } else if d == 3 {
        '3'
    } else if d == 4 {
        '4'
    } else if d == 5 {
        '5'
    } else if d == 6 {
        '6'
    } else if d == 7 {
        '7'
    } else if d == 8 {
        '8'
    } else {
        '9'
    }
}

/// The numeric value of a decimal digit character, or -1.
pub open spec fn digit_val(c: char) -> int {
    if c == '0' {
        0
    } else if c == '1' {
        1
    } else if c == '2' {
        2
    } else if c == '3' {
        3
    } else if c == '4' {
        4
    } else if c == '5' {
        5
    } else if c == '6' {
        6
    } else if c == '7' {
        7
    } else if c == '8' {
        8
    } else if c == '9' {
        9
    } else {
        -1
    }
}

/// The decimal digits of a nonnegative value.
pub open spec fn print_nat(n: int) -> Seq<char>
    decreases n,
{
    if n <= 0 {
        seq!['0']
    } else if n < 10 {
        seq![digit_char(n)]
    } else {
        print_nat(n / 10).push(digit_char(n % 10))
    }
}

/// The decimal encoding of an unsigned number.
pub open spec fn print_u64(n: u64) -> Seq<char> {
    print_nat(n as int)
}

/// The decimal encoding of a signed number.
pub open spec fn print_i64(n: i64) -> Seq<char> {
    if n < 0 {
        seq!['-'] + print_nat(-(n as int))
    } else {
        print_nat(n as int)
    }
}

/// One character, JSON-escaped: quotes and backslashes get a
/// backslash, and the three common control characters get their
/// shorthands. Other characters pass through unchanged.
pub open spec fn esc_char(c: char) -> Seq<char> {
    if c == '"' {
        seq!['\\', '"']
    } else if c == '\\' {
        seq!['\\', '\\']
    } else if c == '\n' {
        seq!['\\', 'n']
    } else if c == '\r' {
        seq!['\\', 'r']
    } else if c == '\t' {
        seq!['\\', 't']
    } else {
        seq![c]
    }
}

/// A JSON-escaped string body.
pub open spec fn esc(s: Seq<char>) -> Seq<char>
    decreases s.len(),
{
    if s.len() == 0 {
        Seq::empty()
    } else {
        esc_char(s[0]) + esc(s.drop_first())
    }
}

/// A quoted, escaped JSON string.
pub open spec fn enc_str(s: Seq<char>) -> Seq<char> {
    seq!['"'] + esc(s) + seq!['"']
}

/// A JSON string or null, for optional fields.
pub open spec fn enc_opt_str(s: Option<Seq<char>>) -> Seq<char> {
    match s {
        Some(v) => enc_str(v),
        None => "null"@,
    }
}

/// A JSON boolean.
pub open spec fn enc_bool(b: bool) -> Seq<char> {
    if b {
        "true"@
    } else {
        "false"@
    }
}

/// A duration in ms encoded as seconds with three decimals, the wire
/// form of the heartbeat's server time.
pub open spec fn enc_secs(ms: u64) -> Seq<char> {
    print_nat(ms as int / 1000) + seq!['.'] + seq![
        digit_char((ms as int / 100) % 10),
        digit_char((ms as int / 10) % 10),
        digit_char(ms as int % 10),
    ]
}

/// One participant entry of a snapshot frame.
pub open spec fn enc_participant(p: PartModel) -> Seq<char> {
    "{\"user_id\":"@ + print_i64(p.user_id) + ",\"username\":"@ + enc_str(p.username)
        + ",\"thumb\":"@ + enc_str(p.thumb) + ",\"is_host\":"@ + enc_bool(p.is_host) + "}"@
}

/// The encoded elements of a participants array.
pub open spec fn enc_parts(ps: Seq<PartModel>) -> Seq<Seq<char>> {
    ps.map(|i: int, p: PartModel| enc_participant(p))
}

/// The encoded elements of a string array.
pub open spec fn enc_strs(ss: Seq<Seq<char>>) -> Seq<Seq<char>> {
    ss.map(|i: int, s: Seq<char>| enc_str(s))
}

/// A JSON array from already-encoded elements.
pub open spec fn enc_array(elems: Seq<Seq<char>>) -> Seq<char>
    decreases elems.len(),
{
    if elems.len() == 0 {
        "[]"@
    } else if elems.len() == 1 {
        seq!['['] + elems[0] + seq![']']
    } else {
        enc_array(elems.drop_last()).drop_last() + seq![','] + elems.last() + seq![']']
    }
}

/// The canonical encoding of a wire frame.
pub open spec fn enc(m: MsgModel) -> Seq<char> {
    match m {
        MsgModel::Play { position_ms, user_id } => "{\"type\":\"play\",\"position_ms\":"@
            + print_u64(position_ms) + ",\"user_id\":"@ + print_i64(user_id) + "}"@,
        MsgModel::Pause { position_ms, user_id } => "{\"type\":\"pause\",\"position_ms\":"@
            + print_u64(position_ms) + ",\"user_id\":"@ + print_i64(user_id) + "}"@,
        MsgModel::Seek { position_ms, user_id } => "{\"type\":\"seek\",\"position_ms\":"@
            + print_u64(position_ms) + ",\"user_id\":"@ + print_i64(user_id) + "}"@,
        MsgModel::SyncRequest => "{\"type\":\"sync_request\"}"@,
        MsgModel::SyncResponse { position_ms, is_paused, media_id } =>
            "{\"type\":\"sync_response\",\"position_ms\":"@ + print_u64(position_ms)
            + ",\"is_paused\":"@ + enc_bool(is_paused) + ",\"media_id\":"@ + enc_str(media_id)
            + "}"@,
        MsgModel::Heartbeat { server_time_ms, timestamp, media_id } =>
            "{\"type\":\"heartbeat\",\"server_time\":"@ + enc_secs(server_time_ms)
            + ",\"timestamp\":"@ + print_u64(timestamp) + ",\"media_id\":"@ + enc_str(media_id)
            + "}"@,
        MsgModel::NextEpisode => "{\"type\":\"next_episode\"}"@,
        MsgModel::QueueAdd { media_id } => "{\"type\":\"queue_add\",\"media_id\":"@ + enc_str(
            media_id,
        ) + "}"@,
        MsgModel::QueueRemove { index } => "{\"type\":\"queue_remove\",\"index\":"@ + print_nat(
            index as int,
        ) + "}"@,
        MsgModel::ChatMessage { from, user_id, message } => "{\"type\":\"chat\",\"from\":"@
            + enc_str(from) + ",\"user_id\":"@ + print_i64(user_id) + ",\"message\":"@ + enc_str(
            message,
        ) + "}"@,
        MsgModel::Join { user_id, username, thumb } => "{\"type\":\"join\",\"user_id\":"@
            + print_i64(user_id) + ",\"username\":"@ + enc_str(username) + ",\"thumb\":"@
            + enc_str(thumb) + "}"@,
        MsgModel::Leave { user_id, username } => "{\"type\":\"leave\",\"user_id\":"@ + print_i64(
            user_id,
        ) + ",\"username\":"@ + enc_str(username) + "}"@,
        MsgModel::MediaChange { media_id, title, duration_ms } =>
            "{\"type\":\"media_change\",\"media_id\":"@ + enc_str(media_id) + ",\"title\":"@
            + enc_opt_str(title) + ",\"duration_ms\":"@ + print_u64(duration_ms) + "}"@,
        MsgModel::Navigate { media_id, route } => "{\"type\":\"navigate\",\"media_id\":"@
            + enc_str(media_id) + ",\"route\":"@ + enc_str(route) + "}"@,
        MsgModel::Kicked { reason } => "{\"type\":\"kicked\",\"reason\":"@ + enc_opt_str(reason)
            + "}"@,
        MsgModel::RoomClosed => "{\"type\":\"room_closed\"}"@,
        MsgModel::RoomStateSnapshot {
            media_id,
            media_title,
            position_ms,
            is_paused,
            participants,
            episode_queue,
        } => "{\"type\":\"room_state\",\"media_id\":"@ + enc_str(media_id) + ",\"media_title\":"@
            + enc_opt_str(media_title) + ",\"position_ms\":"@ + print_u64(position_ms)
            + ",\"is_paused\":"@ + enc_bool(is_paused) + ",\"participants\":"@ + enc_array(
            enc_parts(participants),
        ) + ",\"episode_queue\":"@ + enc_array(enc_strs(episode_queue)) + "}"@,
        MsgModel::Buffering { user_id } => "{\"type\":\"buffering\",\"user_id\":"@ + print_i64(
            user_id,
        ) + "}"@,
        MsgModel::Ready { user_id } => "{\"type\":\"ready\",\"user_id\":"@ + print_i64(user_id)
            + "}"@,
        MsgModel::AllReady => "{\"type\":\"all_ready\"}"@,
        MsgModel::SyncAck => "{\"type\":\"sync_ack\"}"@,
        MsgModel::Ping => "{\"type\":\"ping\"}"@,
        MsgModel::Pong => "{\"type\":\"pong\"}"@,
        MsgModel::Error { message } => "{\"type\":\"error\",\"message\":"@ + enc_str(message)
            + "}"@,
    }
}

/// The elements of a JSON array body, separated by commas.
pub open spec fn join_commas(elems: Seq<Seq<char>>) -> Seq<char>
    decreases elems.len(),
{
    if elems.len() == 0 {
        Seq::empty()
    } else if elems.len() == 1 {
        elems[0]
    } else {
        elems[0] + seq![','] + join_commas(elems.drop_first())
    }
}

/// Appending one element extends a comma-joined body by a comma and
/// the element (or is the element itself, for the first one).
pub proof fn lemma_join_push(s: Seq<Seq<char>>, x: Seq<char>)
    ensures
        join_commas(s.push(x)) == if s.len() == 0 {
            x
        } else {
            join_commas(s) + seq![','] + x
        },
    decreases s.len(),
{
    if s.len() == 0 {
        assert(join_commas(s.push(x)) == s.push(x)[0]);
    } else {
        assert(s.push(x).drop_first() =~= s.drop_first().push(x));
        lemma_join_push(s.drop_first(), x);
        if s.len() == 1 {
            assert(join_commas(s) == s[0]);
            assert(join_commas(s.push(x)) == s[0] + seq![','] + x);
        } else {
            assert(join_commas(s.push(x)) == s[0] + seq![','] + (join_commas(s.drop_first())
                + seq![','] + x));
            assert(s[0] + seq![','] + (join_commas(s.drop_first()) + seq![','] + x) =~= (s[0]
                + seq![','] + join_commas(s.drop_first())) + seq![','] + x);
        }
    }
}

/// A JSON array is its comma-joined body in brackets.
pub proof fn lemma_enc_array_join(elems: Seq<Seq<char>>)
    ensures
        enc_array(elems) =~= seq!['['] + join_commas(elems) + seq![']'],
    decreases elems.len(),
{
    if elems.len() == 0 {
        reveal_strlit("[]");
    } else if elems.len() == 1 {
    } else {
        lemma_enc_array_join(elems.drop_last());
        assert(elems.drop_last().len() >= 1);
        let body = join_commas(elems.drop_last());
        assert(enc_array(elems.drop_last()) == seq!['['] + body + seq![']']);
        assert(enc_array(elems.drop_last()).drop_last() =~= seq!['['] + body);
        assert(elems.drop_last().push(elems.last()) =~= elems);
        lemma_join_push(elems.drop_last(), elems.last());
        assert(join_commas(elems) == body + seq![','] + elems.last());
        assert(enc_array(elems) =~= seq!['['] + (body + seq![','] + elems.last()) + seq![']']);
    }
}

/// Escaping distributes over appending one character.
pub proof fn lemma_esc_push(s: Seq<char>, c: char)
    ensures
        esc(s.push(c)) == esc(s) + esc_char(c),
    decreases s.len(),
{
    if s.len() == 0 {
        assert(s.push(c) =~= seq![c]);
        assert(seq![c].drop_first() =~= Seq::<char>::empty());
        assert(esc(seq![c]) == esc_char(c) + esc(Seq::<char>::empty()));
        assert(esc_char(c) + Seq::<char>::empty() =~= esc_char(c));
        assert(esc(s) + esc_char(c) =~= esc_char(c));
    } else {
        assert(s.push(c).drop_first() =~= s.drop_first().push(c));
        lemma_esc_push(s.drop_first(), c);
        assert(esc(s.push(c)) == esc_char(s[0]) + (esc(s.drop_first()) + esc_char(c)));
        assert(esc_char(s[0]) + (esc(s.drop_first()) + esc_char(c)) =~= (esc_char(s[0]) + esc(
            s.drop_first(),
        )) + esc_char(c));
    }
}

/// The decimal digit character of a value below ten.
fn digit_of(d: u64) -> (c: char)
    requires
        d < 10,
    ensures
        c == digit_char(d as int),
{
    match d {
        0 => '0',
        1 => '1',
        2 => '2',
        3 => '3',
        4 => '4',
        5 => '5',
        6 => '6',
        7 => '7',
        8 => '8',
        _ => '9',
    }
}

/// Append the decimal digits of an unsigned value.
fn push_nat(out: &mut String, n: u64)
    ensures
        final(out)@ == old(out)@ + print_nat(n as int),
    decreases n,
{
    if n < 10 {
        push_char(out, digit_of(n));
        proof {
            assert(old(out)@ + print_nat(n as int) =~= old(out)@.push(digit_char(n as int)));
        }
    } else {
        push_nat(out, n / 10);
        push_char(out, digit_of(n % 10));
        proof {
            assert((old(out)@ + print_nat(n as int / 10)).push(digit_char(n as int % 10)) =~= old(
                out,
            )@ + print_nat(n as int / 10).push(digit_char(n as int % 10)));
        }
    }
}

/// Append the decimal digits of a signed value.
fn push_int(out: &mut String, n: i64)
    ensures
        final(out)@ == old(out)@ + print_i64(n),
{
    if n < 0 {
        push_char(out, '-');
        let mag: u64 = (-(n as i128)) as u64;
        push_nat(out, mag);
        proof {
            assert(mag as int == -(n as int));
            assert(old(out)@.push('-') + print_nat(-(n as int)) =~= old(out)@ + (seq!['-']
                + print_nat(-(n as int))));
        }
    } else {
        push_nat(out, n as u64);
    }
}

/// Append a quoted, escaped JSON string.
fn push_quoted(out: &mut String, s: &str)
    ensures
        final(out)@ == old(out)@ + enc_str(s@),
{
    push_char(out, '"');
    let n = s.unicode_len();
    let mut i: usize = 0;
    while i < n
        invariant
            n == s@.len(),
            0 <= i <= n,
            out@ == old(out)@.push('"') + esc(s@.subrange(0, i as int)),
        decreases n - i,
    {
        let c = s.get_char(i);
        proof {
            assert(s@.subrange(0, i + 1 as int) =~= s@.subrange(0, i as int).push(s@[i as int]));
            lemma_esc_push(s@.subrange(0, i as int), s@[i as int]);
        }
        if c == '"' {
            push_char(out, '\\');
            push_char(out, '"');
        } else if c == '\\' {
            push_char(out, '\\');
            push_char(out, '\\');
        } else if c == '\n' {
            push_char(out, '\\');
            push_char(out, 'n');
        } else if c == '\r' {
            push_char(out, '\\');
            push_char(out, 'r');
        } else if c == '\t' {
            push_char(out, '\\');
            push_char(out, 't');
        } else {
            push_char(out, c);
        }
        proof {
            assert(out@ =~= old(out)@.push('"') + esc(s@.subrange(0, i + 1 as int)));
        }
        i = i + 1;
    }
    proof {
        assert(s@.subrange(0, n as int) =~= s@);
    }
    push_char(out, '"');
    proof {
        assert((old(out)@.push('"') + esc(s@)).push('"') =~= old(out)@ + enc_str(s@));
    }
}

/// Append a JSON string or null.
fn push_opt_quoted(out: &mut String, s: &Option<String>)
    ensures
        final(out)@ == old(out)@ + enc_opt_str(s.deep_view()),
{
    match s {
        Some(v) => push_quoted(out, v.as_str()),
        None => out.append("null"),
    }
}

/// Append a JSON boolean.
fn push_bool(out: &mut String, b: bool)
    ensures
        final(out)@ == old(out)@ + enc_bool(b),
{
    if b {
        out.append("true");
    } else {
        out.append("false");
    }
}

/// Append a millisecond count as seconds with three decimals.
fn push_secs(out: &mut String, ms: u64)
    ensures
        final(out)@ == old(out)@ + enc_secs(ms),
{
    push_nat(out, ms / 1000);
    push_char(out, '.');
    push_char(out, digit_of((ms / 100) % 10));
    push_char(out, digit_of((ms / 10) % 10));
    push_char(out, digit_of(ms % 10));
    proof {
        assert((((old(out)@ + print_nat(ms as int / 1000)).push('.').push(
            digit_char((ms as int / 100) % 10),
        )).push(digit_char((ms as int / 10) % 10))).push(digit_char(ms as int % 10)) =~= old(
            out,
        )@ + enc_secs(ms));
    }
}

/// Encode one wire frame as its canonical JSON text.
pub fn encode(msg: &WsMessage) -> (r: String)
    ensures
        r@ == enc(msg@),
{
    let mut out = String::new();
    match msg {
        WsMessage::Play { position_ms, user_id } => {
            out.append("{\"type\":\"play\",\"position_ms\":");
            push_nat(&mut out, *position_ms);
            out.append(",\"user_id\":");
            push_int(&mut out, *user_id);
            out.append("}");
        },
        WsMessage::Pause { position_ms, user_id } => {
            out.append("{\"type\":\"pause\",\"position_ms\":");
            push_nat(&mut out, *position_ms);
            out.append(",\"user_id\":");
            push_int(&mut out, *user_id);
            out.append("}");
        },
        WsMessage::Seek { position_ms, user_id } => {
            out.append("{\"type\":\"seek\",\"position_ms\":");
            push_nat(&mut out, *position_ms);
            out.append(",\"user_id\":");
            push_int(&mut out, *user_id);
            out.append("}");
        },
        WsMessage::SyncRequest => {
            out.append("{\"type\":\"sync_request\"}");
        },
        WsMessage::SyncResponse { position_ms, is_paused, media_id } => {
            out.append("{\"type\":\"sync_response\",\"position_ms\":");
            push_nat(&mut out, *position_ms);
            out.append(",\"is_paused\":");
            push_bool(&mut out, *is_paused);
            out.append(",\"media_id\":");
            push_quoted(&mut out, media_id.as_str());
            out.append("}");
        },
        WsMessage::Heartbeat { server_time_ms, timestamp, media_id } => {
            out.append("{\"type\":\"heartbeat\",\"server_time\":");
            push_secs(&mut out, *server_time_ms);
            out.append(",\"timestamp\":");
            push_nat(&mut out, *timestamp);
            out.append(",\"media_id\":");
            push_quoted(&mut out, media_id.as_str());
            out.append("}");
        },
        WsMessage::NextEpisode => {
            out.append("{\"type\":\"next_episode\"}");
        },
        WsMessage::QueueAdd { media_id } => {
            out.append("{\"type\":\"queue_add\",\"media_id\":");
            push_quoted(&mut out, media_id.as_str());
            out.append("}");
        },
        WsMessage::QueueRemove { index } => {
            out.append("{\"type\":\"queue_remove\",\"index\":");
            push_nat(&mut out, *index as u64);
            out.append("}");
        },
        WsMessage::ChatMessage { from, user_id, message } => {
            out.append("{\"type\":\"chat\",\"from\":");
            push_quoted(&mut out, from.as_str());
            out.append(",\"user_id\":");
            push_int(&mut out, *user_id);
            out.append(",\"message\":");
            push_quoted(&mut out, message.as_str());
            out.append("}");
        },
        WsMessage::Join { user_id, username, thumb } => {
            out.append("{\"type\":\"join\",\"user_id\":");
            push_int(&mut out, *user_id);
            out.append(",\"username\":");
            push_quoted(&mut out, username.as_str());
            out.append(",\"thumb\":");
            push_quoted(&mut out, thumb.as_str());
            out.append("}");
        },
        WsMessage::Leave { user_id, username } => {
            out.append("{\"type\":\"leave\",\"user_id\":");
            push_int(&mut out, *user_id);
            out.append(",\"username\":");
            push_quoted(&mut out, username.as_str());
            out.append("}");
        },
        WsMessage::MediaChange { media_id, title, duration_ms } => {
            out.append("{\"type\":\"media_change\",\"media_id\":");
            push_quoted(&mut out, media_id.as_str());
            out.append(",\"title\":");
            push_opt_quoted(&mut out, title);
            out.append(",\"duration_ms\":");
            push_nat(&mut out, *duration_ms);
            out.append("}");
        },
        WsMessage::Navigate { media_id, route } => {
            out.append("{\"type\":\"navigate\",\"media_id\":");
            push_quoted(&mut out, media_id.as_str());
            out.append(",\"route\":");
            push_quoted(&mut out, route.as_str());
            out.append("}");
        },
        WsMessage::Kicked { reason } => {
            out.append("{\"type\":\"kicked\",\"reason\":");
            push_opt_quoted(&mut out, reason);
            out.append("}");
        },
        WsMessage::RoomClosed => {
            out.append("{\"type\":\"room_closed\"}");
        },
        WsMessage::RoomStateSnapshot {
            media_id,
            media_title,
            position_ms,
            is_paused,
            participants,
            episode_queue,
        } => {
            out.append("{\"type\":\"room_state\",\"media_id\":");
            push_quoted(&mut out, media_id.as_str());
            out.append(",\"media_title\":");
            push_opt_quoted(&mut out, media_title);
            out.append(",\"position_ms\":");
            push_nat(&mut out, *position_ms);
            out.append(",\"is_paused\":");
            push_bool(&mut out, *is_paused);
            out.append(",\"participants\":");
            push_participants(&mut out, participants);
            out.append(",\"episode_queue\":");
            push_string_array(&mut out, episode_queue);
            out.append("}");
        },
        WsMessage::Buffering { user_id } => {
            out.append("{\"type\":\"buffering\",\"user_id\":");
            push_int(&mut out, *user_id);
            out.append("}");
        },
        WsMessage::Ready { user_id } => {
            out.append("{\"type\":\"ready\",\"user_id\":");
            push_int(&mut out, *user_id);
            out.append("}");
        },
        WsMessage::AllReady => {
            out.append("{\"type\":\"all_ready\"}");
        },
        WsMessage::SyncAck => {
            out.append("{\"type\":\"sync_ack\"}");
        },
        WsMessage::Ping => {
            out.append("{\"type\":\"ping\"}");
        },
        WsMessage::Pong => {
            out.append("{\"type\":\"pong\"}");
        },
        WsMessage::Error { message } => {
            out.append("{\"type\":\"error\",\"message\":");
            push_quoted(&mut out, message.as_str());
            out.append("}");
        },
    }
    out
}

/// Append one encoded participant entry.
fn push_participant(out: &mut String, p: &ParticipantInfo)
    ensures
        final(out)@ == old(out)@ + enc_participant(p@),
{
    out.append("{\"user_id\":");
    push_int(out, p.user_id);
    out.append(",\"username\":");
    push_quoted(out, p.username.as_str());
    out.append(",\"thumb\":");
    push_quoted(out, p.thumb.as_str());
    out.append(",\"is_host\":");
    push_bool(out, p.is_host);
    out.append("}");
}

/// Append the encoded participants array of a snapshot.
fn push_participants(out: &mut String, ps: &Vec<ParticipantInfo>)
    ensures
        final(out)@ == old(out)@ + enc_array(enc_parts(ps@.map(|i: int, p: ParticipantInfo| p@))),
{
    let ghost elems = enc_parts(ps@.map(|i: int, p: ParticipantInfo| p@));
    push_char(out, '[');
    let mut i: usize = 0;
    while i < ps.len()
        invariant
            elems == ps@.map(|i: int, p: ParticipantInfo| p@).map(
                |i: int, p: PartModel| enc_participant(p),
            ),
            0 <= i <= ps@.len(),
            elems.len() == ps@.len(),
            out@ == old(out)@.push('[') + join_commas(elems.subrange(0, i as int)),
        decreases ps@.len() - i,
    {
        if i > 0 {
            push_char(out, ',');
        }
        push_participant(out, &ps[i]);
        proof {
            assert(elems.subrange(0, i + 1 as int) =~= elems.subrange(0, i as int).push(
                elems[i as int],
            ));
            lemma_join_push(elems.subrange(0, i as int), elems[i as int]);
            assert(elems[i as int] == enc_participant(ps@[i as int]@));
            assert(out@ =~= old(out)@.push('[') + join_commas(elems.subrange(0, i + 1 as int)));
        }
        i = i + 1;
    }
    push_char(out, ']');
    proof {
        assert(elems.subrange(0, elems.len() as int) =~= elems);
        lemma_enc_array_join(elems);
        assert((old(out)@.push('[') + join_commas(elems)).push(']') =~= old(out)@ + enc_array(
            elems,
        ));
    }
}

/// Append an encoded array of JSON strings.
fn push_string_array(out: &mut String, ss: &Vec<String>)
    ensures
        final(out)@ == old(out)@ + enc_array(enc_strs(ss.deep_view())),
{
    let ghost elems = enc_strs(ss.deep_view());
    push_char(out, '[');
    let mut i: usize = 0;
    while i < ss.len()
        invariant
            elems == ss.deep_view().map(|i: int, s: Seq<char>| enc_str(s)),
            0 <= i <= ss@.len(),
            elems.len() == ss@.len(),
            out@ == old(out)@.push('[') + join_commas(elems.subrange(0, i as int)),
        decreases ss@.len() - i,
    {
        if i > 0 {
            push_char(out, ',');
        }
        push_quoted(out, ss[i].as_str());
        proof {
            assert(elems.subrange(0, i + 1 as int) =~= elems.subrange(0, i as int).push(
                elems[i as int],
            ));
            lemma_join_push(elems.subrange(0, i as int), elems[i as int]);
            assert(elems[i as int] == enc_str(ss@[i as int]@));
            assert(out@ =~= old(out)@.push('[') + join_commas(elems.subrange(0, i + 1 as int)));
        }
        i = i + 1;
    }
    push_char(out, ']');
    proof {
        assert(elems.subrange(0, elems.len() as int) =~= elems);
        lemma_enc_array_join(elems);
        assert((old(out)@.push('[') + join_commas(elems)).push(']') =~= old(out)@ + enc_array(
            elems,
        ));
    }
}

/// Whether the text begins with the expected literal.
pub open spec fn expects(s: Seq<char>, lit: Seq<char>) -> bool {
    s.len() >= lit.len() && s.subrange(0, lit.len() as int) == lit
}

/// The text after the expected literal.
pub open spec fn after(s: Seq<char>, lit: Seq<char>) -> Seq<char> {
    s.subrange(lit.len() as int, s.len() as int)
}

/// A literal prefix of a concatenation is recognized, leaving the rest.
pub proof fn lemma_expects_concat(lit: Seq<char>, rest: Seq<char>)
    ensures
        expects(lit + rest, lit),
        after(lit + rest, lit) == rest,
{
    assert((lit + rest).subrange(0, lit.len() as int) =~= lit);
    assert((lit + rest).subrange(lit.len() as int, (lit + rest).len() as int) =~= rest);
}

/// How many decimal digits the text starts with.
pub open spec fn num_digits(s: Seq<char>) -> int
    decreases s.len(),
{
    if s.len() == 0 || digit_val(s[0]) < 0 {
        0
    } else {
        1 + num_digits(s.drop_first())
    }
}

/// The numeric value of a digit sequence.
pub open spec fn digits_value(s: Seq<char>) -> int
    decreases s.len(),
{
    if s.len() == 0 {
        0
    } else {
        digits_value(s.drop_last()) * 10 + digit_val(s.last())
    }
}

/// Parse a nonnegative decimal number; the value and the rest.
pub open spec fn p_nat(s: Seq<char>) -> Option<(int, Seq<char>)> {
    let k = num_digits(s);
    if k == 0 {
        None
    } else {
        Some((digits_value(s.subrange(0, k)), s.subrange(k, s.len() as int)))
    }
}

/// Parse an optionally negative decimal number.
pub open spec fn p_int(s: Seq<char>) -> Option<(int, Seq<char>)> {
    if s.len() > 0 && s[0] == '-' {
        match p_nat(s.drop_first()) {
            Some((v, rest)) => Some((-v, rest)),
            None => None,
        }
    } else {
        p_nat(s)
    }
}

/// Every character a number prints is a digit.
pub proof fn lemma_print_nat_digits(n: int)
    ensures
        forall|i: int|
            0 <= i < print_nat(n).len() ==> digit_val(#[trigger] print_nat(n)[i]) >= 0,
        print_nat(n).len() >= 1,
    decreases n,
{
    if n >= 10 {
        lemma_print_nat_digits(n / 10);
    }
}

/// The leading digit count of digits followed by a non-digit is the
/// digit count.
pub proof fn lemma_num_digits_of(d: Seq<char>, rest: Seq<char>)
    requires
        forall|i: int| 0 <= i < d.len() ==> digit_val(#[trigger] d[i]) >= 0,
        rest.len() == 0 || digit_val(rest[0]) < 0,
    ensures
        num_digits(d + rest) == d.len(),
    decreases d.len(),
{
    if d.len() == 0 {
        assert(d + rest =~= rest);
    } else {
        assert((d + rest).drop_first() =~= d.drop_first() + rest);
        lemma_num_digits_of(d.drop_first(), rest);
        assert(digit_val((d + rest)[0]) >= 0);
    }
}

/// A digit character carries its digit's value.
pub proof fn lemma_digit_roundtrip(d: int)
    requires
        0 <= d < 10,
    ensures
        digit_val(digit_char(d)) == d,
{
}

/// The value of a printed number is the number.
pub proof fn lemma_digits_value_print(n: int)
    requires
        n >= 0,
    ensures
        digits_value(print_nat(n)) == n,
    decreases n,
{
    if n < 10 {
        assert(print_nat(n).drop_last() =~= Seq::<char>::empty());
        lemma_digit_roundtrip(n);
        assert(print_nat(n).last() == digit_char(n));
        assert(print_nat(n).len() == 1);
        assert(digits_value(Seq::<char>::empty()) == 0);
        assert(digits_value(print_nat(n)) == digits_value(print_nat(n).drop_last()) * 10
            + digit_val(print_nat(n).last()));
    } else {
        lemma_digits_value_print(n / 10);
        lemma_digit_roundtrip(n % 10);
        assert(print_nat(n).drop_last() =~= print_nat(n / 10));
        assert(print_nat(n).last() == digit_char(n % 10));
        assert(digits_value(print_nat(n)) == digits_value(print_nat(n / 10)) * 10 + digit_val(
            digit_char(n % 10),
        ));
        assert(n / 10 * 10 + n % 10 == n);
    }
}

/// Parsing a printed number recovers it, whatever follows the digits.
pub proof fn lemma_p_nat_print(n: int, rest: Seq<char>)
    requires
        n >= 0,
        rest.len() == 0 || digit_val(rest[0]) < 0,
    ensures
        p_nat(print_nat(n) + rest) is Some,
        p_nat(print_nat(n) + rest).unwrap().0 == n,
        p_nat(print_nat(n) + rest).unwrap().1 == rest,
{
    let d = print_nat(n);
    lemma_print_nat_digits(n);
    lemma_num_digits_of(d, rest);
    assert((d + rest).subrange(0, d.len() as int) =~= d);
    assert((d + rest).subrange(d.len() as int, (d + rest).len() as int) =~= rest);
    lemma_digits_value_print(n);
}

/// Parsing a printed signed number recovers it.
pub proof fn lemma_p_int_print(n: i64, rest: Seq<char>)
    requires
        rest.len() == 0 || digit_val(rest[0]) < 0,
    ensures
        p_int(print_i64(n) + rest) is Some,
        p_int(print_i64(n) + rest).unwrap().0 == n as int,
        p_int(print_i64(n) + rest).unwrap().1 == rest,
{
    if n < 0 {
        let m = -(n as int);
        assert((seq!['-'] + print_nat(m) + rest).drop_first() =~= print_nat(m) + rest);
        lemma_p_nat_print(m, rest);
        lemma_print_nat_digits(m);
        assert((print_i64(n) + rest)[0] == '-');
        assert((print_i64(n) + rest).drop_first() =~= print_nat(m) + rest);
    } else {
        lemma_p_nat_print(n as int, rest);
        lemma_print_nat_digits(n as int);
        assert(print_i64(n) + rest =~= print_nat(n as int) + rest);
        assert(digit_val((print_nat(n as int) + rest)[0]) >= 0);
    }
}

/// Parse a JSON string body up to its closing quote, undoing escapes;
/// the content and the rest after the quote.
pub open spec fn p_str_body(s: Seq<char>) -> Option<(Seq<char>, Seq<char>)>
    decreases s.len(),
{
    if s.len() == 0 {
        None
    } else if s[0] == '"' {
        Some((Seq::empty(), s.drop_first()))
    } else if s[0] == '\\' {
        if s.len() < 2 {
            None
        } else {
            let e = s[1];
            let c = if e == '"' {
                '"'
            } else if e == '\\' {
                '\\'
            } else if e == 'n' {
                '\n'
            } else if e == 'r' {
                '\r'
            } else {
                '\t'
            };
            if e == '"' || e == '\\' || e == 'n' || e == 'r' || e == 't' {
                match p_str_body(s.subrange(2, s.len() as int)) {
                    Some((b, rest)) => Some((seq![c] + b, rest)),
                    None => None,
                }
            } else {
                None
            }
        }
    } else {
        match p_str_body(s.drop_first()) {
            Some((b, rest)) => Some((seq![s[0]] + b, rest)),
            None => None,
        }
    }
}

/// Parsing an escaped, quoted string body recovers the content.
pub proof fn lemma_p_str_body_esc(content: Seq<char>, rest: Seq<char>)
    ensures
        p_str_body(esc(content) + seq!['"'] + rest) is Some,
        p_str_body(esc(content) + seq!['"'] + rest).unwrap().0 == content,
        p_str_body(esc(content) + seq!['"'] + rest).unwrap().1 == rest,
    decreases content.len(),
{
    let s = esc(content) + seq!['"'] + rest;
    if content.len() == 0 {
        assert(esc(content) =~= Seq::<char>::empty());
        assert(s =~= seq!['"'] + rest);
        assert(s[0] == '"');
        assert(s.drop_first() =~= rest);
    } else {
        let c0 = content[0];
        let tail = content.drop_first();
        lemma_p_str_body_esc(tail, rest);
        assert(esc(content) == esc_char(c0) + esc(tail));
        let inner = esc(tail) + seq!['"'] + rest;
        if c0 == '"' || c0 == '\\' || c0 == '\n' || c0 == '\r' || c0 == '\t' {
            assert(esc_char(c0).len() == 2);
            assert(s =~= esc_char(c0) + inner);
            assert(s[0] == '\\');
            assert(s.subrange(2, s.len() as int) =~= inner);
            assert(p_str_body(s).unwrap().0 =~= seq![c0] + tail);
            assert(seq![c0] + tail =~= content);
        } else {
            assert(esc_char(c0) =~= seq![c0]);
            assert(s =~= seq![c0] + inner);
            assert(s[0] == c0);
            assert(s.drop_first() =~= inner);
            assert(p_str_body(s).unwrap().0 =~= seq![c0] + tail);
            assert(seq![c0] + tail =~= content);
        }
    }
}

/// Parsing an encoded string (quote, escaped body, quote) recovers it.
pub proof fn lemma_p_str_enc(content: Seq<char>, rest: Seq<char>)
    ensures
        expects(enc_str(content) + rest, seq!['"']),
        p_str_body(after(enc_str(content) + rest, seq!['"'])) is Some,
        p_str_body(after(enc_str(content) + rest, seq!['"'])).unwrap().0 == content,
        p_str_body(after(enc_str(content) + rest, seq!['"'])).unwrap().1 == rest,
{
    let s = enc_str(content) + rest;
    assert(s[0] == '"');
    assert(s.subrange(0, 1) =~= seq!['"']);
    assert(after(s, seq!['"']) =~= esc(content) + seq!['"'] + rest);
    lemma_p_str_body_esc(content, rest);
}

/// Ten to the `k`-th power.
pub open spec fn pow10(k: int) -> int
    decreases k,
{
    if k <= 0 {
        1
    } else {
        10 * pow10(k - 1)
    }
}

/// A digit sequence's value is below ten to its length.
pub proof fn lemma_digits_value_bound(s: Seq<char>)
    requires
        forall|i: int| 0 <= i < s.len() ==> digit_val(#[trigger] s[i]) >= 0,
    ensures
        0 <= digits_value(s) < pow10(s.len() as int),
    decreases s.len(),
{
    if s.len() > 0 {
        lemma_digits_value_bound(s.drop_last());
        assert(digit_val(s.last()) <= 9);
    }
}

/// A printed number is at least ten to one less than its length: the
/// canonical print has no leading zeros.
pub proof fn lemma_print_nat_low(n: int)
    requires
        n >= 0,
    ensures
        print_nat(n).len() == 1 || n >= pow10(print_nat(n).len() - 1),
    decreases n,
{
    if n >= 10 {
        lemma_print_nat_low(n / 10);
        lemma_print_nat_digits(n / 10);
        assert(print_nat(n).len() == print_nat(n / 10).len() + 1);
        assert(n >= 10 * (n / 10));
        if print_nat(n / 10).len() == 1 {
            assert(n / 10 >= 1);
            assert(pow10(0) == 1);
            assert(pow10(1) == 10 * pow10(0));
            assert(n >= pow10(1));
        } else {
            let len1 = print_nat(n / 10).len() as int;
            assert(n / 10 >= pow10(len1 - 1));
            assert(10 * (n / 10) >= 10 * pow10(len1 - 1)) by (nonlinear_arith)
                requires
                    n / 10 >= pow10(len1 - 1),
            ;
            assert(pow10(len1) == 10 * pow10(len1 - 1));
            assert(n >= pow10(len1));
        }
    }
}

/// A value that fits in a u64 prints in at most twenty digits.
pub proof fn lemma_print_u64_len(n: int)
    requires
        0 <= n <= u64::MAX,
    ensures
        1 <= print_nat(n).len() <= 20,
{
    lemma_print_nat_digits(n);
    lemma_print_nat_low(n);
    if print_nat(n).len() > 20 {
        assert(n >= pow10(print_nat(n).len() - 1));
        lemma_pow10_mono(20, print_nat(n).len() - 1);
        assert(pow10(20) == 100000000000000000000) by {
            reveal_with_fuel(pow10, 21);
        }
    }
}

/// Powers of ten grow with the exponent.
pub proof fn lemma_pow10_mono(a: int, b: int)
    requires
        0 <= a <= b,
    ensures
        pow10(a) <= pow10(b),
    decreases b - a,
{
    if a < b {
        lemma_pow10_mono(a, b - 1);
        assert(pow10(b) == 10 * pow10(b - 1));
        assert(pow10(b - 1) >= 1) by {
            lemma_pow10_pos(b - 1);
        }
    }
}

/// Powers of ten are positive.
pub proof fn lemma_pow10_pos(k: int)
    ensures
        pow10(k) >= 1,
    decreases k,
{
    if k > 0 {
        lemma_pow10_pos(k - 1);
    }
}

/// Parse a decimal number that fits in a u64: at most twenty digits.
pub open spec fn p_nat_u64(s: Seq<char>) -> Option<(u64, Seq<char>)> {
    let k = num_digits(s);
    if k == 0 || k > 20 {
        None
    } else {
        let v = digits_value(s.subrange(0, k));
        if v <= u64::MAX {
            Some((v as u64, s.subrange(k, s.len() as int)))
        } else {
            None
        }
    }
}

/// Parse a possibly negative decimal number that fits in an i64.
pub open spec fn p_int_i64(s: Seq<char>) -> Option<(i64, Seq<char>)> {
    if s.len() > 0 && s[0] == '-' {
        match p_nat_u64(s.drop_first()) {
            Some((m, rest)) => if m <= 0x8000000000000000u64 {
                Some(((-(m as int)) as i64, rest))
            } else {
                None
            },
            None => None,
        }
    } else {
        match p_nat_u64(s) {
            Some((m, rest)) => if m <= 0x7fffffffffffffffu64 {
                Some((m as i64, rest))
            } else {
                None
            },
            None => None,
        }
    }
}

/// Parse a JSON boolean.
pub open spec fn p_bool(s: Seq<char>) -> Option<(bool, Seq<char>)> {
    if expects(s, "true"@) {
        Some((true, after(s, "true"@)))
    } else if expects(s, "false"@) {
        Some((false, after(s, "false"@)))
    } else {
        None
    }
}

/// Parse a quoted JSON string.
pub open spec fn p_string(s: Seq<char>) -> Option<(Seq<char>, Seq<char>)> {
    if expects(s, seq!['"']) {
        p_str_body(after(s, seq!['"']))
    } else {
        None
    }
}

/// Parse a JSON string or null.
pub open spec fn p_opt_string(s: Seq<char>) -> Option<(Option<Seq<char>>, Seq<char>)> {
    if expects(s, "null"@) {
        Some((None, after(s, "null"@)))
    } else {
        match p_string(s) {
            Some((v, rest)) => Some((Some(v), rest)),
            None => None,
        }
    }
}

/// Whether the text is exactly a closing brace: the end of a frame.
pub open spec fn p_end(s: Seq<char>) -> bool {
    s =~= seq!['}']
}

/// Parsing a printed u64 recovers it, whatever non-digit follows.
pub proof fn lemma_p_nat_u64_print(n: u64, rest: Seq<char>)
    requires
        rest.len() == 0 || digit_val(rest[0]) < 0,
    ensures
        p_nat_u64(print_u64(n) + rest) == Some((n, rest)),
{
    lemma_p_nat_print(n as int, rest);
    lemma_print_u64_len(n as int);
    let s = print_nat(n as int) + rest;
    lemma_print_nat_digits(n as int);
    lemma_num_digits_of(print_nat(n as int), rest);
    assert(s.subrange(0, print_nat(n as int).len() as int) =~= print_nat(n as int));
    assert(s.subrange(print_nat(n as int).len() as int, s.len() as int) =~= rest);
    lemma_digits_value_print(n as int);
}

/// Parsing a printed i64 recovers it, whatever non-digit follows.
pub proof fn lemma_p_int_i64_print(n: i64, rest: Seq<char>)
    requires
        rest.len() == 0 || digit_val(rest[0]) < 0,
    ensures
        p_int_i64(print_i64(n) + rest) == Some((n, rest)),
{
    if n < 0 {
        let m = -(n as int);
        assert(m <= 0x8000000000000000);
        lemma_p_nat_u64_print(m as u64, rest);
        assert((print_i64(n) + rest)[0] == '-');
        assert((print_i64(n) + rest).drop_first() =~= print_nat(m) + rest);
        assert(print_u64(m as u64) =~= print_nat(m));
    } else {
        lemma_p_nat_u64_print(n as u64, rest);
        assert(print_i64(n) + rest =~= print_u64(n as u64) + rest);
        lemma_print_nat_digits(n as int);
        assert(digit_val((print_u64(n as u64) + rest)[0]) >= 0);
    }
}

/// Escaping a text with no quote, backslash or control shorthands is
/// the identity.
pub proof fn lemma_esc_id(s: Seq<char>)
    requires
        forall|i: int|
            0 <= i < s.len() ==> #[trigger] s[i] != '"' && s[i] != '\\' && s[i] != '\n' && s[i]
                != '\r' && s[i] != '\t',
    ensures
        esc(s) == s,
    decreases s.len(),
{
    if s.len() == 0 {
        assert(esc(s) =~= s);
    } else {
        lemma_esc_id(s.drop_first());
        assert(esc_char(s[0]) =~= seq![s[0]]);
        assert(seq![s[0]] + s.drop_first() =~= s);
    }
}

/// Decode one frame of the wire protocol. Every frame kind is parsed
/// except the room state snapshot, which only travels server to
/// client.
pub open spec fn dec(s: Seq<char>) -> Option<MsgModel> {
    if !expects(s, "{\"type\":\""@) {
        None
    } else {
        match p_str_body(after(s, "{\"type\":\""@)) {
            None => None,
            Some((tag, r)) => dec_tagged(tag, r),
        }
    }
}

/// Decode the remainder of a frame, given its parsed tag.
pub open spec fn dec_tagged(tag: Seq<char>, r: Seq<char>) -> Option<MsgModel> {
    if tag == "play"@ {
        dec_play_fields(r)
    } else if tag == "pause"@ {
        dec_pause_fields(r)
    } else if tag == "seek"@ {
        dec_seek_fields(r)
    } else if tag == "sync_request"@ {
        dec_sync_request_fields(r)
    } else if tag == "sync_response"@ {
        dec_sync_response_fields(r)
    } else if tag == "media_change"@ {
        dec_media_change_fields(r)
    } else if tag == "next_episode"@ {
        dec_next_episode_fields(r)
    } else if tag == "queue_add"@ {
        dec_queue_add_fields(r)
    } else if tag == "queue_remove"@ {
        dec_queue_remove_fields(r)
    } else if tag == "chat"@ {
        dec_chat_fields(r)
    } else if tag == "navigate"@ {
        dec_navigate_fields(r)
    } else if tag == "buffering"@ {
        dec_buffering_fields(r)
    } else if tag == "ready"@ {
        dec_ready_fields(r)
    } else if tag == "sync_ack"@ {
        dec_sync_ack_fields(r)
    } else if tag == "ping"@ {
        dec_ping_fields(r)
    } else if tag == "heartbeat"@ {
        dec_heartbeat_fields(r)
    } else if tag == "join"@ {
        dec_join_fields(r)
    } else if tag == "leave"@ {
        dec_leave_fields(r)
    } else if tag == "kicked"@ {
        dec_kicked_fields(r)
    } else if tag == "room_closed"@ {
        dec_room_closed_fields(r)
    } else if tag == "all_ready"@ {
        dec_all_ready_fields(r)
    } else if tag == "pong"@ {
        dec_pong_fields(r)
    } else if tag == "error"@ {
        dec_error_fields(r)
    } else if tag == "room_state"@ {
        dec_room_state_fields(r)
    } else {
        None
    }
}

/// Decode the fields of one frame kind.
#[verifier::opaque]
pub open spec fn dec_play_fields(r: Seq<char>) -> Option<MsgModel> {
    if !expects(r, ",\"position_ms\":"@) {
        None
    } else {
        match p_nat_u64(after(r, ",\"position_ms\":"@)) {
            None => None,
            Some((position_ms, r1)) => {
                if !expects(r1, ",\"user_id\":"@) {
                    None
                } else {
                    match p_int_i64(after(r1, ",\"user_id\":"@)) {
                        None => None,
                        Some((user_id, r2)) => {
                            if p_end(r2) {
                                Some(MsgModel::Play { position_ms, user_id })
                            } else {
                                None
                            }
                        },
                    }
                }
            },
        }
    }
}

/// Decode the fields of one frame kind.
#[verifier::opaque]
pub open spec fn dec_pause_fields(r: Seq<char>) -> Option<MsgModel> {
    if !expects(r, ",\"position_ms\":"@) {
        None
    } else {
        match p_nat_u64(after(r, ",\"position_ms\":"@)) {
            None => None,
            Some((position_ms, r1)) => {
                if !expects(r1, ",\"user_id\":"@) {
                    None
                } else {
                    match p_int_i64(after(r1, ",\"user_id\":"@)) {
                        None => None,
                        Some((user_id, r2)) => {
                            if p_end(r2) {
                                Some(MsgModel::Pause { position_ms, user_id })
                            } else {
                                None
                            }
                        },
                    }
                }
            },
        }
    }
}

/// Decode the fields of one frame kind.
#[verifier::opaque]
pub open spec fn dec_seek_fields(r: Seq<char>) -> Option<MsgModel> {
    if !expects(r, ",\"position_ms\":"@) {
        None
    } else {
        match p_nat_u64(after(r, ",\"position_ms\":"@)) {
            None => None,
            Some((position_ms, r1)) => {
                if !expects(r1, ",\"user_id\":"@) {
                    None
                } else {
                    match p_int_i64(after(r1, ",\"user_id\":"@)) {
                        None => None,
                        Some((user_id, r2)) => {
                            if p_end(r2) {
                                Some(MsgModel::Seek { position_ms, user_id })
                            } else {
                                None
                            }
                        },
                    }
                }
            },
        }
    }
}

/// Decode the fields of one frame kind.
#[verifier::opaque]
pub open spec fn dec_sync_request_fields(r: Seq<char>) -> Option<MsgModel> {
    if p_end(r) {
        Some(MsgModel::SyncRequest)
    } else {
        None
    }
}

/// Decode the fields of one frame kind.
#[verifier::opaque]
pub open spec fn dec_sync_response_fields(r: Seq<char>) -> Option<MsgModel> {
    if !expects(r, ",\"position_ms\":"@) {
        None
    } else {
        match p_nat_u64(after(r, ",\"position_ms\":"@)) {
            None => None,
            Some((position_ms, r1)) => {
                if !expects(r1, ",\"is_paused\":"@) {
                    None
                } else {
                    match p_bool(after(r1, ",\"is_paused\":"@)) {
                        None => None,
                        Some((is_paused, r2)) => {
                            if !expects(r2, ",\"media_id\":"@) {
                                None
                            } else {
                                match p_string(after(r2, ",\"media_id\":"@)) {
                                    None => None,
                                    Some((media_id, r3)) => {
                                        if p_end(r3) {
                                            Some(MsgModel::SyncResponse { position_ms, is_paused, media_id })
                                        } else {
                                            None
                                        }
                                    },
                                }
                            }
                        },
                    }
                }
            },
        }
    }
}

/// Decode the fields of one frame kind.
#[verifier::opaque]
pub open spec fn dec_media_change_fields(r: Seq<char>) -> Option<MsgModel> {
    if !expects(r, ",\"media_id\":"@) {
        None
    } else {
        match p_string(after(r, ",\"media_id\":"@)) {
            None => None,
            Some((media_id, r1)) => {
                if !expects(r1, ",\"title\":"@) {
                    None
                } else {
                    match p_opt_string(after(r1, ",\"title\":"@)) {
                        None => None,
                        Some((title, r2)) => {
                            if !expects(r2, ",\"duration_ms\":"@) {
                                None
                            } else {
                                match p_nat_u64(after(r2, ",\"duration_ms\":"@)) {
                                    None => None,
                                    Some((duration_ms, r3)) => {
                                        if p_end(r3) {
                                            Some(MsgModel::MediaChange { media_id, title, duration_ms })
                                        } else {
                                            None
                                        }
                                    },
                                }
                            }
                        },
                    }
                }
            },
        }
    }
}

/// Decode the fields of one frame kind.
#[verifier::opaque]
pub open spec fn dec_next_episode_fields(r: Seq<char>) -> Option<MsgModel> {
    if p_end(r) {
        Some(MsgModel::NextEpisode)
    } else {
        None
    }
}

/// Decode the fields of one frame kind.
#[verifier::opaque]
pub open spec fn dec_queue_add_fields(r: Seq<char>) -> Option<MsgModel> {
    if !expects(r, ",\"media_id\":"@) {
        None
    } else {
        match p_string(after(r, ",\"media_id\":"@)) {
            None => None,
            Some((media_id, r1)) => {
                if p_end(r1) {
                    Some(MsgModel::QueueAdd { media_id })
                } else {
                    None
                }
            },
        }
    }
}

/// Decode the fields of one frame kind.
#[verifier::opaque]
pub open spec fn dec_queue_remove_fields(r: Seq<char>) -> Option<MsgModel> {
    if !expects(r, ",\"index\":"@) {
        None
    } else {
        match p_nat_u64(after(r, ",\"index\":"@)) {
            None => None,
            Some((v1, r1)) => {
                if v1 <= usize::MAX as u64 {
                    let index = v1 as usize;
                    if p_end(r1) {
                        Some(MsgModel::QueueRemove { index })
                    } else {
                        None
                    }
                } else {
                    None
                }
            },
        }
    }
}

/// Decode the fields of one frame kind.
#[verifier::opaque]
pub open spec fn dec_chat_fields(r: Seq<char>) -> Option<MsgModel> {
    if !expects(r, ",\"from\":"@) {
        None
    } else {
        match p_string(after(r, ",\"from\":"@)) {
            None => None,
            Some((from, r1)) => {
                if !expects(r1, ",\"user_id\":"@) {
                    None
                } else {
                    match p_int_i64(after(r1, ",\"user_id\":"@)) {
                        None => None,
                        Some((user_id, r2)) => {
                            if !expects(r2, ",\"message\":"@) {
                                None
                            } else {
                                match p_string(after(r2, ",\"message\":"@)) {
                                    None => None,
                                    Some((message, r3)) => {
                                        if p_end(r3) {
                                            Some(MsgModel::ChatMessage { from, user_id, message })
                                        } else {
                                            None
                                        }
                                    },
                                }
                            }
                        },
                    }
                }
            },
        }
    }
}

/// Decode the fields of one frame kind.
#[verifier::opaque]
pub open spec fn dec_navigate_fields(r: Seq<char>) -> Option<MsgModel> {
    if !expects(r, ",\"media_id\":"@) {
        None
    } else {
        match p_string(after(r, ",\"media_id\":"@)) {
            None => None,
            Some((media_id, r1)) => {
                if !expects(r1, ",\"route\":"@) {
                    None
                } else {
                    match p_string(after(r1, ",\"route\":"@)) {
                        None => None,
                        Some((route, r2)) => {
                            if p_end(r2) {
                                Some(MsgModel::Navigate { media_id, route })
                            } else {
                                None
                            }
                        },
                    }
                }
            },
        }
    }
}

/// Decode the fields of one frame kind.
#[verifier::opaque]
pub open spec fn dec_buffering_fields(r: Seq<char>) -> Option<MsgModel> {
    if !expects(r, ",\"user_id\":"@) {
        None
    } else {
        match p_int_i64(after(r, ",\"user_id\":"@)) {
            None => None,
            Some((user_id, r1)) => {
                if p_end(r1) {
                    Some(MsgModel::Buffering { user_id })
                } else {
                    None
                }
            },
        }
    }
}

/// Decode the fields of one frame kind.
#[verifier::opaque]
pub open spec fn dec_ready_fields(r: Seq<char>) -> Option<MsgModel> {
    if !expects(r, ",\"user_id\":"@) {
        None
    } else {
        match p_int_i64(after(r, ",\"user_id\":"@)) {
            None => None,
            Some((user_id, r1)) => {
                if p_end(r1) {
                    Some(MsgModel::Ready { user_id })
                } else {
                    None
                }
            },
        }
    }
}

/// Decode the fields of one frame kind.
#[verifier::opaque]
pub open spec fn dec_sync_ack_fields(r: Seq<char>) -> Option<MsgModel> {
    if p_end(r) {
        Some(MsgModel::SyncAck)
    } else {
        None
    }
}

/// Decode the fields of one frame kind.
#[verifier::opaque]
pub open spec fn dec_ping_fields(r: Seq<char>) -> Option<MsgModel> {
    if p_end(r) {
        Some(MsgModel::Ping)
    } else {
        None
    }
}


/// Shape of the frame head for one tag.
proof fn lemma_lit_play()
    ensures
        "{\"type\":\"play\",\"position_ms\":"@ =~= "{\"type\":\""@ + "play"@ + seq!['\"'] + ",\"position_ms\":"@,
        esc("play"@) == "play"@,
{
    reveal_strlit("{\"type\":\"play\",\"position_ms\":");
    reveal_strlit("{\"type\":\"");
    reveal_strlit("play");
    reveal_strlit(",\"position_ms\":");
    lemma_esc_id("play"@);
}

/// Shape of the frame head for one tag.
proof fn lemma_lit_pause()
    ensures
        "{\"type\":\"pause\",\"position_ms\":"@ =~= "{\"type\":\""@ + "pause"@ + seq!['\"'] + ",\"position_ms\":"@,
        esc("pause"@) == "pause"@,
{
    reveal_strlit("{\"type\":\"pause\",\"position_ms\":");
    reveal_strlit("{\"type\":\"");
    reveal_strlit("pause");
    reveal_strlit(",\"position_ms\":");
    lemma_esc_id("pause"@);
}

/// Shape of the frame head for one tag.
proof fn lemma_lit_seek()
    ensures
        "{\"type\":\"seek\",\"position_ms\":"@ =~= "{\"type\":\""@ + "seek"@ + seq!['\"'] + ",\"position_ms\":"@,
        esc("seek"@) == "seek"@,
{
    reveal_strlit("{\"type\":\"seek\",\"position_ms\":");
    reveal_strlit("{\"type\":\"");
    reveal_strlit("seek");
    reveal_strlit(",\"position_ms\":");
    lemma_esc_id("seek"@);
}

/// Shape of the frame head for one tag.
proof fn lemma_lit_sync_request()
    ensures
        "{\"type\":\"sync_request\"}"@ =~= "{\"type\":\""@ + "sync_request"@ + seq!['\"'] + "}"@,
        esc("sync_request"@) == "sync_request"@,
{
    reveal_strlit("{\"type\":\"sync_request\"}");
    reveal_strlit("{\"type\":\"");
    reveal_strlit("sync_request");
    reveal_strlit("}");
    lemma_esc_id("sync_request"@);
}

/// Shape of the frame head for one tag.
proof fn lemma_lit_sync_response()
    ensures
        "{\"type\":\"sync_response\",\"position_ms\":"@ =~= "{\"type\":\""@ + "sync_response"@ + seq!['\"'] + ",\"position_ms\":"@,
        esc("sync_response"@) == "sync_response"@,
{
    reveal_strlit("{\"type\":\"sync_response\",\"position_ms\":");
    reveal_strlit("{\"type\":\"");
    reveal_strlit("sync_response");
    reveal_strlit(",\"position_ms\":");
    lemma_esc_id("sync_response"@);
}

/// Shape of the frame head for one tag.
proof fn lemma_lit_media_change()
    ensures
        "{\"type\":\"media_change\",\"media_id\":"@ =~= "{\"type\":\""@ + "media_change"@ + seq!['\"'] + ",\"media_id\":"@,
        esc("media_change"@) == "media_change"@,
{
    reveal_strlit("{\"type\":\"media_change\",\"media_id\":");
    reveal_strlit("{\"type\":\"");
    reveal_strlit("media_change");
    reveal_strlit(",\"media_id\":");
    lemma_esc_id("media_change"@);
}

/// Shape of the frame head for one tag.
proof fn lemma_lit_next_episode()
    ensures
        "{\"type\":\"next_episode\"}"@ =~= "{\"type\":\""@ + "next_episode"@ + seq!['\"'] + "}"@,
        esc("next_episode"@) == "next_episode"@,
{
    reveal_strlit("{\"type\":\"next_episode\"}");
    reveal_strlit("{\"type\":\"");
    reveal_strlit("next_episode");
    reveal_strlit("}");
    lemma_esc_id("next_episode"@);
}

/// Shape of the frame head for one tag.
proof fn lemma_lit_queue_add()
    ensures
        "{\"type\":\"queue_add\",\"media_id\":"@ =~= "{\"type\":\""@ + "queue_add"@ + seq!['\"'] + ",\"media_id\":"@,
        esc("queue_add"@) == "queue_add"@,
{
    reveal_strlit("{\"type\":\"queue_add\",\"media_id\":");
    reveal_strlit("{\"type\":\"");
    reveal_strlit("queue_add");
    reveal_strlit(",\"media_id\":");
    lemma_esc_id("queue_add"@);
}

/// Shape of the frame head for one tag.
proof fn lemma_lit_queue_remove()
    ensures
        "{\"type\":\"queue_remove\",\"index\":"@ =~= "{\"type\":\""@ + "queue_remove"@ + seq!['\"'] + ",\"index\":"@,
        esc("queue_remove"@) == "queue_remove"@,
{
    reveal_strlit("{\"type\":\"queue_remove\",\"index\":");
    reveal_strlit("{\"type\":\"");
    reveal_strlit("queue_remove");
    reveal_strlit(",\"index\":");
    lemma_esc_id("queue_remove"@);
}

/// Shape of the frame head for one tag.
proof fn lemma_lit_chat()
    ensures
        "{\"type\":\"chat\",\"from\":"@ =~= "{\"type\":\""@ + "chat"@ + seq!['\"'] + ",\"from\":"@,
        esc("chat"@) == "chat"@,
{
    reveal_strlit("{\"type\":\"chat\",\"from\":");
    reveal_strlit("{\"type\":\"");
    reveal_strlit("chat");
    reveal_strlit(",\"from\":");
    lemma_esc_id("chat"@);
}

/// Shape of the frame head for one tag.
proof fn lemma_lit_navigate()
    ensures
        "{\"type\":\"navigate\",\"media_id\":"@ =~= "{\"type\":\""@ + "navigate"@ + seq!['\"'] + ",\"media_id\":"@,
        esc("navigate"@) == "navigate"@,
{
    reveal_strlit("{\"type\":\"navigate\",\"media_id\":");
    reveal_strlit("{\"type\":\"");
    reveal_strlit("navigate");
    reveal_strlit(",\"media_id\":");
    lemma_esc_id("navigate"@);
}

/// Shape of the frame head for one tag.
proof fn lemma_lit_buffering()
    ensures
        "{\"type\":\"buffering\",\"user_id\":"@ =~= "{\"type\":\""@ + "buffering"@ + seq!['\"'] + ",\"user_id\":"@,
        esc("buffering"@) == "buffering"@,
{
    reveal_strlit("{\"type\":\"buffering\",\"user_id\":");
    reveal_strlit("{\"type\":\"");
    reveal_strlit("buffering");
    reveal_strlit(",\"user_id\":");
    lemma_esc_id("buffering"@);
}

/// Shape of the frame head for one tag.
proof fn lemma_lit_ready()
    ensures
        "{\"type\":\"ready\",\"user_id\":"@ =~= "{\"type\":\""@ + "ready"@ + seq!['\"'] + ",\"user_id\":"@,
        esc("ready"@) == "ready"@,
{
    reveal_strlit("{\"type\":\"ready\",\"user_id\":");
    reveal_strlit("{\"type\":\"");
    reveal_strlit("ready");
    reveal_strlit(",\"user_id\":");
    lemma_esc_id("ready"@);
}

/// Shape of the frame head for one tag.
proof fn lemma_lit_sync_ack()
    ensures
        "{\"type\":\"sync_ack\"}"@ =~= "{\"type\":\""@ + "sync_ack"@ + seq!['\"'] + "}"@,
        esc("sync_ack"@) == "sync_ack"@,
{
    reveal_strlit("{\"type\":\"sync_ack\"}");
    reveal_strlit("{\"type\":\"");
    reveal_strlit("sync_ack");
    reveal_strlit("}");
    lemma_esc_id("sync_ack"@);
}

/// Shape of the frame head for one tag.
proof fn lemma_lit_ping()
    ensures
        "{\"type\":\"ping\"}"@ =~= "{\"type\":\""@ + "ping"@ + seq!['\"'] + "}"@,
        esc("ping"@) == "ping"@,
{
    reveal_strlit("{\"type\":\"ping\"}");
    reveal_strlit("{\"type\":\"");
    reveal_strlit("ping");
    reveal_strlit("}");
    lemma_esc_id("ping"@);
}

/// Field-chain round trip for one frame kind.
#[verifier::rlimit(100)]
proof fn lemma_rtf_play(position_ms: u64, user_id: i64)
    ensures
        ({
            let fin = "}"@;
            let l1 = ",\"position_ms\":"@;
            let l2 = ",\"user_id\":"@;
            dec_play_fields(l1 + print_u64(position_ms) + l2 + print_i64(user_id) + fin) == Some(MsgModel::Play { position_ms, user_id })
        }),
{
    reveal(dec_play_fields);
    let fin = "}"@;
    let l1 = ",\"position_ms\":"@;
    let l2 = ",\"user_id\":"@;
    let r0 = l1 + print_u64(position_ms) + l2 + print_i64(user_id) + fin;
    let q1 = print_u64(position_ms) + l2 + print_i64(user_id) + fin;
    assert(r0 =~= l1 + q1);
    lemma_expects_concat(l1, q1);
    let w1 = l2 + print_i64(user_id) + fin;
    assert(q1 =~= print_u64(position_ms) + w1);
    assert(w1[0] == ',') by {
        reveal_strlit(",\"user_id\":");
    }
    lemma_p_nat_u64_print(position_ms, w1);
    let q2 = print_i64(user_id) + fin;
    assert(w1 =~= l2 + q2);
    lemma_expects_concat(l2, q2);
    let w2 = fin;
    assert(q2 =~= print_i64(user_id) + w2);
    assert(w2[0] == '}') by {
        reveal_strlit("}");
    }
    lemma_p_int_i64_print(user_id, w2);
    assert(p_end(fin)) by {
        reveal_strlit("}");
    }
}

/// Field-chain round trip for one frame kind.
#[verifier::rlimit(100)]
proof fn lemma_rtf_pause(position_ms: u64, user_id: i64)
    ensures
        ({
            let fin = "}"@;
            let l1 = ",\"position_ms\":"@;
            let l2 = ",\"user_id\":"@;
            dec_pause_fields(l1 + print_u64(position_ms) + l2 + print_i64(user_id) + fin) == Some(MsgModel::Pause { position_ms, user_id })
        }),
{
    reveal(dec_pause_fields);
    let fin = "}"@;
    let l1 = ",\"position_ms\":"@;
    let l2 = ",\"user_id\":"@;
    let r0 = l1 + print_u64(position_ms) + l2 + print_i64(user_id) + fin;
    let q1 = print_u64(position_ms) + l2 + print_i64(user_id) + fin;
    assert(r0 =~= l1 + q1);
    lemma_expects_concat(l1, q1);
    let w1 = l2 + print_i64(user_id) + fin;
    assert(q1 =~= print_u64(position_ms) + w1);
    assert(w1[0] == ',') by {
        reveal_strlit(",\"user_id\":");
    }
    lemma_p_nat_u64_print(position_ms, w1);
    let q2 = print_i64(user_id) + fin;
    assert(w1 =~= l2 + q2);
    lemma_expects_concat(l2, q2);
    let w2 = fin;
    assert(q2 =~= print_i64(user_id) + w2);
    assert(w2[0] == '}') by {
        reveal_strlit("}");
    }
    lemma_p_int_i64_print(user_id, w2);
    assert(p_end(fin)) by {
        reveal_strlit("}");
    }
}

/// Field-chain round trip for one frame kind.
#[verifier::rlimit(100)]
proof fn lemma_rtf_seek(position_ms: u64, user_id: i64)
    ensures
        ({
            let fin = "}"@;
            let l1 = ",\"position_ms\":"@;
            let l2 = ",\"user_id\":"@;
            dec_seek_fields(l1 + print_u64(position_ms) + l2 + print_i64(user_id) + fin) == Some(MsgModel::Seek { position_ms, user_id })
        }),
{
    reveal(dec_seek_fields);
    let fin = "}"@;
    let l1 = ",\"position_ms\":"@;
    let l2 = ",\"user_id\":"@;
    let r0 = l1 + print_u64(position_ms) + l2 + print_i64(user_id) + fin;
    let q1 = print_u64(position_ms) + l2 + print_i64(user_id) + fin;
    assert(r0 =~= l1 + q1);
    lemma_expects_concat(l1, q1);
    let w1 = l2 + print_i64(user_id) + fin;
    assert(q1 =~= print_u64(position_ms) + w1);
    assert(w1[0] == ',') by {
        reveal_strlit(",\"user_id\":");
    }
    lemma_p_nat_u64_print(position_ms, w1);
    let q2 = print_i64(user_id) + fin;
    assert(w1 =~= l2 + q2);
    lemma_expects_concat(l2, q2);
    let w2 = fin;
    assert(q2 =~= print_i64(user_id) + w2);
    assert(w2[0] == '}') by {
        reveal_strlit("}");
    }
    lemma_p_int_i64_print(user_id, w2);
    assert(p_end(fin)) by {
        reveal_strlit("}");
    }
}

/// Field-chain round trip for one frame kind.
#[verifier::rlimit(100)]
proof fn lemma_rtf_sync_response(position_ms: u64, is_paused: bool, media_id: String)
    ensures
        ({
            let fin = "}"@;
            let l1 = ",\"position_ms\":"@;
            let l2 = ",\"is_paused\":"@;
            let l3 = ",\"media_id\":"@;
            dec_sync_response_fields(l1 + print_u64(position_ms) + l2 + enc_bool(is_paused) + l3 + enc_str(media_id@) + fin) == Some(MsgModel::SyncResponse { position_ms, is_paused, media_id: media_id@ })
        }),
{
    reveal(dec_sync_response_fields);
    let fin = "}"@;
    let l1 = ",\"position_ms\":"@;
    let l2 = ",\"is_paused\":"@;
    let l3 = ",\"media_id\":"@;
    let r0 = l1 + print_u64(position_ms) + l2 + enc_bool(is_paused) + l3 + enc_str(media_id@) + fin;
    let q1 = print_u64(position_ms) + l2 + enc_bool(is_paused) + l3 + enc_str(media_id@) + fin;
    assert(r0 =~= l1 + q1);
    lemma_expects_concat(l1, q1);
    let w1 = l2 + enc_bool(is_paused) + l3 + enc_str(media_id@) + fin;
    assert(q1 =~= print_u64(position_ms) + w1);
    assert(w1[0] == ',') by {
        reveal_strlit(",\"is_paused\":");
    }
    lemma_p_nat_u64_print(position_ms, w1);
    let q2 = enc_bool(is_paused) + l3 + enc_str(media_id@) + fin;
    assert(w1 =~= l2 + q2);
    lemma_expects_concat(l2, q2);
    let w2 = l3 + enc_str(media_id@) + fin;
    if is_paused {
        assert(q2 =~= "true"@ + w2);
        lemma_expects_concat("true"@, w2);
    } else {
        assert(q2 =~= "false"@ + w2);
        lemma_expects_concat("false"@, w2);
        assert(!expects(q2, "true"@)) by {
            reveal_strlit("true");
            reveal_strlit("false");
            assert(q2[0] == 'f');
        }
    }
    let q3 = enc_str(media_id@) + fin;
    assert(w2 =~= l3 + q3);
    lemma_expects_concat(l3, q3);
    let w3 = fin;
    assert(q3 =~= enc_str(media_id@) + w3);
    lemma_p_str_enc(media_id@, w3);
    assert(p_end(fin)) by {
        reveal_strlit("}");
    }
}

/// Field-chain round trip for one frame kind.
#[verifier::rlimit(100)]
proof fn lemma_rtf_media_change(media_id: String, title: Option<String>, duration_ms: u64)
    ensures
        ({
            let fin = "}"@;
            let l1 = ",\"media_id\":"@;
            let l2 = ",\"title\":"@;
            let l3 = ",\"duration_ms\":"@;
            dec_media_change_fields(l1 + enc_str(media_id@) + l2 + enc_opt_str(title.deep_view()) + l3 + print_u64(duration_ms) + fin) == Some(MsgModel::MediaChange { media_id: media_id@, title: title.deep_view(), duration_ms })
        }),
{
    reveal(dec_media_change_fields);
    let fin = "}"@;
    let l1 = ",\"media_id\":"@;
    let l2 = ",\"title\":"@;
    let l3 = ",\"duration_ms\":"@;
    let r0 = l1 + enc_str(media_id@) + l2 + enc_opt_str(title.deep_view()) + l3 + print_u64(duration_ms) + fin;
    let q1 = enc_str(media_id@) + l2 + enc_opt_str(title.deep_view()) + l3 + print_u64(duration_ms) + fin;
    assert(r0 =~= l1 + q1);
    lemma_expects_concat(l1, q1);
    let w1 = l2 + enc_opt_str(title.deep_view()) + l3 + print_u64(duration_ms) + fin;
    assert(q1 =~= enc_str(media_id@) + w1);
    lemma_p_str_enc(media_id@, w1);
    let q2 = enc_opt_str(title.deep_view()) + l3 + print_u64(duration_ms) + fin;
    assert(w1 =~= l2 + q2);
    lemma_expects_concat(l2, q2);
    let w2 = l3 + print_u64(duration_ms) + fin;
    match &title {
        Some(t) => {
            reveal_strlit("null");
            assert(title.deep_view() == Some(t@));
            assert(enc_opt_str(title.deep_view()) == enc_str(t@));
            assert(q2 =~= enc_str(t@) + w2);
            assert(q2[0] == '\"');
            assert("null"@[0] == 'n');
            assert(!expects(q2, "null"@));
            lemma_p_str_enc(t@, w2);
        },
        None => {
            reveal_strlit("null");
            assert(title.deep_view() is None);
            assert(enc_opt_str(title.deep_view()) == "null"@);
            assert(q2 =~= "null"@ + w2);
            lemma_expects_concat("null"@, w2);
        },
    }
    let q3 = print_u64(duration_ms) + fin;
    assert(w2 =~= l3 + q3);
    lemma_expects_concat(l3, q3);
    let w3 = fin;
    assert(q3 =~= print_u64(duration_ms) + w3);
    assert(w3[0] == '}') by {
        reveal_strlit("}");
    }
    lemma_p_nat_u64_print(duration_ms, w3);
    assert(p_end(fin)) by {
        reveal_strlit("}");
    }
}

/// Field-chain round trip for one frame kind.
#[verifier::rlimit(100)]
proof fn lemma_rtf_queue_add(media_id: String)
    ensures
        ({
            let fin = "}"@;
            let l1 = ",\"media_id\":"@;
            dec_queue_add_fields(l1 + enc_str(media_id@) + fin) == Some(MsgModel::QueueAdd { media_id: media_id@ })
        }),
{
    reveal(dec_queue_add_fields);
    let fin = "}"@;
    let l1 = ",\"media_id\":"@;
    let r0 = l1 + enc_str(media_id@) + fin;
    let q1 = enc_str(media_id@) + fin;
    assert(r0 =~= l1 + q1);
    lemma_expects_concat(l1, q1);
    let w1 = fin;
    assert(q1 =~= enc_str(media_id@) + w1);
    lemma_p_str_enc(media_id@, w1);
    assert(p_end(fin)) by {
        reveal_strlit("}");
    }
}

/// Field-chain round trip for one frame kind.
#[verifier::rlimit(100)]
proof fn lemma_rtf_queue_remove(index: usize)
    ensures
        ({
            let fin = "}"@;
            let l1 = ",\"index\":"@;
            dec_queue_remove_fields(l1 + print_nat(index as int) + fin) == Some(MsgModel::QueueRemove { index })
        }),
{
    reveal(dec_queue_remove_fields);
    let fin = "}"@;
    let l1 = ",\"index\":"@;
    let r0 = l1 + print_nat(index as int) + fin;
    let q1 = print_nat(index as int) + fin;
    assert(r0 =~= l1 + q1);
    lemma_expects_concat(l1, q1);
    let w1 = fin;
    assert(q1 =~= print_nat(index as int) + w1);
    assert(w1[0] == '}') by {
        reveal_strlit("}");
    }
    assert(print_nat(index as int) == print_u64(index as u64));
    lemma_p_nat_u64_print(index as u64, w1);
    assert((index as u64) <= usize::MAX as u64);
    assert(((index as u64) as usize) == index);
    assert(p_end(fin)) by {
        reveal_strlit("}");
    }
}

/// Field-chain round trip for one frame kind.
#[verifier::rlimit(100)]
proof fn lemma_rtf_chat(from: String, user_id: i64, message: String)
    ensures
        ({
            let fin = "}"@;
            let l1 = ",\"from\":"@;
            let l2 = ",\"user_id\":"@;
            let l3 = ",\"message\":"@;
            dec_chat_fields(l1 + enc_str(from@) + l2 + print_i64(user_id) + l3 + enc_str(message@) + fin) == Some(MsgModel::ChatMessage { from: from@, user_id, message: message@ })
        }),
{
    reveal(dec_chat_fields);
    let fin = "}"@;
    let l1 = ",\"from\":"@;
    let l2 = ",\"user_id\":"@;
    let l3 = ",\"message\":"@;
    let r0 = l1 + enc_str(from@) + l2 + print_i64(user_id) + l3 + enc_str(message@) + fin;
    let q1 = enc_str(from@) + l2 + print_i64(user_id) + l3 + enc_str(message@) + fin;
    assert(r0 =~= l1 + q1);
    lemma_expects_concat(l1, q1);
    let w1 = l2 + print_i64(user_id) + l3 + enc_str(message@) + fin;
    assert(q1 =~= enc_str(from@) + w1);
    lemma_p_str_enc(from@, w1);
    let q2 = print_i64(user_id) + l3 + enc_str(message@) + fin;
    assert(w1 =~= l2 + q2);
    lemma_expects_concat(l2, q2);
    let w2 = l3 + enc_str(message@) + fin;
    assert(q2 =~= print_i64(user_id) + w2);
    assert(w2[0] == ',') by {
        reveal_strlit(",\"message\":");
    }
    lemma_p_int_i64_print(user_id, w2);
    let q3 = enc_str(message@) + fin;
    assert(w2 =~= l3 + q3);
    lemma_expects_concat(l3, q3);
    let w3 = fin;
    assert(q3 =~= enc_str(message@) + w3);
    lemma_p_str_enc(message@, w3);
    assert(p_end(fin)) by {
        reveal_strlit("}");
    }
}

/// Field-chain round trip for one frame kind.
#[verifier::rlimit(100)]
proof fn lemma_rtf_navigate(media_id: String, route: String)
    ensures
        ({
            let fin = "}"@;
            let l1 = ",\"media_id\":"@;
            let l2 = ",\"route\":"@;
            dec_navigate_fields(l1 + enc_str(media_id@) + l2 + enc_str(route@) + fin) == Some(MsgModel::Navigate { media_id: media_id@, route: route@ })
        }),
{
    reveal(dec_navigate_fields);
    let fin = "}"@;
    let l1 = ",\"media_id\":"@;
    let l2 = ",\"route\":"@;
    let r0 = l1 + enc_str(media_id@) + l2 + enc_str(route@) + fin;
    let q1 = enc_str(media_id@) + l2 + enc_str(route@) + fin;
    assert(r0 =~= l1 + q1);
    lemma_expects_concat(l1, q1);
    let w1 = l2 + enc_str(route@) + fin;
    assert(q1 =~= enc_str(media_id@) + w1);
    lemma_p_str_enc(media_id@, w1);
    let q2 = enc_str(route@) + fin;
    assert(w1 =~= l2 + q2);
    lemma_expects_concat(l2, q2);
    let w2 = fin;
    assert(q2 =~= enc_str(route@) + w2);
    lemma_p_str_enc(route@, w2);
    assert(p_end(fin)) by {
        reveal_strlit("}");
    }
}

/// Field-chain round trip for one frame kind.
#[verifier::rlimit(100)]
proof fn lemma_rtf_buffering(user_id: i64)
    ensures
        ({
            let fin = "}"@;
            let l1 = ",\"user_id\":"@;
            dec_buffering_fields(l1 + print_i64(user_id) + fin) == Some(MsgModel::Buffering { user_id })
        }),
{
    reveal(dec_buffering_fields);
    let fin = "}"@;
    let l1 = ",\"user_id\":"@;
    let r0 = l1 + print_i64(user_id) + fin;
    let q1 = print_i64(user_id) + fin;
    assert(r0 =~= l1 + q1);
    lemma_expects_concat(l1, q1);
    let w1 = fin;
    assert(q1 =~= print_i64(user_id) + w1);
    assert(w1[0] == '}') by {
        reveal_strlit("}");
    }
    lemma_p_int_i64_print(user_id, w1);
    assert(p_end(fin)) by {
        reveal_strlit("}");
    }
}

/// Field-chain round trip for one frame kind.
#[verifier::rlimit(100)]
proof fn lemma_rtf_ready(user_id: i64)
    ensures
        ({
            let fin = "}"@;
            let l1 = ",\"user_id\":"@;
            dec_ready_fields(l1 + print_i64(user_id) + fin) == Some(MsgModel::Ready { user_id })
        }),
{
    reveal(dec_ready_fields);
    let fin = "}"@;
    let l1 = ",\"user_id\":"@;
    let r0 = l1 + print_i64(user_id) + fin;
    let q1 = print_i64(user_id) + fin;
    assert(r0 =~= l1 + q1);
    lemma_expects_concat(l1, q1);
    let w1 = fin;
    assert(q1 =~= print_i64(user_id) + w1);
    assert(w1[0] == '}') by {
        reveal_strlit("}");
    }
    lemma_p_int_i64_print(user_id, w1);
    assert(p_end(fin)) by {
        reveal_strlit("}");
    }
}

/// The dispatch picks the branch of this tag.
#[verifier::rlimit(100)]
proof fn lemma_sel_play(tag: Seq<char>, r: Seq<char>)
    requires
        tag == "play"@,
    ensures
        dec_tagged(tag, r) == dec_play_fields(r),
{
    reveal_strlit("play");
    assert("play"@.len() == 4);
}

/// The dispatch picks the branch of this tag.
#[verifier::rlimit(100)]
proof fn lemma_sel_pause(tag: Seq<char>, r: Seq<char>)
    requires
        tag == "pause"@,
    ensures
        dec_tagged(tag, r) == dec_pause_fields(r),
{
    reveal_strlit("pause");
    reveal_strlit("play");
    assert("pause"@.len() == 5);
    assert("play"@.len() == 4);
    assert(tag != "play"@);
}

/// The dispatch picks the branch of this tag.
#[verifier::rlimit(100)]
proof fn lemma_sel_seek(tag: Seq<char>, r: Seq<char>)
    requires
        tag == "seek"@,
    ensures
        dec_tagged(tag, r) == dec_seek_fields(r),
{
    reveal_strlit("seek");
    reveal_strlit("pause");
    reveal_strlit("play");
    assert("seek"@.len() == 4);
    assert("seek"@[0] == 's');
    assert("play"@[0] == 'p');
    assert(tag != "play"@);
    assert("pause"@.len() == 5);
    assert(tag != "pause"@);
}

/// The dispatch picks the branch of this tag.
#[verifier::rlimit(100)]
proof fn lemma_sel_sync_request(tag: Seq<char>, r: Seq<char>)
    requires
        tag == "sync_request"@,
    ensures
        dec_tagged(tag, r) == dec_sync_request_fields(r),
{
    reveal_strlit("sync_request");
    reveal_strlit("pause");
    reveal_strlit("play");
    reveal_strlit("seek");
    assert("sync_request"@.len() == 12);
    assert("play"@.len() == 4);
    assert(tag != "play"@);
    assert("pause"@.len() == 5);
    assert(tag != "pause"@);
    assert("seek"@.len() == 4);
    assert(tag != "seek"@);
}

/// The dispatch picks the branch of this tag.
#[verifier::rlimit(100)]
proof fn lemma_sel_sync_response(tag: Seq<char>, r: Seq<char>)
    requires
        tag == "sync_response"@,
    ensures
        dec_tagged(tag, r) == dec_sync_response_fields(r),
{
    reveal_strlit("sync_response");
    reveal_strlit("pause");
    reveal_strlit("play");
    reveal_strlit("seek");
    reveal_strlit("sync_request");
    assert("sync_response"@.len() == 13);
    assert("play"@.len() == 4);
    assert(tag != "play"@);
    assert("pause"@.len() == 5);
    assert(tag != "pause"@);
    assert("seek"@.len() == 4);
    assert(tag != "seek"@);
    assert("sync_request"@.len() == 12);
    assert(tag != "sync_request"@);
}

/// The dispatch picks the branch of this tag.
#[verifier::rlimit(100)]
proof fn lemma_sel_media_change(tag: Seq<char>, r: Seq<char>)
    requires
        tag == "media_change"@,
    ensures
        dec_tagged(tag, r) == dec_media_change_fields(r),
{
    reveal_strlit("media_change");
    reveal_strlit("pause");
    reveal_strlit("play");
    reveal_strlit("seek");
    reveal_strlit("sync_request");
    reveal_strlit("sync_response");
    assert("media_change"@.len() == 12);
    assert("play"@.len() == 4);
    assert(tag != "play"@);
    assert("pause"@.len() == 5);
    assert(tag != "pause"@);
    assert("seek"@.len() == 4);
    assert(tag != "seek"@);
    assert("media_change"@[0] == 'm');
    assert("sync_request"@[0] == 's');
    assert(tag != "sync_request"@);
    assert("sync_response"@.len() == 13);
    assert(tag != "sync_response"@);
}

/// The dispatch picks the branch of this tag.
#[verifier::rlimit(100)]
proof fn lemma_sel_next_episode(tag: Seq<char>, r: Seq<char>)
    requires
        tag == "next_episode"@,
    ensures
        dec_tagged(tag, r) == dec_next_episode_fields(r),
{
    reveal_strlit("next_episode");
    reveal_strlit("media_change");
    reveal_strlit("pause");
    reveal_strlit("play");
    reveal_strlit("seek");
    reveal_strlit("sync_request");
    reveal_strlit("sync_response");
    assert("next_episode"@.len() == 12);
    assert("play"@.len() == 4);
    assert(tag != "play"@);
    assert("pause"@.len() == 5);
    assert(tag != "pause"@);
    assert("seek"@.len() == 4);
    assert(tag != "seek"@);
    assert("next_episode"@[0] == 'n');
    assert("sync_request"@[0] == 's');
    assert(tag != "sync_request"@);
    assert("sync_response"@.len() == 13);
    assert(tag != "sync_response"@);
    assert("next_episode"@[0] == 'n');
    assert("media_change"@[0] == 'm');
    assert(tag != "media_change"@);
}

/// The dispatch picks the branch of this tag.
#[verifier::rlimit(100)]
proof fn lemma_sel_queue_add(tag: Seq<char>, r: Seq<char>)
    requires
        tag == "queue_add"@,
    ensures
        dec_tagged(tag, r) == dec_queue_add_fields(r),
{
    reveal_strlit("queue_add");
    reveal_strlit("media_change");
    reveal_strlit("next_episode");
    reveal_strlit("pause");
    reveal_strlit("play");
    reveal_strlit("seek");
    reveal_strlit("sync_request");
    reveal_strlit("sync_response");
    assert("queue_add"@.len() == 9);
    assert("play"@.len() == 4);
    assert(tag != "play"@);
    assert("pause"@.len() == 5);
    assert(tag != "pause"@);
    assert("seek"@.len() == 4);
    assert(tag != "seek"@);
    assert("sync_request"@.len() == 12);
    assert(tag != "sync_request"@);
    assert("sync_response"@.len() == 13);
    assert(tag != "sync_response"@);
    assert("media_change"@.len() == 12);
    assert(tag != "media_change"@);
    assert("next_episode"@.len() == 12);
    assert(tag != "next_episode"@);
}

/// The dispatch picks the branch of this tag.
#[verifier::rlimit(100)]
proof fn lemma_sel_queue_remove(tag: Seq<char>, r: Seq<char>)
    requires
        tag == "queue_remove"@,
    ensures
        dec_tagged(tag, r) == dec_queue_remove_fields(r),
{
    reveal_strlit("queue_remove");
    reveal_strlit("media_change");
    reveal_strlit("next_episode");
    reveal_strlit("pause");
    reveal_strlit("play");
    reveal_strlit("queue_add");
    reveal_strlit("seek");
    reveal_strlit("sync_request");
    reveal_strlit("sync_response");
    assert("queue_remove"@.len() == 12);
    assert("play"@.len() == 4);
    assert(tag != "play"@);
    assert("pause"@.len() == 5);
    assert(tag != "pause"@);
    assert("seek"@.len() == 4);
    assert(tag != "seek"@);
    assert("queue_remove"@[0] == 'q');
    assert("sync_request"@[0] == 's');
    assert(tag != "sync_request"@);
    assert("sync_response"@.len() == 13);
    assert(tag != "sync_response"@);
    assert("queue_remove"@[0] == 'q');
    assert("media_change"@[0] == 'm');
    assert(tag != "media_change"@);
    assert("queue_remove"@[0] == 'q');
    assert("next_episode"@[0] == 'n');
    assert(tag != "next_episode"@);
    assert("queue_add"@.len() == 9);
    assert(tag != "queue_add"@);
}

/// The dispatch picks the branch of this tag.
#[verifier::rlimit(100)]
proof fn lemma_sel_chat(tag: Seq<char>, r: Seq<char>)
    requires
        tag == "chat"@,
    ensures
        dec_tagged(tag, r) == dec_chat_fields(r),
{
    reveal_strlit("chat");
    reveal_strlit("media_change");
    reveal_strlit("next_episode");
    reveal_strlit("pause");
    reveal_strlit("play");
    reveal_strlit("queue_add");
    reveal_strlit("queue_remove");
    reveal_strlit("seek");
    reveal_strlit("sync_request");
    reveal_strlit("sync_response");
    assert("chat"@.len() == 4);
    assert("chat"@[0] == 'c');
    assert("play"@[0] == 'p');
    assert(tag != "play"@);
    assert("pause"@.len() == 5);
    assert(tag != "pause"@);
    assert("chat"@[0] == 'c');
    assert("seek"@[0] == 's');
    assert(tag != "seek"@);
    assert("sync_request"@.len() == 12);
    assert(tag != "sync_request"@);
    assert("sync_response"@.len() == 13);
    assert(tag != "sync_response"@);
    assert("media_change"@.len() == 12);
    assert(tag != "media_change"@);
    assert("next_episode"@.len() == 12);
    assert(tag != "next_episode"@);
    assert("queue_add"@.len() == 9);
    assert(tag != "queue_add"@);
    assert("queue_remove"@.len() == 12);
    assert(tag != "queue_remove"@);
}

/// The dispatch picks the branch of this tag.
#[verifier::rlimit(100)]
proof fn lemma_sel_navigate(tag: Seq<char>, r: Seq<char>)
    requires
        tag == "navigate"@,
    ensures
        dec_tagged(tag, r) == dec_navigate_fields(r),
{
    reveal_strlit("navigate");
    reveal_strlit("chat");
    reveal_strlit("media_change");
    reveal_strlit("next_episode");
    reveal_strlit("pause");
    reveal_strlit("play");
    reveal_strlit("queue_add");
    reveal_strlit("queue_remove");
    reveal_strlit("seek");
    reveal_strlit("sync_request");
    reveal_strlit("sync_response");
    assert("navigate"@.len() == 8);
    assert("play"@.len() == 4);
    assert(tag != "play"@);
    assert("pause"@.len() == 5);
    assert(tag != "pause"@);
    assert("seek"@.len() == 4);
    assert(tag != "seek"@);
    assert("sync_request"@.len() == 12);
    assert(tag != "sync_request"@);
    assert("sync_response"@.len() == 13);
    assert(tag != "sync_response"@);
    assert("media_change"@.len() == 12);
    assert(tag != "media_change"@);
    assert("next_episode"@.len() == 12);
    assert(tag != "next_episode"@);
    assert("queue_add"@.len() == 9);
    assert(tag != "queue_add"@);
    assert("queue_remove"@.len() == 12);
    assert(tag != "queue_remove"@);
    assert("chat"@.len() == 4);
    assert(tag != "chat"@);
}

/// The dispatch picks the branch of this tag.
#[verifier::rlimit(100)]
proof fn lemma_sel_buffering(tag: Seq<char>, r: Seq<char>)
    requires
        tag == "buffering"@,
    ensures
        dec_tagged(tag, r) == dec_buffering_fields(r),
{
    reveal_strlit("buffering");
    reveal_strlit("chat");
    reveal_strlit("media_change");
    reveal_strlit("navigate");
    reveal_strlit("next_episode");
    reveal_strlit("pause");
    reveal_strlit("play");
    reveal_strlit("queue_add");
    reveal_strlit("queue_remove");
    reveal_strlit("seek");
    reveal_strlit("sync_request");
    reveal_strlit("sync_response");
    assert("buffering"@.len() == 9);
    assert("play"@.len() == 4);
    assert(tag != "play"@);
    assert("pause"@.len() == 5);
    assert(tag != "pause"@);
    assert("seek"@.len() == 4);
    assert(tag != "seek"@);
    assert("sync_request"@.len() == 12);
    assert(tag != "sync_request"@);
    assert("sync_response"@.len() == 13);
    assert(tag != "sync_response"@);
    assert("media_change"@.len() == 12);
    assert(tag != "media_change"@);
    assert("next_episode"@.len() == 12);
    assert(tag != "next_episode"@);
    assert("buffering"@[0] == 'b');
    assert("queue_add"@[0] == 'q');
    assert(tag != "queue_add"@);
    assert("queue_remove"@.len() == 12);
    assert(tag != "queue_remove"@);
    assert("chat"@.len() == 4);
    assert(tag != "chat"@);
    assert("navigate"@.len() == 8);
    assert(tag != "navigate"@);
}

/// The dispatch picks the branch of this tag.
#[verifier::rlimit(100)]
proof fn lemma_sel_ready(tag: Seq<char>, r: Seq<char>)
    requires
        tag == "ready"@,
    ensures
        dec_tagged(tag, r) == dec_ready_fields(r),
{
    reveal_strlit("ready");
    reveal_strlit("buffering");
    reveal_strlit("chat");
    reveal_strlit("media_change");
    reveal_strlit("navigate");
    reveal_strlit("next_episode");
    reveal_strlit("pause");
    reveal_strlit("play");
    reveal_strlit("queue_add");
    reveal_strlit("queue_remove");
    reveal_strlit("seek");
    reveal_strlit("sync_request");
    reveal_strlit("sync_response");
    assert("ready"@.len() == 5);
    assert("play"@.len() == 4);
    assert(tag != "play"@);
    assert("ready"@[0] == 'r');
    assert("pause"@[0] == 'p');
    assert(tag != "pause"@);
    assert("seek"@.len() == 4);
    assert(tag != "seek"@);
    assert("sync_request"@.len() == 12);
    assert(tag != "sync_request"@);
    assert("sync_response"@.len() == 13);
    assert(tag != "sync_response"@);
    assert("media_change"@.len() == 12);
    assert(tag != "media_change"@);
    assert("next_episode"@.len() == 12);
    assert(tag != "next_episode"@);
    assert("queue_add"@.len() == 9);
    assert(tag != "queue_add"@);
    assert("queue_remove"@.len() == 12);
    assert(tag != "queue_remove"@);
    assert("chat"@.len() == 4);
    assert(tag != "chat"@);
    assert("navigate"@.len() == 8);
    assert(tag != "navigate"@);
    assert("buffering"@.len() == 9);
    assert(tag != "buffering"@);
}

/// The dispatch picks the branch of this tag.
#[verifier::rlimit(100)]
proof fn lemma_sel_sync_ack(tag: Seq<char>, r: Seq<char>)
    requires
        tag == "sync_ack"@,
    ensures
        dec_tagged(tag, r) == dec_sync_ack_fields(r),
{
    reveal_strlit("sync_ack");
    reveal_strlit("buffering");
    reveal_strlit("chat");
    reveal_strlit("media_change");
    reveal_strlit("navigate");
    reveal_strlit("next_episode");
    reveal_strlit("pause");
    reveal_strlit("play");
    reveal_strlit("queue_add");
    reveal_strlit("queue_remove");
    reveal_strlit("ready");
    reveal_strlit("seek");
    reveal_strlit("sync_request");
    reveal_strlit("sync_response");
    assert("sync_ack"@.len() == 8);
    assert("play"@.len() == 4);
    assert(tag != "play"@);
    assert("pause"@.len() == 5);
    assert(tag != "pause"@);
    assert("seek"@.len() == 4);
    assert(tag != "seek"@);
    assert("sync_request"@.len() == 12);
    assert(tag != "sync_request"@);
    assert("sync_response"@.len() == 13);
    assert(tag != "sync_response"@);
    assert("media_change"@.len() == 12);
    assert(tag != "media_change"@);
    assert("next_episode"@.len() == 12);
    assert(tag != "next_episode"@);
    assert("queue_add"@.len() == 9);
    assert(tag != "queue_add"@);
    assert("queue_remove"@.len() == 12);
    assert(tag != "queue_remove"@);
    assert("chat"@.len() == 4);
    assert(tag != "chat"@);
    assert("sync_ack"@[0] == 's');
    assert("navigate"@[0] == 'n');
    assert(tag != "navigate"@);
    assert("buffering"@.len() == 9);
    assert(tag != "buffering"@);
    assert("ready"@.len() == 5);
    assert(tag != "ready"@);
}

/// The dispatch picks the branch of this tag.
#[verifier::rlimit(100)]
proof fn lemma_sel_ping(tag: Seq<char>, r: Seq<char>)
    requires
        tag == "ping"@,
    ensures
        dec_tagged(tag, r) == dec_ping_fields(r),
{
    reveal_strlit("ping");
    reveal_strlit("buffering");
    reveal_strlit("chat");
    reveal_strlit("media_change");
    reveal_strlit("navigate");
    reveal_strlit("next_episode");
    reveal_strlit("pause");
    reveal_strlit("play");
    reveal_strlit("queue_add");
    reveal_strlit("queue_remove");
    reveal_strlit("ready");
    reveal_strlit("seek");
    reveal_strlit("sync_ack");
    reveal_strlit("sync_request");
    reveal_strlit("sync_response");
    assert("ping"@.len() == 4);
    assert("ping"@[1] == 'i');
    assert("play"@[1] == 'l');
    assert(tag != "play"@);
    assert("pause"@.len() == 5);
    assert(tag != "pause"@);
    assert("ping"@[0] == 'p');
    assert("seek"@[0] == 's');
    assert(tag != "seek"@);
    assert("sync_request"@.len() == 12);
    assert(tag != "sync_request"@);
    assert("sync_response"@.len() == 13);
    assert(tag != "sync_response"@);
    assert("media_change"@.len() == 12);
    assert(tag != "media_change"@);
    assert("next_episode"@.len() == 12);
    assert(tag != "next_episode"@);
    assert("queue_add"@.len() == 9);
    assert(tag != "queue_add"@);
    assert("queue_remove"@.len() == 12);
    assert(tag != "queue_remove"@);
    assert("ping"@[0] == 'p');
    assert("chat"@[0] == 'c');
    assert(tag != "chat"@);
    assert("navigate"@.len() == 8);
    assert(tag != "navigate"@);
    assert("buffering"@.len() == 9);
    assert(tag != "buffering"@);
    assert("ready"@.len() == 5);
    assert(tag != "ready"@);
    assert("sync_ack"@.len() == 8);
    assert(tag != "sync_ack"@);
}
/// Round trip for one frame kind.
#[verifier::rlimit(100)]
proof fn lemma_rt_play(msg: WsMessage)
    requires
        msg is Play,
    ensures
        dec(enc(msg@)) == Some(msg@),
{
    reveal(dec_play_fields);
    match msg {
        WsMessage::Play { position_ms, user_id } => {
            let tp = "{\"type\":\""@;
            let tg = "play"@;
            let fin = "}"@;
            lemma_lit_play();
            let l1 = ",\"position_ms\":"@;
            let l2 = ",\"user_id\":"@;
            let r0 = l1 + print_u64(position_ms) + l2 + print_i64(user_id) + fin;
            let x = esc(tg) + seq!['\"'] + r0;
            assert(enc(msg@) =~= (tp + tg + seq!['\"'] + l1) + (print_u64(position_ms) + l2 + print_i64(user_id) + fin));
            assert(enc(msg@) =~= tp + x);
            lemma_expects_concat(tp, x);
            lemma_p_str_body_esc(tg, r0);
            lemma_rtf_play(position_ms, user_id);
            assert(dec_play_fields(r0) == Some(msg@));
            lemma_sel_play(tg, r0);
            assert(dec_tagged(tg, r0) == Some(msg@));
            assert(dec(enc(msg@)) == Some(msg@));
        },
        _ => {},
    }
}

/// Round trip for one frame kind.
#[verifier::rlimit(100)]
proof fn lemma_rt_pause(msg: WsMessage)
    requires
        msg is Pause,
    ensures
        dec(enc(msg@)) == Some(msg@),
{
    reveal(dec_pause_fields);
    match msg {
        WsMessage::Pause { position_ms, user_id } => {
            let tp = "{\"type\":\""@;
            let tg = "pause"@;
            let fin = "}"@;
            lemma_lit_pause();
            let l1 = ",\"position_ms\":"@;
            let l2 = ",\"user_id\":"@;
            let r0 = l1 + print_u64(position_ms) + l2 + print_i64(user_id) + fin;
            let x = esc(tg) + seq!['\"'] + r0;
            assert(enc(msg@) =~= (tp + tg + seq!['\"'] + l1) + (print_u64(position_ms) + l2 + print_i64(user_id) + fin));
            assert(enc(msg@) =~= tp + x);
            lemma_expects_concat(tp, x);
            lemma_p_str_body_esc(tg, r0);
            lemma_rtf_pause(position_ms, user_id);
            assert(dec_pause_fields(r0) == Some(msg@));
            lemma_sel_pause(tg, r0);
            assert(dec_tagged(tg, r0) == Some(msg@));
            assert(dec(enc(msg@)) == Some(msg@));
        },
        _ => {},
    }
}

/// Round trip for one frame kind.
#[verifier::rlimit(100)]
proof fn lemma_rt_seek(msg: WsMessage)
    requires
        msg is Seek,
    ensures
        dec(enc(msg@)) == Some(msg@),
{
    reveal(dec_seek_fields);
    match msg {
        WsMessage::Seek { position_ms, user_id } => {
            let tp = "{\"type\":\""@;
            let tg = "seek"@;
            let fin = "}"@;
            lemma_lit_seek();
            let l1 = ",\"position_ms\":"@;
            let l2 = ",\"user_id\":"@;
            let r0 = l1 + print_u64(position_ms) + l2 + print_i64(user_id) + fin;
            let x = esc(tg) + seq!['\"'] + r0;
            assert(enc(msg@) =~= (tp + tg + seq!['\"'] + l1) + (print_u64(position_ms) + l2 + print_i64(user_id) + fin));
            assert(enc(msg@) =~= tp + x);
            lemma_expects_concat(tp, x);
            lemma_p_str_body_esc(tg, r0);
            lemma_rtf_seek(position_ms, user_id);
            assert(dec_seek_fields(r0) == Some(msg@));
            lemma_sel_seek(tg, r0);
            assert(dec_tagged(tg, r0) == Some(msg@));
            assert(dec(enc(msg@)) == Some(msg@));
        },
        _ => {},
    }
}

/// Round trip for one frame kind.
#[verifier::rlimit(100)]
proof fn lemma_rt_sync_request(msg: WsMessage)
    requires
        msg is SyncRequest,
    ensures
        dec(enc(msg@)) == Some(msg@),
{
    reveal(dec_sync_request_fields);
    let tp = "{\"type\":\""@;
    let tg = "sync_request"@;
    let fin = "}"@;
    lemma_lit_sync_request();
    let r0 = fin;
    let x = esc(tg) + seq!['\"'] + r0;
    assert(enc(msg@) =~= tp + x);
    lemma_expects_concat(tp, x);
    lemma_p_str_body_esc(tg, r0);
    assert(p_end(fin)) by {
        reveal_strlit("}");
    }
    assert(dec_sync_request_fields(r0) == Some(msg@));
    lemma_sel_sync_request(tg, r0);
    assert(dec_tagged(tg, r0) == Some(msg@));
    assert(dec(enc(msg@)) == Some(msg@));
}

/// Round trip for one frame kind.
#[verifier::rlimit(100)]
proof fn lemma_rt_sync_response(msg: WsMessage)
    requires
        msg is SyncResponse,
    ensures
        dec(enc(msg@)) == Some(msg@),
{
    reveal(dec_sync_response_fields);
    match msg {
        WsMessage::SyncResponse { position_ms, is_paused, media_id } => {
            let tp = "{\"type\":\""@;
            let tg = "sync_response"@;
            let fin = "}"@;
            lemma_lit_sync_response();
            let l1 = ",\"position_ms\":"@;
            let l2 = ",\"is_paused\":"@;
            let l3 = ",\"media_id\":"@;
            let r0 = l1 + print_u64(position_ms) + l2 + enc_bool(is_paused) + l3 + enc_str(media_id@) + fin;
            let x = esc(tg) + seq!['\"'] + r0;
            assert(enc(msg@) =~= (tp + tg + seq!['\"'] + l1) + (print_u64(position_ms) + l2 + enc_bool(is_paused) + l3 + enc_str(media_id@) + fin));
            assert(enc(msg@) =~= tp + x);
            lemma_expects_concat(tp, x);
            lemma_p_str_body_esc(tg, r0);
            lemma_rtf_sync_response(position_ms, is_paused, media_id);
            assert(dec_sync_response_fields(r0) == Some(msg@));
            lemma_sel_sync_response(tg, r0);
            assert(dec_tagged(tg, r0) == Some(msg@));
            assert(dec(enc(msg@)) == Some(msg@));
        },
        _ => {},
    }
}

/// Round trip for one frame kind.
#[verifier::rlimit(100)]
proof fn lemma_rt_media_change(msg: WsMessage)
    requires
        msg is MediaChange,
    ensures
        dec(enc(msg@)) == Some(msg@),
{
    reveal(dec_media_change_fields);
    match msg {
        WsMessage::MediaChange { media_id, title, duration_ms } => {
            let tp = "{\"type\":\""@;
            let tg = "media_change"@;
            let fin = "}"@;
            lemma_lit_media_change();
            let l1 = ",\"media_id\":"@;
            let l2 = ",\"title\":"@;
            let l3 = ",\"duration_ms\":"@;
            let r0 = l1 + enc_str(media_id@) + l2 + enc_opt_str(title.deep_view()) + l3 + print_u64(duration_ms) + fin;
            let x = esc(tg) + seq!['\"'] + r0;
            assert(enc(msg@) =~= (tp + tg + seq!['\"'] + l1) + (enc_str(media_id@) + l2 + enc_opt_str(title.deep_view()) + l3 + print_u64(duration_ms) + fin));
            assert(enc(msg@) =~= tp + x);
            lemma_expects_concat(tp, x);
            lemma_p_str_body_esc(tg, r0);
            lemma_rtf_media_change(media_id, title, duration_ms);
            assert(dec_media_change_fields(r0) == Some(msg@));
            lemma_sel_media_change(tg, r0);
            assert(dec_tagged(tg, r0) == Some(msg@));
            assert(dec(enc(msg@)) == Some(msg@));
        },
        _ => {},
    }
}

/// Round trip for one frame kind.
#[verifier::rlimit(100)]
proof fn lemma_rt_next_episode(msg: WsMessage)
    requires
        msg is NextEpisode,
    ensures
        dec(enc(msg@)) == Some(msg@),
{
    reveal(dec_next_episode_fields);
    let tp = "{\"type\":\""@;
    let tg = "next_episode"@;
    let fin = "}"@;
    lemma_lit_next_episode();
    let r0 = fin;
    let x = esc(tg) + seq!['\"'] + r0;
    assert(enc(msg@) =~= tp + x);
    lemma_expects_concat(tp, x);
    lemma_p_str_body_esc(tg, r0);
    assert(p_end(fin)) by {
        reveal_strlit("}");
    }
    assert(dec_next_episode_fields(r0) == Some(msg@));
    lemma_sel_next_episode(tg, r0);
    assert(dec_tagged(tg, r0) == Some(msg@));
    assert(dec(enc(msg@)) == Some(msg@));
}

/// Round trip for one frame kind.
#[verifier::rlimit(100)]
proof fn lemma_rt_queue_add(msg: WsMessage)
    requires
        msg is QueueAdd,
    ensures
        dec(enc(msg@)) == Some(msg@),
{
    reveal(dec_queue_add_fields);
    match msg {
        WsMessage::QueueAdd { media_id } => {
            let tp = "{\"type\":\""@;
            let tg = "queue_add"@;
            let fin = "}"@;
            lemma_lit_queue_add();
            let l1 = ",\"media_id\":"@;
            let r0 = l1 + enc_str(media_id@) + fin;
            let x = esc(tg) + seq!['\"'] + r0;
            assert(enc(msg@) =~= (tp + tg + seq!['\"'] + l1) + (enc_str(media_id@) + fin));
            assert(enc(msg@) =~= tp + x);
            lemma_expects_concat(tp, x);
            lemma_p_str_body_esc(tg, r0);
            lemma_rtf_queue_add(media_id);
            assert(dec_queue_add_fields(r0) == Some(msg@));
            lemma_sel_queue_add(tg, r0);
            assert(dec_tagged(tg, r0) == Some(msg@));
            assert(dec(enc(msg@)) == Some(msg@));
        },
        _ => {},
    }
}

/// Round trip for one frame kind.
#[verifier::rlimit(100)]
proof fn lemma_rt_queue_remove(msg: WsMessage)
    requires
        msg is QueueRemove,
    ensures
        dec(enc(msg@)) == Some(msg@),
{
    reveal(dec_queue_remove_fields);
    match msg {
        WsMessage::QueueRemove { index } => {
            let tp = "{\"type\":\""@;
            let tg = "queue_remove"@;
            let fin = "}"@;
            lemma_lit_queue_remove();
            let l1 = ",\"index\":"@;
            let r0 = l1 + print_nat(index as int) + fin;
            let x = esc(tg) + seq!['\"'] + r0;
            assert(enc(msg@) =~= (tp + tg + seq!['\"'] + l1) + (print_nat(index as int) + fin));
            assert(enc(msg@) =~= tp + x);
            lemma_expects_concat(tp, x);
            lemma_p_str_body_esc(tg, r0);
            lemma_rtf_queue_remove(index);
            assert(dec_queue_remove_fields(r0) == Some(msg@));
            lemma_sel_queue_remove(tg, r0);
            assert(dec_tagged(tg, r0) == Some(msg@));
            assert(dec(enc(msg@)) == Some(msg@));
        },
        _ => {},
    }
}

/// Round trip for one frame kind.
#[verifier::rlimit(100)]
proof fn lemma_rt_chat(msg: WsMessage)
    requires
        msg is ChatMessage,
    ensures
        dec(enc(msg@)) == Some(msg@),
{
    reveal(dec_chat_fields);
    match msg {
        WsMessage::ChatMessage { from, user_id, message } => {
            let tp = "{\"type\":\""@;
            let tg = "chat"@;
            let fin = "}"@;
            lemma_lit_chat();
            let l1 = ",\"from\":"@;
            let l2 = ",\"user_id\":"@;
            let l3 = ",\"message\":"@;
            let r0 = l1 + enc_str(from@) + l2 + print_i64(user_id) + l3 + enc_str(message@) + fin;
            let x = esc(tg) + seq!['\"'] + r0;
            assert(enc(msg@) =~= (tp + tg + seq!['\"'] + l1) + (enc_str(from@) + l2 + print_i64(user_id) + l3 + enc_str(message@) + fin));
            assert(enc(msg@) =~= tp + x);
            lemma_expects_concat(tp, x);
            lemma_p_str_body_esc(tg, r0);
            lemma_rtf_chat(from, user_id, message);
            assert(dec_chat_fields(r0) == Some(msg@));
            lemma_sel_chat(tg, r0);
            assert(dec_tagged(tg, r0) == Some(msg@));
            assert(dec(enc(msg@)) == Some(msg@));
        },
        _ => {},
    }
}

/// Round trip for one frame kind.
#[verifier::rlimit(100)]
proof fn lemma_rt_navigate(msg: WsMessage)
    requires
        msg is Navigate,
    ensures
        dec(enc(msg@)) == Some(msg@),
{
    reveal(dec_navigate_fields);
    match msg {
        WsMessage::Navigate { media_id, route } => {
            let tp = "{\"type\":\""@;
            let tg = "navigate"@;
            let fin = "}"@;
            lemma_lit_navigate();
            let l1 = ",\"media_id\":"@;
            let l2 = ",\"route\":"@;
            let r0 = l1 + enc_str(media_id@) + l2 + enc_str(route@) + fin;
            let x = esc(tg) + seq!['\"'] + r0;
            assert(enc(msg@) =~= (tp + tg + seq!['\"'] + l1) + (enc_str(media_id@) + l2 + enc_str(route@) + fin));
            assert(enc(msg@) =~= tp + x);
            lemma_expects_concat(tp, x);
            lemma_p_str_body_esc(tg, r0);
            lemma_rtf_navigate(media_id, route);
            assert(dec_navigate_fields(r0) == Some(msg@));
            lemma_sel_navigate(tg, r0);
            assert(dec_tagged(tg, r0) == Some(msg@));
            assert(dec(enc(msg@)) == Some(msg@));
        },
        _ => {},
    }
}

/// Round trip for one frame kind.
#[verifier::rlimit(100)]
proof fn lemma_rt_buffering(msg: WsMessage)
    requires
        msg is Buffering,
    ensures
        dec(enc(msg@)) == Some(msg@),
{
    reveal(dec_buffering_fields);
    match msg {
        WsMessage::Buffering { user_id } => {
            let tp = "{\"type\":\""@;
            let tg = "buffering"@;
            let fin = "}"@;
            lemma_lit_buffering();
            let l1 = ",\"user_id\":"@;
            let r0 = l1 + print_i64(user_id) + fin;
            let x = esc(tg) + seq!['\"'] + r0;
            assert(enc(msg@) =~= (tp + tg + seq!['\"'] + l1) + (print_i64(user_id) + fin));
            assert(enc(msg@) =~= tp + x);
            lemma_expects_concat(tp, x);
            lemma_p_str_body_esc(tg, r0);
            lemma_rtf_buffering(user_id);
            assert(dec_buffering_fields(r0) == Some(msg@));
            lemma_sel_buffering(tg, r0);
            assert(dec_tagged(tg, r0) == Some(msg@));
            assert(dec(enc(msg@)) == Some(msg@));
        },
        _ => {},
    }
}

/// Round trip for one frame kind.
#[verifier::rlimit(100)]
proof fn lemma_rt_ready(msg: WsMessage)
    requires
        msg is Ready,
    ensures
        dec(enc(msg@)) == Some(msg@),
{
    reveal(dec_ready_fields);
    match msg {
        WsMessage::Ready { user_id } => {
            let tp = "{\"type\":\""@;
            let tg = "ready"@;
            let fin = "}"@;
            lemma_lit_ready();
            let l1 = ",\"user_id\":"@;
            let r0 = l1 + print_i64(user_id) + fin;
            let x = esc(tg) + seq!['\"'] + r0;
            assert(enc(msg@) =~= (tp + tg + seq!['\"'] + l1) + (print_i64(user_id) + fin));
            assert(enc(msg@) =~= tp + x);
            lemma_expects_concat(tp, x);
            lemma_p_str_body_esc(tg, r0);
            lemma_rtf_ready(user_id);
            assert(dec_ready_fields(r0) == Some(msg@));
            lemma_sel_ready(tg, r0);
            assert(dec_tagged(tg, r0) == Some(msg@));
            assert(dec(enc(msg@)) == Some(msg@));
        },
        _ => {},
    }
}

/// Round trip for one frame kind.
#[verifier::rlimit(100)]
proof fn lemma_rt_sync_ack(msg: WsMessage)
    requires
        msg is SyncAck,
    ensures
        dec(enc(msg@)) == Some(msg@),
{
    reveal(dec_sync_ack_fields);
    let tp = "{\"type\":\""@;
    let tg = "sync_ack"@;
    let fin = "}"@;
    lemma_lit_sync_ack();
    let r0 = fin;
    let x = esc(tg) + seq!['\"'] + r0;
    assert(enc(msg@) =~= tp + x);
    lemma_expects_concat(tp, x);
    lemma_p_str_body_esc(tg, r0);
    assert(p_end(fin)) by {
        reveal_strlit("}");
    }
    assert(dec_sync_ack_fields(r0) == Some(msg@));
    lemma_sel_sync_ack(tg, r0);
    assert(dec_tagged(tg, r0) == Some(msg@));
    assert(dec(enc(msg@)) == Some(msg@));
}

/// Round trip for one frame kind.
#[verifier::rlimit(100)]
proof fn lemma_rt_ping(msg: WsMessage)
    requires
        msg is Ping,
    ensures
        dec(enc(msg@)) == Some(msg@),
{
    reveal(dec_ping_fields);
    let tp = "{\"type\":\""@;
    let tg = "ping"@;
    let fin = "}"@;
    lemma_lit_ping();
    let r0 = fin;
    let x = esc(tg) + seq!['\"'] + r0;
    assert(enc(msg@) =~= tp + x);
    lemma_expects_concat(tp, x);
    lemma_p_str_body_esc(tg, r0);
    assert(p_end(fin)) by {
        reveal_strlit("}");
    }
    assert(dec_ping_fields(r0) == Some(msg@));
    lemma_sel_ping(tg, r0);
    assert(dec_tagged(tg, r0) == Some(msg@));
    assert(dec(enc(msg@)) == Some(msg@));
}

/// Encoding then decoding any frame of the wire protocol returns a
/// frame with identical content: the codec round-trip law.
pub proof fn lemma_codec_round_trip(msg: WsMessage)
    ensures
        dec(enc(msg@)) == Some(msg@),
{
    reveal(dec_ping_fields);
    match msg {
        WsMessage::Play { .. } => lemma_rt_play(msg),
        WsMessage::Pause { .. } => lemma_rt_pause(msg),
        WsMessage::Seek { .. } => lemma_rt_seek(msg),
        WsMessage::SyncRequest => lemma_rt_sync_request(msg),
        WsMessage::SyncResponse { .. } => lemma_rt_sync_response(msg),
        WsMessage::MediaChange { .. } => lemma_rt_media_change(msg),
        WsMessage::NextEpisode => lemma_rt_next_episode(msg),
        WsMessage::QueueAdd { .. } => lemma_rt_queue_add(msg),
        WsMessage::QueueRemove { .. } => lemma_rt_queue_remove(msg),
        WsMessage::ChatMessage { .. } => lemma_rt_chat(msg),
        WsMessage::Navigate { .. } => lemma_rt_navigate(msg),
        WsMessage::Buffering { .. } => lemma_rt_buffering(msg),
        WsMessage::Ready { .. } => lemma_rt_ready(msg),
        WsMessage::SyncAck => lemma_rt_sync_ack(msg),
        WsMessage::Ping => lemma_rt_ping(msg),
        WsMessage::Heartbeat { .. } => lemma_rt_heartbeat(msg),
        WsMessage::Join { .. } => lemma_rt_join(msg),
        WsMessage::Leave { .. } => lemma_rt_leave(msg),
        WsMessage::Kicked { .. } => lemma_rt_kicked(msg),
        WsMessage::RoomClosed => lemma_rt_room_closed(msg),
        WsMessage::AllReady => lemma_rt_all_ready(msg),
        WsMessage::Pong => lemma_rt_pong(msg),
        WsMessage::Error { .. } => lemma_rt_error(msg),
        WsMessage::RoomStateSnapshot { .. } => lemma_rt_room_state(msg),
    }
}
/// Whether a text is exactly one of the decimal numbers the protocol
/// accepts, nothing more.
pub open spec fn is_full_i64(s: Seq<char>) -> bool {
    p_int_i64(s) matches Some((v, rest)) && rest.len() == 0
}

/// A text whose first k characters are digits has at least k leading
/// digits.
proof fn lemma_num_digits_least(s: Seq<char>, k: int)
    requires
        0 <= k <= s.len(),
        forall|j: int| 0 <= j < k ==> digit_val(#[trigger] s[j]) >= 0,
    ensures
        num_digits(s) >= k,
    decreases k,
{
    if k > 0 {
        let sd = s.drop_first();
        assert(digit_val(s[0]) >= 0);
        assert(s.len() > 0);
        assert forall|j: int| 0 <= j < k - 1 implies digit_val(#[trigger] sd[j]) >= 0 by {
            assert(sd[j] == s[j + 1]);
        }
        lemma_num_digits_least(sd, k - 1);
        assert(num_digits(sd) >= k - 1);
        assert(num_digits(s) == 1 + num_digits(sd));
        assert(num_digits(s) >= k);
    } else {
        lemma_num_digits_nonneg(s);
    }
}

/// A text never has a negative count of leading digits.
proof fn lemma_num_digits_nonneg(s: Seq<char>)
    ensures
        num_digits(s) >= 0,
    decreases s.len(),
{
    if s.len() > 0 && digit_val(s[0]) >= 0 {
        lemma_num_digits_nonneg(s.drop_first());
    }
}

/// Twenty digits stay below ten to the twentieth.
proof fn lemma_pow10_at_most_20(k: int)
    requires
        0 <= k <= 20,
    ensures
        pow10(k) <= 100000000000000000000,
{
    lemma_pow10_mono(k, 20);
    assert(pow10(20) == 100000000000000000000) by {
        reveal_with_fuel(pow10, 21);
    }
}

/// Parse a whole text as a signed decimal number; the text must be
/// consumed exactly.
#[verifier::rlimit(100)]
pub fn parse_i64_full(s: &str) -> (r: Option<i64>)
    ensures
        r matches Some(v) ==> p_int_i64(s@) == Some((v, Seq::<char>::empty())),
        r is None ==> !is_full_i64(s@),
{
    let n = s.unicode_len();
    if n == 0 {
        return None;
    }
    let neg = s.get_char(0) == '-';
    let start: usize = if neg {
        1
    } else {
        0
    };
    let ghost body = s@.subrange(start as int, n as int);
    proof {
        if neg {
            assert(s@.drop_first() =~= body);
        } else {
            assert(body =~= s@);
        }
    }
    let mut i: usize = start;
    let mut acc: u128 = 0;
    while i < n
        invariant
            start <= i <= n,
            n == s@.len(),
            start == (if s@[0] == '-' {
                1 as int
            } else {
                0 as int
            }),
            body == s@.subrange(start as int, n as int),
            forall|j: int| start <= j < i ==> digit_val(#[trigger] s@[j]) >= 0,
            acc == digits_value(s@.subrange(start as int, i as int)),
            acc < 100000000000000000000u128,
            i - start <= 20,
        decreases n - i,
    {
        let c = s.get_char(i);
        let d: u128 = match c {
            '0' => 0,
            '1' => 1,
            '2' => 2,
            '3' => 3,
            '4' => 4,
            '5' => 5,
            '6' => 6,
            '7' => 7,
            '8' => 8,
            '9' => 9,
            _ => 10,
        };
        if d == 10 {
            proof {
                assert(digit_val(s@[i as int]) < 0);
                assert(forall|j: int|
                    0 <= j < i - start ==> digit_val(#[trigger] body[j]) >= 0);
                lemma_num_digits_of(
                    s@.subrange(start as int, i as int),
                    s@.subrange(i as int, n as int),
                );
                assert(s@.subrange(start as int, i as int) + s@.subrange(i as int, n as int)
                    =~= body);
                assert(num_digits(body) == i - start);
                if num_digits(body) > 0 {
                    assert(body.subrange(num_digits(body), body.len() as int).len() > 0);
                }
                if s@[0] == '-' {
                    assert(s@.drop_first() =~= body);
                } else {
                    assert(body =~= s@);
                }
            }
            return None;
        }
        proof {
            assert(digit_val(s@[i as int]) == d);
        }
        if i - start >= 20 {
            proof {
                assert(forall|j: int|
                    0 <= j < 21 ==> digit_val(#[trigger] body[j]) >= 0);
                lemma_num_digits_least(body, 21);
                assert(p_nat_u64(body) is None);
                if s@[0] == '-' {
                    assert(s@.drop_first() =~= body);
                } else {
                    assert(body =~= s@);
                }
            }
            return None;
        }
        proof {
            assert(s@.subrange(start as int, i + 1 as int).drop_last() =~= s@.subrange(
                start as int,
                i as int,
            ));
            lemma_digits_value_bound(s@.subrange(start as int, i + 1 as int));
            lemma_pow10_at_most_20(i + 1 - start);
        }
        acc = acc * 10 + d;
        i = i + 1;
    }
    if i == start {
        proof {
            assert(body.len() == 0);
            assert(num_digits(body) == 0);
        }
        return None;
    }
    proof {
        assert(forall|j: int| 0 <= j < body.len() ==> digit_val(#[trigger] body[j]) >= 0);
        lemma_num_digits_of(body, Seq::empty());
        assert(body + Seq::<char>::empty() =~= body);
        assert(num_digits(body) == body.len());
        assert(body.subrange(0, body.len() as int) =~= body);
        assert(body.subrange(body.len() as int, body.len() as int) =~= Seq::<char>::empty());
        assert(s@.subrange(start as int, i as int) =~= body);
    }
    if acc > 0xffffffffffffffffu128 {
        return None;
    }
    let m: u64 = acc as u64;
    proof {
        assert(p_nat_u64(body) == Some((m, Seq::<char>::empty())));
    }
    if neg {
        if m <= 0x8000000000000000u64 {
            let v: i64 = if m == 0x8000000000000000u64 {
                i64::MIN
            } else {
                -(m as i64)
            };
            Some(v)
        } else {
            None
        }
    } else {
        if m <= 0x7fffffffffffffffu64 {
            Some(m as i64)
        } else {
            None
        }
    }
}

/// The unread suffix of a text at a cursor.
pub open spec fn suffix(s: Seq<char>, pos: int) -> Seq<char> {
    s.subrange(pos, s.len() as int)
}

/// Consume an expected literal at the cursor.
fn eat_lit(s: &str, pos: usize, lit: &str) -> (r: Option<usize>)
    requires
        pos <= s@.len(),
    ensures
        r matches Some(p2) ==> expects(suffix(s@, pos as int), lit@) && p2 == pos + lit@.len()
            && p2 <= s@.len() && after(suffix(s@, pos as int), lit@) == suffix(s@, p2 as int),
        r is None ==> !expects(suffix(s@, pos as int), lit@),
{
    let n = s.unicode_len();
    let ln = lit.unicode_len();
    if ln > n - pos {
        proof {
            assert(suffix(s@, pos as int).len() < lit@.len());
        }
        return None;
    }
    if crate::plex::occurs_at(s, pos, lit) {
        proof {
            assert(suffix(s@, pos as int).subrange(0, lit@.len() as int) =~= s@.subrange(
                pos as int,
                pos + lit@.len(),
            ));
            assert(suffix(s@, pos as int).subrange(
                lit@.len() as int,
                suffix(s@, pos as int).len() as int,
            ) =~= suffix(s@, (pos + ln) as int));
        }
        Some(pos + ln)
    } else {
        proof {
            assert(suffix(s@, pos as int).subrange(0, lit@.len() as int) =~= s@.subrange(
                pos as int,
                pos + lit@.len(),
            ));
        }
        None
    }
}

/// Consume an unsigned decimal number at the cursor.
#[verifier::rlimit(100)]
fn eat_nat(s: &str, pos: usize) -> (r: Option<(u64, usize)>)
    requires
        pos <= s@.len(),
    ensures
        r matches Some(v) ==> p_nat_u64(suffix(s@, pos as int)) == Some(
            (v.0, suffix(s@, v.1 as int)),
        ) && pos <= v.1 <= s@.len(),
        r is None ==> p_nat_u64(suffix(s@, pos as int)) is None,
{
    let n = s.unicode_len();
    let ghost body = suffix(s@, pos as int);
    let mut i: usize = pos;
    let mut acc: u128 = 0;
    let mut stop = false;
    while i < n && !stop
        invariant
            pos <= i <= n,
            n == s@.len(),
            body == suffix(s@, pos as int),
            forall|j: int| pos <= j < i ==> digit_val(#[trigger] s@[j]) >= 0,
            acc == digits_value(s@.subrange(pos as int, i as int)),
            acc < 100000000000000000000u128,
            i - pos <= 20,
            stop ==> i < n && digit_val(s@[i as int]) < 0,
        decreases n - i + (if stop {
            0 as int
        } else {
            1 as int
        }),
    {
        let c = s.get_char(i);
        let d: u128 = match c {
            '0' => 0,
            '1' => 1,
            '2' => 2,
            '3' => 3,
            '4' => 4,
            '5' => 5,
            '6' => 6,
            '7' => 7,
            '8' => 8,
            '9' => 9,
            _ => 10,
        };
        if d == 10 {
            proof {
                assert(digit_val(s@[i as int]) < 0);
            }
            stop = true;
        } else {
            proof {
                assert(digit_val(s@[i as int]) == d);
            }
            if i - pos >= 20 {
                proof {
                    assert(forall|j: int|
                        0 <= j < 21 ==> digit_val(#[trigger] body[j]) >= 0);
                    lemma_num_digits_least(body, 21);
                }
                return None;
            }
            proof {
                assert(s@.subrange(pos as int, i + 1 as int).drop_last() =~= s@.subrange(
                    pos as int,
                    i as int,
                ));
                lemma_digits_value_bound(s@.subrange(pos as int, i + 1 as int));
                lemma_pow10_at_most_20(i + 1 - pos);
            }
            acc = acc * 10 + d;
            i = i + 1;
        }
    }
    proof {
        assert(forall|j: int| 0 <= j < i - pos ==> digit_val(#[trigger] body[j]) >= 0);
        if stop {
            lemma_num_digits_of(
                s@.subrange(pos as int, i as int),
                s@.subrange(i as int, n as int),
            );
            assert(s@.subrange(pos as int, i as int) + s@.subrange(i as int, n as int)
                =~= body);
        } else {
            assert(i == n);
            lemma_num_digits_of(s@.subrange(pos as int, i as int), Seq::empty());
            assert(s@.subrange(pos as int, i as int) + Seq::<char>::empty() =~= body);
        }
        assert(num_digits(body) == i - pos);
        assert(body.subrange(0, i - pos) =~= s@.subrange(pos as int, i as int));
        assert(body.subrange(i - pos, body.len() as int) =~= suffix(s@, i as int));
    }
    if i == pos {
        return None;
    }
    if acc > 0xffffffffffffffffu128 {
        return None;
    }
    Some((acc as u64, i))
}

/// Consume a signed decimal number at the cursor.
fn eat_int(s: &str, pos: usize) -> (r: Option<(i64, usize)>)
    requires
        pos <= s@.len(),
    ensures
        r matches Some(v) ==> p_int_i64(suffix(s@, pos as int)) == Some(
            (v.0, suffix(s@, v.1 as int)),
        ) && pos <= v.1 <= s@.len(),
        r is None ==> p_int_i64(suffix(s@, pos as int)) is None,
{
    let n = s.unicode_len();
    let ghost body = suffix(s@, pos as int);
    if pos < n && s.get_char(pos) == '-' {
        proof {
            assert(body[0] == '-');
            assert(body.drop_first() =~= suffix(s@, pos + 1 as int));
        }
        match eat_nat(s, pos + 1) {
            Some((m, p2)) => {
                if m <= 0x8000000000000000u64 {
                    let v: i64 = if m == 0x8000000000000000u64 {
                        i64::MIN
                    } else {
                        -(m as i64)
                    };
                    Some((v, p2))
                } else {
                    None
                }
            },
            None => None,
        }
    } else {
        proof {
            if body.len() > 0 {
                assert(body[0] == s@[pos as int]);
            }
        }
        match eat_nat(s, pos) {
            Some((m, p2)) => {
                if m <= 0x7fffffffffffffffu64 {
                    Some((m as i64, p2))
                } else {
                    None
                }
            },
            None => None,
        }
    }
}

/// Consume a JSON boolean at the cursor.
fn eat_bool(s: &str, pos: usize) -> (r: Option<(bool, usize)>)
    requires
        pos <= s@.len(),
    ensures
        r matches Some(v) ==> p_bool(suffix(s@, pos as int)) == Some(
            (v.0, suffix(s@, v.1 as int)),
        ) && pos <= v.1 <= s@.len(),
        r is None ==> p_bool(suffix(s@, pos as int)) is None,
{
    if let Some(p2) = eat_lit(s, pos, "true") {
        return Some((true, p2));
    }
    if let Some(p2) = eat_lit(s, pos, "false") {
        return Some((false, p2));
    }
    None
}

/// Consume a JSON string body (after its opening quote) at the
/// cursor, undoing escapes.
#[verifier::rlimit(100)]
fn eat_str_body(s: &str, pos: usize) -> (r: Option<(String, usize)>)
    requires
        pos <= s@.len(),
    ensures
        r matches Some(v) ==> p_str_body(suffix(s@, pos as int)) == Some(
            (v.0@, suffix(s@, v.1 as int)),
        ) && pos <= v.1 <= s@.len(),
        r is None ==> p_str_body(suffix(s@, pos as int)) is None,
{
    let n = s.unicode_len();
    let mut out = String::new();
    let mut i: usize = pos;
    loop
        invariant
            pos <= i <= n,
            n == s@.len(),
            forall|b: Seq<char>, rest: Seq<char>|
                p_str_body(suffix(s@, i as int)) == Some::<(Seq<char>, Seq<char>)>((b, rest))
                    ==> p_str_body(suffix(s@, pos as int)) == Some::<(Seq<char>, Seq<char>)>(
                    (out@ + b, rest),
                ),
            p_str_body(suffix(s@, i as int)) is None ==> p_str_body(
                suffix(s@, pos as int),
            ) is None,
        decreases n - i,
    {
        if i >= n {
            proof {
                assert(suffix(s@, i as int).len() == 0);
            }
            return None;
        }
        let c = s.get_char(i);
        proof {
            assert(suffix(s@, i as int)[0] == c);
        }
        if c == '"' {
            proof {
                assert(suffix(s@, i as int).drop_first() =~= suffix(s@, i + 1 as int));
                assert(out@ + Seq::<char>::empty() =~= out@);
            }
            return Some((out, i + 1));
        }
        if c == '\\' {
            if i + 1 >= n {
                proof {
                    assert(suffix(s@, i as int).len() < 2);
                }
                return None;
            }
            let e = s.get_char(i + 1);
            proof {
                assert(suffix(s@, i as int)[1] == e);
                assert(suffix(s@, i as int).subrange(2, suffix(s@, i as int).len() as int)
                    =~= suffix(s@, i + 2 as int));
            }
            let decoded: char = if e == '"' {
                '"'
            } else if e == '\\' {
                '\\'
            } else if e == 'n' {
                '\n'
            } else if e == 'r' {
                '\r'
            } else if e == 't' {
                '\t'
            } else {
                proof {
                    assert(p_str_body(suffix(s@, i as int)) is None);
                }
                return None;
            };
            let ghost prev = out@;
            crate::strutil::push_char(&mut out, decoded);
            proof {
                assert forall|b: Seq<char>, rest: Seq<char>|
                    p_str_body(suffix(s@, i + 2 as int)) == Some::<(Seq<char>, Seq<char>)>(
                        (b, rest),
                    ) implies p_str_body(suffix(s@, pos as int)) == Some::<(
                    Seq<char>,
                    Seq<char>,
                )>((out@ + b, rest)) by {
                    assert(p_str_body(suffix(s@, i as int)) == Some::<(Seq<char>, Seq<char>)>(
                        (seq![decoded] + b, rest),
                    ));
                    assert(out@ + b =~= prev + (seq![decoded] + b));
                }
            }
            i = i + 2;
        } else {
            let ghost prev = out@;
            crate::strutil::push_char(&mut out, c);
            proof {
                assert(suffix(s@, i as int).drop_first() =~= suffix(s@, i + 1 as int));
                assert forall|b: Seq<char>, rest: Seq<char>|
                    p_str_body(suffix(s@, i + 1 as int)) == Some::<(Seq<char>, Seq<char>)>(
                        (b, rest),
                    ) implies p_str_body(suffix(s@, pos as int)) == Some::<(
                    Seq<char>,
                    Seq<char>,
                )>((out@ + b, rest)) by {
                    assert(p_str_body(suffix(s@, i as int)) == Some::<(Seq<char>, Seq<char>)>(
                        (seq![c] + b, rest),
                    ));
                    assert(out@ + b =~= prev + (seq![c] + b));
                }
            }
            i = i + 1;
        }
    }
}


/// Consume a quoted JSON string at the cursor, undoing escapes.
fn eat_string(s: &str, pos: usize) -> (r: Option<(String, usize)>)
    requires
        pos <= s@.len(),
    ensures
        r matches Some(v) ==> p_string(suffix(s@, pos as int)) == Some(
            (v.0@, suffix(s@, v.1 as int)),
        ) && pos <= v.1 <= s@.len(),
        r is None ==> p_string(suffix(s@, pos as int)) is None,
{
    let n = s.unicode_len();
    if pos >= n || !(s.get_char(pos) == '"') {
        proof {
            if pos < n {
                assert(suffix(s@, pos as int)[0] == s@[pos as int]);
                if expects(suffix(s@, pos as int), seq!['"']) {
                    assert(suffix(s@, pos as int).subrange(0, 1)[0] == s@[pos as int]);
                    assert(seq!['"'][0] == '"');
                    assert(false);
                }
            } else {
                assert(suffix(s@, pos as int).len() == 0);
            }
        }
        return None;
    }
    proof {
        assert(suffix(s@, pos as int)[0] == s@[pos as int]);
        assert(suffix(s@, pos as int).subrange(0, 1) =~= seq!['"']);
        assert(after(suffix(s@, pos as int), seq!['"']) =~= suffix(s@, pos + 1 as int));
    }
    eat_str_body(s, pos + 1)
}

/// Consume a JSON string or null at the cursor.
fn eat_opt_string(s: &str, pos: usize) -> (r: Option<(Option<String>, usize)>)
    requires
        pos <= s@.len(),
    ensures
        r matches Some(v) ==> p_opt_string(suffix(s@, pos as int)) == Some(
            (v.0.deep_view(), suffix(s@, v.1 as int)),
        ) && pos <= v.1 <= s@.len(),
        r is None ==> p_opt_string(suffix(s@, pos as int)) is None,
{
    if let Some(p2) = eat_lit(s, pos, "null") {
        return Some((None, p2));
    }
    match eat_string(s, pos) {
        Some((v, p2)) => Some((Some(v), p2)),
        None => None,
    }
}

/// Whether the frame ends here: a closing brace and nothing after.
fn eat_end(s: &str, pos: usize) -> (r: bool)
    requires
        pos <= s@.len(),
    ensures
        r == p_end(suffix(s@, pos as int)),
{
    proof {
        reveal_strlit("}");
    }
    let n = s.unicode_len();
    match eat_lit(s, pos, "}") {
        Some(p2) => {
            if p2 == n {
                proof {
                    assert("}"@.len() == 1);
                    assert("}"@[0] == '}');
                    assert(suffix(s@, pos as int) =~= seq!['}']);
                }
                true
            } else {
                proof {
                    assert(suffix(s@, pos as int).len() > 1);
                }
                false
            }
        },
        None => {
            proof {
                if p_end(suffix(s@, pos as int)) {
                    assert("}"@.len() == 1);
                    assert("}"@[0] == '}');
                    assert(suffix(s@, pos as int).subrange(0, 1) =~= "}"@);
                    assert(expects(suffix(s@, pos as int), "}"@));
                }
            }
            false
        },
    }
}

/// Decode the fields of one frame kind.
fn d_play(s: &str, pos: usize) -> (r: Option<WsMessage>)
    requires
        pos <= s@.len(),
    ensures
        r matches Some(m) ==> dec_play_fields(suffix(s@, pos as int)) == Some(m@),
        r is None ==> dec_play_fields(suffix(s@, pos as int)) is None,
{
    proof {
        reveal(dec_play_fields);
    }
    let p1 = match eat_lit(s, pos, ",\"position_ms\":") {
        Some(p) => p,
        None => {
            return None;
        },
    };
    let (position_ms, p2) = match eat_nat(s, p1) {
        Some(v) => v,
        None => {
            return None;
        },
    };
    let p3 = match eat_lit(s, p2, ",\"user_id\":") {
        Some(p) => p,
        None => {
            return None;
        },
    };
    let (user_id, p4) = match eat_int(s, p3) {
        Some(v) => v,
        None => {
            return None;
        },
    };
    if eat_end(s, p4) {
        Some(WsMessage::Play { position_ms, user_id })
    } else {
        None
    }
}

/// Decode the fields of one frame kind.
fn d_pause(s: &str, pos: usize) -> (r: Option<WsMessage>)
    requires
        pos <= s@.len(),
    ensures
        r matches Some(m) ==> dec_pause_fields(suffix(s@, pos as int)) == Some(m@),
        r is None ==> dec_pause_fields(suffix(s@, pos as int)) is None,
{
    proof {
        reveal(dec_pause_fields);
    }
    let p1 = match eat_lit(s, pos, ",\"position_ms\":") {
        Some(p) => p,
        None => {
            return None;
        },
    };
    let (position_ms, p2) = match eat_nat(s, p1) {
        Some(v) => v,
        None => {
            return None;
        },
    };
    let p3 = match eat_lit(s, p2, ",\"user_id\":") {
        Some(p) => p,
        None => {
            return None;
        },
    };
    let (user_id, p4) = match eat_int(s, p3) {
        Some(v) => v,
        None => {
            return None;
        },
    };
    if eat_end(s, p4) {
        Some(WsMessage::Pause { position_ms, user_id })
    } else {
        None
    }
}

/// Decode the fields of one frame kind.
fn d_seek(s: &str, pos: usize) -> (r: Option<WsMessage>)
    requires
        pos <= s@.len(),
    ensures
        r matches Some(m) ==> dec_seek_fields(suffix(s@, pos as int)) == Some(m@),
        r is None ==> dec_seek_fields(suffix(s@, pos as int)) is None,
{
    proof {
        reveal(dec_seek_fields);
    }
    let p1 = match eat_lit(s, pos, ",\"position_ms\":") {
        Some(p) => p,
        None => {
            return None;
        },
    };
    let (position_ms, p2) = match eat_nat(s, p1) {
        Some(v) => v,
        None => {
            return None;
        },
    };
    let p3 = match eat_lit(s, p2, ",\"user_id\":") {
        Some(p) => p,
        None => {
            return None;
        },
    };
    let (user_id, p4) = match eat_int(s, p3) {
        Some(v) => v,
        None => {
            return None;
        },
    };
    if eat_end(s, p4) {
        Some(WsMessage::Seek { position_ms, user_id })
    } else {
        None
    }
}

/// Decode the fields of one frame kind.
fn d_sync_request(s: &str, pos: usize) -> (r: Option<WsMessage>)
    requires
        pos <= s@.len(),
    ensures
        r matches Some(m) ==> dec_sync_request_fields(suffix(s@, pos as int)) == Some(m@),
        r is None ==> dec_sync_request_fields(suffix(s@, pos as int)) is None,
{
    proof {
        reveal(dec_sync_request_fields);
    }
    if eat_end(s, pos) {
        Some(WsMessage::SyncRequest)
    } else {
        None
    }
}

/// Decode the fields of one frame kind.
fn d_sync_response(s: &str, pos: usize) -> (r: Option<WsMessage>)
    requires
        pos <= s@.len(),
    ensures
        r matches Some(m) ==> dec_sync_response_fields(suffix(s@, pos as int)) == Some(m@),
        r is None ==> dec_sync_response_fields(suffix(s@, pos as int)) is None,
{
    proof {
        reveal(dec_sync_response_fields);
    }
    let p1 = match eat_lit(s, pos, ",\"position_ms\":") {
        Some(p) => p,
        None => {
            return None;
        },
    };
    let (position_ms, p2) = match eat_nat(s, p1) {
        Some(v) => v,
        None => {
            return None;
        },
    };
    let p3 = match eat_lit(s, p2, ",\"is_paused\":") {
        Some(p) => p,
        None => {
            return None;
        },
    };
    let (is_paused, p4) = match eat_bool(s, p3) {
        Some(v) => v,
        None => {
            return None;
        },
    };
    let p5 = match eat_lit(s, p4, ",\"media_id\":") {
        Some(p) => p,
        None => {
            return None;
        },
    };
    let (media_id, p6) = match eat_string(s, p5) {
        Some(v) => v,
        None => {
            return None;
        },
    };
    if eat_end(s, p6) {
        Some(WsMessage::SyncResponse { position_ms, is_paused, media_id })
    } else {
        None
    }
}

/// Decode the fields of one frame kind.
fn d_media_change(s: &str, pos: usize) -> (r: Option<WsMessage>)
    requires
        pos <= s@.len(),
    ensures
        r matches Some(m) ==> dec_media_change_fields(suffix(s@, pos as int)) == Some(m@),
        r is None ==> dec_media_change_fields(suffix(s@, pos as int)) is None,
{
    proof {
        reveal(dec_media_change_fields);
    }
    let p1 = match eat_lit(s, pos, ",\"media_id\":") {
        Some(p) => p,
        None => {
            return None;
        },
    };
    let (media_id, p2) = match eat_string(s, p1) {
        Some(v) => v,
        None => {
            return None;
        },
    };
    let p3 = match eat_lit(s, p2, ",\"title\":") {
        Some(p) => p,
        None => {
            return None;
        },
    };
    let (title, p4) = match eat_opt_string(s, p3) {
        Some(v) => v,
        None => {
            return None;
        },
    };
    let p5 = match eat_lit(s, p4, ",\"duration_ms\":") {
        Some(p) => p,
        None => {
            return None;
        },
    };
    let (duration_ms, p6) = match eat_nat(s, p5) {
        Some(v) => v,
        None => {
            return None;
        },
    };
    if eat_end(s, p6) {
        Some(WsMessage::MediaChange { media_id, title, duration_ms })
    } else {
        None
    }
}

/// Decode the fields of one frame kind.
fn d_next_episode(s: &str, pos: usize) -> (r: Option<WsMessage>)
    requires
        pos <= s@.len(),
    ensures
        r matches Some(m) ==> dec_next_episode_fields(suffix(s@, pos as int)) == Some(m@),
        r is None ==> dec_next_episode_fields(suffix(s@, pos as int)) is None,
{
    proof {
        reveal(dec_next_episode_fields);
    }
    if eat_end(s, pos) {
        Some(WsMessage::NextEpisode)
    } else {
        None
    }
}

/// Decode the fields of one frame kind.
fn d_queue_add(s: &str, pos: usize) -> (r: Option<WsMessage>)
    requires
        pos <= s@.len(),
    ensures
        r matches Some(m) ==> dec_queue_add_fields(suffix(s@, pos as int)) == Some(m@),
        r is None ==> dec_queue_add_fields(suffix(s@, pos as int)) is None,
{
    proof {
        reveal(dec_queue_add_fields);
    }
    let p1 = match eat_lit(s, pos, ",\"media_id\":") {
        Some(p) => p,
        None => {
            return None;
        },
    };
    let (media_id, p2) = match eat_string(s, p1) {
        Some(v) => v,
        None => {
            return None;
        },
    };
    if eat_end(s, p2) {
        Some(WsMessage::QueueAdd { media_id })
    } else {
        None
    }
}

/// Decode the fields of one frame kind.
fn d_queue_remove(s: &str, pos: usize) -> (r: Option<WsMessage>)
    requires
        pos <= s@.len(),
    ensures
        r matches Some(m) ==> dec_queue_remove_fields(suffix(s@, pos as int)) == Some(m@),
        r is None ==> dec_queue_remove_fields(suffix(s@, pos as int)) is None,
{
    proof {
        reveal(dec_queue_remove_fields);
    }
    let p1 = match eat_lit(s, pos, ",\"index\":") {
        Some(p) => p,
        None => {
            return None;
        },
    };
    let (raw_index, p2) = match eat_nat(s, p1) {
        Some(v) => v,
        None => {
            return None;
        },
    };
    if !(raw_index <= usize::MAX as u64) {
        return None;
    }
    let index = raw_index as usize;
    if eat_end(s, p2) {
        Some(WsMessage::QueueRemove { index })
    } else {
        None
    }
}

/// Decode the fields of one frame kind.
fn d_chat(s: &str, pos: usize) -> (r: Option<WsMessage>)
    requires
        pos <= s@.len(),
    ensures
        r matches Some(m) ==> dec_chat_fields(suffix(s@, pos as int)) == Some(m@),
        r is None ==> dec_chat_fields(suffix(s@, pos as int)) is None,
{
    proof {
        reveal(dec_chat_fields);
    }
    let p1 = match eat_lit(s, pos, ",\"from\":") {
        Some(p) => p,
        None => {
            return None;
        },
    };
    let (from, p2) = match eat_string(s, p1) {
        Some(v) => v,
        None => {
            return None;
        },
    };
    let p3 = match eat_lit(s, p2, ",\"user_id\":") {
        Some(p) => p,
        None => {
            return None;
        },
    };
    let (user_id, p4) = match eat_int(s, p3) {
        Some(v) => v,
        None => {
            return None;
        },
    };
    let p5 = match eat_lit(s, p4, ",\"message\":") {
        Some(p) => p,
        None => {
            return None;
        },
    };
    let (message, p6) = match eat_string(s, p5) {
        Some(v) => v,
        None => {
            return None;
        },
    };
    if eat_end(s, p6) {
        Some(WsMessage::ChatMessage { from, user_id, message })
    } else {
        None
    }
}

/// Decode the fields of one frame kind.
fn d_navigate(s: &str, pos: usize) -> (r: Option<WsMessage>)
    requires
        pos <= s@.len(),
    ensures
        r matches Some(m) ==> dec_navigate_fields(suffix(s@, pos as int)) == Some(m@),
        r is None ==> dec_navigate_fields(suffix(s@, pos as int)) is None,
{
    proof {
        reveal(dec_navigate_fields);
    }
    let p1 = match eat_lit(s, pos, ",\"media_id\":") {
        Some(p) => p,
        None => {
            return None;
        },
    };
    let (media_id, p2) = match eat_string(s, p1) {
        Some(v) => v,
        None => {
            return None;
        },
    };
    let p3 = match eat_lit(s, p2, ",\"route\":") {
        Some(p) => p,
        None => {
            return None;
        },
    };
    let (route, p4) = match eat_string(s, p3) {
        Some(v) => v,
        None => {
            return None;
        },
    };
    if eat_end(s, p4) {
        Some(WsMessage::Navigate { media_id, route })
    } else {
        None
    }
}

/// Decode the fields of one frame kind.
fn d_buffering(s: &str, pos: usize) -> (r: Option<WsMessage>)
    requires
        pos <= s@.len(),
    ensures
        r matches Some(m) ==> dec_buffering_fields(suffix(s@, pos as int)) == Some(m@),
        r is None ==> dec_buffering_fields(suffix(s@, pos as int)) is None,
{
    proof {
        reveal(dec_buffering_fields);
    }
    let p1 = match eat_lit(s, pos, ",\"user_id\":") {
        Some(p) => p,
        None => {
            return None;
        },
    };
    let (user_id, p2) = match eat_int(s, p1) {
        Some(v) => v,
        None => {
            return None;
        },
    };
    if eat_end(s, p2) {
        Some(WsMessage::Buffering { user_id })
    } else {
        None
    }
}

/// Decode the fields of one frame kind.
fn d_ready(s: &str, pos: usize) -> (r: Option<WsMessage>)
    requires
        pos <= s@.len(),
    ensures
        r matches Some(m) ==> dec_ready_fields(suffix(s@, pos as int)) == Some(m@),
        r is None ==> dec_ready_fields(suffix(s@, pos as int)) is None,
{
    proof {
        reveal(dec_ready_fields);
    }
    let p1 = match eat_lit(s, pos, ",\"user_id\":") {
        Some(p) => p,
        None => {
            return None;
        },
    };
    let (user_id, p2) = match eat_int(s, p1) {
        Some(v) => v,
        None => {
            return None;
        },
    };
    if eat_end(s, p2) {
        Some(WsMessage::Ready { user_id })
    } else {
        None
    }
}

/// Decode the fields of one frame kind.
fn d_sync_ack(s: &str, pos: usize) -> (r: Option<WsMessage>)
    requires
        pos <= s@.len(),
    ensures
        r matches Some(m) ==> dec_sync_ack_fields(suffix(s@, pos as int)) == Some(m@),
        r is None ==> dec_sync_ack_fields(suffix(s@, pos as int)) is None,
{
    proof {
        reveal(dec_sync_ack_fields);
    }
    if eat_end(s, pos) {
        Some(WsMessage::SyncAck)
    } else {
        None
    }
}

/// Decode the fields of one frame kind.
fn d_ping(s: &str, pos: usize) -> (r: Option<WsMessage>)
    requires
        pos <= s@.len(),
    ensures
        r matches Some(m) ==> dec_ping_fields(suffix(s@, pos as int)) == Some(m@),
        r is None ==> dec_ping_fields(suffix(s@, pos as int)) is None,
{
    proof {
        reveal(dec_ping_fields);
    }
    if eat_end(s, pos) {
        Some(WsMessage::Ping)
    } else {
        None
    }
}

/// Decode one frame of the wire protocol from its JSON text. Exactly
/// the frames [`dec`] accepts are decoded, to the same content.
pub fn decode(s: &str) -> (r: Option<WsMessage>)
    ensures
        r matches Some(m) ==> dec(s@) == Some(m@),
        r is None ==> dec(s@) is None,
{
    proof {
        assert(suffix(s@, 0) =~= s@);
    }
    let n = s.unicode_len();
    let p0 = match eat_lit(s, 0, "{\"type\":\"") {
        Some(p) => p,
        None => {
            return None;
        },
    };
    let (tag, p1) = match eat_str_body(s, p0) {
        Some(v) => v,
        None => {
            return None;
        },
    };
    if crate::plex::str_eq(tag.as_str(), "play") {
        proof {
            lemma_sel_play(tag@, suffix(s@, p1 as int));
        }
        d_play(s, p1)
    } else if crate::plex::str_eq(tag.as_str(), "pause") {
        proof {
            lemma_sel_pause(tag@, suffix(s@, p1 as int));
        }
        d_pause(s, p1)
    } else if crate::plex::str_eq(tag.as_str(), "seek") {
        proof {
            lemma_sel_seek(tag@, suffix(s@, p1 as int));
        }
        d_seek(s, p1)
    } else if crate::plex::str_eq(tag.as_str(), "sync_request") {
        proof {
            lemma_sel_sync_request(tag@, suffix(s@, p1 as int));
        }
        d_sync_request(s, p1)
    } else if crate::plex::str_eq(tag.as_str(), "sync_response") {
        proof {
            lemma_sel_sync_response(tag@, suffix(s@, p1 as int));
        }
        d_sync_response(s, p1)
    } else if crate::plex::str_eq(tag.as_str(), "media_change") {
        proof {
            lemma_sel_media_change(tag@, suffix(s@, p1 as int));
        }
        d_media_change(s, p1)
    } else if crate::plex::str_eq(tag.as_str(), "next_episode") {
        proof {
            lemma_sel_next_episode(tag@, suffix(s@, p1 as int));
        }
        d_next_episode(s, p1)
    } else if crate::plex::str_eq(tag.as_str(), "queue_add") {
        proof {
            lemma_sel_queue_add(tag@, suffix(s@, p1 as int));
        }
        d_queue_add(s, p1)
    } else if crate::plex::str_eq(tag.as_str(), "queue_remove") {
        proof {
            lemma_sel_queue_remove(tag@, suffix(s@, p1 as int));
        }
        d_queue_remove(s, p1)
    } else if crate::plex::str_eq(tag.as_str(), "chat") {
        proof {
            lemma_sel_chat(tag@, suffix(s@, p1 as int));
        }
        d_chat(s, p1)
    } else if crate::plex::str_eq(tag.as_str(), "navigate") {
        proof {
            lemma_sel_navigate(tag@, suffix(s@, p1 as int));
        }
        d_navigate(s, p1)
    } else if crate::plex::str_eq(tag.as_str(), "buffering") {
        proof {
            lemma_sel_buffering(tag@, suffix(s@, p1 as int));
        }
        d_buffering(s, p1)
    } else if crate::plex::str_eq(tag.as_str(), "ready") {
        proof {
            lemma_sel_ready(tag@, suffix(s@, p1 as int));
        }
        d_ready(s, p1)
    } else if crate::plex::str_eq(tag.as_str(), "sync_ack") {
        proof {
            lemma_sel_sync_ack(tag@, suffix(s@, p1 as int));
        }
        d_sync_ack(s, p1)
    } else if crate::plex::str_eq(tag.as_str(), "ping") {
        proof {
            lemma_sel_ping(tag@, suffix(s@, p1 as int));
        }
        d_ping(s, p1)
    } else if crate::plex::str_eq(tag.as_str(), "heartbeat") {
        proof {
            lemma_sel_heartbeat(tag@, suffix(s@, p1 as int));
        }
        d_heartbeat(s, p1)
    } else if crate::plex::str_eq(tag.as_str(), "join") {
        proof {
            lemma_sel_join(tag@, suffix(s@, p1 as int));
        }
        d_join(s, p1)
    } else if crate::plex::str_eq(tag.as_str(), "leave") {
        proof {
            lemma_sel_leave(tag@, suffix(s@, p1 as int));
        }
        d_leave(s, p1)
    } else if crate::plex::str_eq(tag.as_str(), "kicked") {
        proof {
            lemma_sel_kicked(tag@, suffix(s@, p1 as int));
        }
        d_kicked(s, p1)
    } else if crate::plex::str_eq(tag.as_str(), "room_closed") {
        proof {
            lemma_sel_room_closed(tag@, suffix(s@, p1 as int));
        }
        d_room_closed(s, p1)
    } else if crate::plex::str_eq(tag.as_str(), "all_ready") {
        proof {
            lemma_sel_all_ready(tag@, suffix(s@, p1 as int));
        }
        d_all_ready(s, p1)
    } else if crate::plex::str_eq(tag.as_str(), "pong") {
        proof {
            lemma_sel_pong(tag@, suffix(s@, p1 as int));
        }
        d_pong(s, p1)
    } else if crate::plex::str_eq(tag.as_str(), "error") {
        proof {
            lemma_sel_error(tag@, suffix(s@, p1 as int));
        }
        d_error(s, p1)
    } else if crate::plex::str_eq(tag.as_str(), "room_state") {
        proof {
            lemma_sel_room_state(tag@, suffix(s@, p1 as int));
        }
        d_room_state(s, p1)
    } else {
        None
    }
}
/// Parse a seconds value with three decimals back to milliseconds.
pub open spec fn p_secs(s: Seq<char>) -> Option<(u64, Seq<char>)> {
    match p_nat_u64(s) {
        Some((secs, r1)) => if r1.len() >= 4 && r1[0] == '.' && digit_val(r1[1]) >= 0
            && digit_val(r1[2]) >= 0 && digit_val(r1[3]) >= 0 {
            let total = secs * 1000 + digit_val(r1[1]) * 100 + digit_val(r1[2]) * 10 + digit_val(
                r1[3],
            );
            if total <= u64::MAX {
                Some(((total) as u64, r1.subrange(4, r1.len() as int)))
            } else {
                None
            }
        } else {
            None
        },
        None => None,
    }
}

/// Parsing a printed seconds value recovers the milliseconds.
#[verifier::rlimit(100)]
pub proof fn lemma_p_secs_print(ms: u64, rest: Seq<char>)
    requires
        rest.len() == 0 || digit_val(rest[0]) < 0,
    ensures
        p_secs(enc_secs(ms) + rest) == Some((ms, rest)),
{
    let secs = (ms as int / 1000) as u64;
    let tail = seq!['.'] + seq![
        digit_char((ms as int / 100) % 10),
        digit_char((ms as int / 10) % 10),
        digit_char(ms as int % 10),
    ] + rest;
    assert(enc_secs(ms) + rest =~= print_nat(secs as int) + tail);
    assert(digit_val(tail[0]) < 0);
    lemma_p_nat_u64_print(secs, tail);
    lemma_digit_roundtrip((ms as int / 100) % 10);
    lemma_digit_roundtrip((ms as int / 10) % 10);
    lemma_digit_roundtrip(ms as int % 10);
    assert(tail[1] == digit_char((ms as int / 100) % 10));
    assert(tail[2] == digit_char((ms as int / 10) % 10));
    assert(tail[3] == digit_char(ms as int % 10));
    let frac = ((ms as int / 100) % 10) * 100 + ((ms as int / 10) % 10) * 10 + ms as int % 10;
    assert(secs as int * 1000 + frac == ms) by (nonlinear_arith)
        requires
            secs as int == ms as int / 1000,
            frac == ((ms as int / 100) % 10) * 100 + ((ms as int / 10) % 10) * 10 + ms as int
                % 10,
            0 <= ms <= u64::MAX,
    ;
    assert(tail.subrange(4, tail.len() as int) =~= rest);
}

/// Consume a seconds value with three decimals at the cursor.
fn eat_secs(s: &str, pos: usize) -> (r: Option<(u64, usize)>)
    requires
        pos <= s@.len(),
    ensures
        r matches Some(v) ==> p_secs(suffix(s@, pos as int)) == Some(
            (v.0, suffix(s@, v.1 as int)),
        ) && pos <= v.1 <= s@.len(),
        r is None ==> p_secs(suffix(s@, pos as int)) is None,
{
    let n = s.unicode_len();
    let (secs, p1) = match eat_nat(s, pos) {
        Some(v) => v,
        None => {
            return None;
        },
    };
    if n - p1 < 4 {
        proof {
            assert(suffix(s@, p1 as int).len() < 4);
        }
        return None;
    }
    let dot = s.get_char(p1);
    let d1 = digit_of_char(s.get_char(p1 + 1));
    let d2 = digit_of_char(s.get_char(p1 + 2));
    let d3 = digit_of_char(s.get_char(p1 + 3));
    proof {
        assert(suffix(s@, p1 as int)[0] == s@[p1 as int]);
        assert(suffix(s@, p1 as int)[1] == s@[p1 + 1]);
        assert(suffix(s@, p1 as int)[2] == s@[p1 + 2]);
        assert(suffix(s@, p1 as int)[3] == s@[p1 + 3]);
    }
    if !(dot == '.') || d1 > 9 || d2 > 9 || d3 > 9 {
        return None;
    }
    let total: u128 = secs as u128 * 1000 + d1 as u128 * 100 + d2 as u128 * 10 + d3 as u128;
    if total > 0xffffffffffffffffu128 {
        return None;
    }
    proof {
        assert(suffix(s@, p1 as int).subrange(4, suffix(s@, p1 as int).len() as int)
            =~= suffix(s@, p1 + 4 as int));
    }
    Some((total as u64, p1 + 4))
}

/// The digit value of a character, or ten for anything else.
fn digit_of_char(c: char) -> (d: u8)
    ensures
        digit_val(c) >= 0 ==> d == digit_val(c),
        digit_val(c) < 0 ==> d == 10,
{
    match c {
        '0' => 0,
        '1' => 1,
        '2' => 2,
        '3' => 3,
        '4' => 4,
        '5' => 5,
        '6' => 6,
        '7' => 7,
        '8' => 8,
        '9' => 9,
        _ => 10,
    }
}

/// Decode the fields of one frame kind.
#[verifier::opaque]
pub open spec fn dec_heartbeat_fields(r: Seq<char>) -> Option<MsgModel> {
    if !expects(r, ",\"server_time\":"@) {
        None
    } else {
        match p_secs(after(r, ",\"server_time\":"@)) {
            None => None,
            Some((server_time_ms, r1)) => {
                if !expects(r1, ",\"timestamp\":"@) {
                    None
                } else {
                    match p_nat_u64(after(r1, ",\"timestamp\":"@)) {
                        None => None,
                        Some((timestamp, r2)) => {
                            if !expects(r2, ",\"media_id\":"@) {
                                None
                            } else {
                                match p_string(after(r2, ",\"media_id\":"@)) {
                                    None => None,
                                    Some((media_id, r3)) => {
                                        if p_end(r3) {
                                            Some(MsgModel::Heartbeat { server_time_ms, timestamp, media_id })
                                        } else {
                                            None
                                        }
                                    },
                                }
                            }
                        },
                    }
                }
            },
        }
    }
}

/// The dispatch picks the branch of this tag.
#[verifier::rlimit(100)]
proof fn lemma_sel_heartbeat(tag: Seq<char>, r: Seq<char>)
    requires
        tag == "heartbeat"@,
    ensures
        dec_tagged(tag, r) == dec_heartbeat_fields(r),
{
    reveal_strlit("heartbeat");
    reveal_strlit("buffering");
    reveal_strlit("chat");
    reveal_strlit("media_change");
    reveal_strlit("navigate");
    reveal_strlit("next_episode");
    reveal_strlit("pause");
    reveal_strlit("ping");
    reveal_strlit("play");
    reveal_strlit("queue_add");
    reveal_strlit("queue_remove");
    reveal_strlit("ready");
    reveal_strlit("seek");
    reveal_strlit("sync_ack");
    reveal_strlit("sync_request");
    reveal_strlit("sync_response");
    assert("heartbeat"@.len() == 9);
    assert("play"@.len() == 4);
    assert(tag != "play"@);
    assert("pause"@.len() == 5);
    assert(tag != "pause"@);
    assert("seek"@.len() == 4);
    assert(tag != "seek"@);
    assert("sync_request"@.len() == 12);
    assert(tag != "sync_request"@);
    assert("sync_response"@.len() == 13);
    assert(tag != "sync_response"@);
    assert("media_change"@.len() == 12);
    assert(tag != "media_change"@);
    assert("next_episode"@.len() == 12);
    assert(tag != "next_episode"@);
    assert("heartbeat"@[0] == 'h');
    assert("queue_add"@[0] == 'q');
    assert(tag != "queue_add"@);
    assert("queue_remove"@.len() == 12);
    assert(tag != "queue_remove"@);
    assert("chat"@.len() == 4);
    assert(tag != "chat"@);
    assert("navigate"@.len() == 8);
    assert(tag != "navigate"@);
    assert("heartbeat"@[0] == 'h');
    assert("buffering"@[0] == 'b');
    assert(tag != "buffering"@);
    assert("ready"@.len() == 5);
    assert(tag != "ready"@);
    assert("sync_ack"@.len() == 8);
    assert(tag != "sync_ack"@);
    assert("ping"@.len() == 4);
    assert(tag != "ping"@);
}

/// Shape of the frame head for one tag.
proof fn lemma_lit_heartbeat()
    ensures
        "{\"type\":\"heartbeat\",\"server_time\":"@ =~= "{\"type\":\""@ + "heartbeat"@ + seq!['\"'] + ",\"server_time\":"@,
        esc("heartbeat"@) == "heartbeat"@,
{
    reveal_strlit("{\"type\":\"heartbeat\",\"server_time\":");
    reveal_strlit("{\"type\":\"");
    reveal_strlit("heartbeat");
    reveal_strlit(",\"server_time\":");
    lemma_esc_id("heartbeat"@);
}

/// Field-chain round trip for one frame kind.
#[verifier::rlimit(100)]
proof fn lemma_rtf_heartbeat(server_time_ms: u64, timestamp: u64, media_id: String)
    ensures
        ({
            let fin = "}"@;
            let l1 = ",\"server_time\":"@;
            let l2 = ",\"timestamp\":"@;
            let l3 = ",\"media_id\":"@;
            dec_heartbeat_fields(l1 + enc_secs(server_time_ms) + l2 + print_u64(timestamp) + l3 + enc_str(media_id@) + fin) == Some(MsgModel::Heartbeat { server_time_ms, timestamp, media_id: media_id@ })
        }),
{
    reveal(dec_heartbeat_fields);
    let fin = "}"@;
    let l1 = ",\"server_time\":"@;
    let l2 = ",\"timestamp\":"@;
    let l3 = ",\"media_id\":"@;
    let r0 = l1 + enc_secs(server_time_ms) + l2 + print_u64(timestamp) + l3 + enc_str(media_id@) + fin;
    let q1 = enc_secs(server_time_ms) + l2 + print_u64(timestamp) + l3 + enc_str(media_id@) + fin;
    assert(r0 =~= l1 + q1);
    lemma_expects_concat(l1, q1);
    let w1 = l2 + print_u64(timestamp) + l3 + enc_str(media_id@) + fin;
    assert(q1 =~= enc_secs(server_time_ms) + w1);
    assert(w1[0] == ',') by {
        reveal_strlit(",\"timestamp\":");
    }
    lemma_p_secs_print(server_time_ms, w1);
    let q2 = print_u64(timestamp) + l3 + enc_str(media_id@) + fin;
    assert(w1 =~= l2 + q2);
    lemma_expects_concat(l2, q2);
    let w2 = l3 + enc_str(media_id@) + fin;
    assert(q2 =~= print_u64(timestamp) + w2);
    assert(w2[0] == ',') by {
        reveal_strlit(",\"media_id\":");
    }
    lemma_p_nat_u64_print(timestamp, w2);
    let q3 = enc_str(media_id@) + fin;
    assert(w2 =~= l3 + q3);
    lemma_expects_concat(l3, q3);
    let w3 = fin;
    assert(q3 =~= enc_str(media_id@) + w3);
    lemma_p_str_enc(media_id@, w3);
    assert(p_end(fin)) by {
        reveal_strlit("}");
    }
}

/// Round trip for one frame kind.
#[verifier::rlimit(100)]
proof fn lemma_rt_heartbeat(msg: WsMessage)
    requires
        msg is Heartbeat,
    ensures
        dec(enc(msg@)) == Some(msg@),
{
    match msg {
        WsMessage::Heartbeat { server_time_ms, timestamp, media_id } => {
            reveal(dec_heartbeat_fields);
            let tp = "{\"type\":\""@;
            let tg = "heartbeat"@;
            let fin = "}"@;
            lemma_lit_heartbeat();
            let l1 = ",\"server_time\":"@;
            let l2 = ",\"timestamp\":"@;
            let l3 = ",\"media_id\":"@;
            let r0 = l1 + enc_secs(server_time_ms) + l2 + print_u64(timestamp) + l3 + enc_str(media_id@) + fin;
            let x = esc(tg) + seq!['\"'] + r0;
            assert(enc(msg@) =~= (tp + tg + seq!['\"'] + l1) + (enc_secs(server_time_ms) + l2 + print_u64(timestamp) + l3 + enc_str(media_id@) + fin));
            assert(enc(msg@) =~= tp + x);
            lemma_expects_concat(tp, x);
            lemma_p_str_body_esc(tg, r0);
            lemma_rtf_heartbeat(server_time_ms, timestamp, media_id);
            assert(dec_heartbeat_fields(r0) == Some(msg@));
            lemma_sel_heartbeat(tg, r0);
            assert(dec_tagged(tg, r0) == Some(msg@));
            assert(dec(enc(msg@)) == Some(msg@));
        },
        _ => {},
    }
}

/// Decode the fields of one frame kind.
fn d_heartbeat(s: &str, pos: usize) -> (r: Option<WsMessage>)
    requires
        pos <= s@.len(),
    ensures
        r matches Some(m) ==> dec_heartbeat_fields(suffix(s@, pos as int)) == Some(m@),
        r is None ==> dec_heartbeat_fields(suffix(s@, pos as int)) is None,
{
    proof {
        reveal(dec_heartbeat_fields);
    }
    let p1 = match eat_lit(s, pos, ",\"server_time\":") {
        Some(p) => p,
        None => {
            return None;
        },
    };
    let (server_time_ms, p2) = match eat_secs(s, p1) {
        Some(v) => v,
        None => {
            return None;
        },
    };
    let p3 = match eat_lit(s, p2, ",\"timestamp\":") {
        Some(p) => p,
        None => {
            return None;
        },
    };
    let (timestamp, p4) = match eat_nat(s, p3) {
        Some(v) => v,
        None => {
            return None;
        },
    };
    let p5 = match eat_lit(s, p4, ",\"media_id\":") {
        Some(p) => p,
        None => {
            return None;
        },
    };
    let (media_id, p6) = match eat_string(s, p5) {
        Some(v) => v,
        None => {
            return None;
        },
    };
    if eat_end(s, p6) {
        Some(WsMessage::Heartbeat { server_time_ms, timestamp, media_id })
    } else {
        None
    }
}

/// Decode the fields of one frame kind.
#[verifier::opaque]
pub open spec fn dec_join_fields(r: Seq<char>) -> Option<MsgModel> {
    if !expects(r, ",\"user_id\":"@) {
        None
    } else {
        match p_int_i64(after(r, ",\"user_id\":"@)) {
            None => None,
            Some((user_id, r1)) => {
                if !expects(r1, ",\"username\":"@) {
                    None
                } else {
                    match p_string(after(r1, ",\"username\":"@)) {
                        None => None,
                        Some((username, r2)) => {
                            if !expects(r2, ",\"thumb\":"@) {
                                None
                            } else {
                                match p_string(after(r2, ",\"thumb\":"@)) {
                                    None => None,
                                    Some((thumb, r3)) => {
                                        if p_end(r3) {
                                            Some(MsgModel::Join { user_id, username, thumb })
                                        } else {
                                            None
                                        }
                                    },
                                }
                            }
                        },
                    }
                }
            },
        }
    }
}

/// The dispatch picks the branch of this tag.
#[verifier::rlimit(100)]
proof fn lemma_sel_join(tag: Seq<char>, r: Seq<char>)
    requires
        tag == "join"@,
    ensures
        dec_tagged(tag, r) == dec_join_fields(r),
{
    reveal_strlit("join");
    reveal_strlit("buffering");
    reveal_strlit("chat");
    reveal_strlit("heartbeat");
    reveal_strlit("media_change");
    reveal_strlit("navigate");
    reveal_strlit("next_episode");
    reveal_strlit("pause");
    reveal_strlit("ping");
    reveal_strlit("play");
    reveal_strlit("queue_add");
    reveal_strlit("queue_remove");
    reveal_strlit("ready");
    reveal_strlit("seek");
    reveal_strlit("sync_ack");
    reveal_strlit("sync_request");
    reveal_strlit("sync_response");
    assert("join"@.len() == 4);
    assert("join"@[0] == 'j');
    assert("play"@[0] == 'p');
    assert(tag != "play"@);
    assert("pause"@.len() == 5);
    assert(tag != "pause"@);
    assert("join"@[0] == 'j');
    assert("seek"@[0] == 's');
    assert(tag != "seek"@);
    assert("sync_request"@.len() == 12);
    assert(tag != "sync_request"@);
    assert("sync_response"@.len() == 13);
    assert(tag != "sync_response"@);
    assert("media_change"@.len() == 12);
    assert(tag != "media_change"@);
    assert("next_episode"@.len() == 12);
    assert(tag != "next_episode"@);
    assert("queue_add"@.len() == 9);
    assert(tag != "queue_add"@);
    assert("queue_remove"@.len() == 12);
    assert(tag != "queue_remove"@);
    assert("join"@[0] == 'j');
    assert("chat"@[0] == 'c');
    assert(tag != "chat"@);
    assert("navigate"@.len() == 8);
    assert(tag != "navigate"@);
    assert("buffering"@.len() == 9);
    assert(tag != "buffering"@);
    assert("ready"@.len() == 5);
    assert(tag != "ready"@);
    assert("sync_ack"@.len() == 8);
    assert(tag != "sync_ack"@);
    assert("join"@[0] == 'j');
    assert("ping"@[0] == 'p');
    assert(tag != "ping"@);
    assert("heartbeat"@.len() == 9);
    assert(tag != "heartbeat"@);
}

/// Shape of the frame head for one tag.
proof fn lemma_lit_join()
    ensures
        "{\"type\":\"join\",\"user_id\":"@ =~= "{\"type\":\""@ + "join"@ + seq!['\"'] + ",\"user_id\":"@,
        esc("join"@) == "join"@,
{
    reveal_strlit("{\"type\":\"join\",\"user_id\":");
    reveal_strlit("{\"type\":\"");
    reveal_strlit("join");
    reveal_strlit(",\"user_id\":");
    lemma_esc_id("join"@);
}

/// Field-chain round trip for one frame kind.
#[verifier::rlimit(100)]
proof fn lemma_rtf_join(user_id: i64, username: String, thumb: String)
    ensures
        ({
            let fin = "}"@;
            let l1 = ",\"user_id\":"@;
            let l2 = ",\"username\":"@;
            let l3 = ",\"thumb\":"@;
            dec_join_fields(l1 + print_i64(user_id) + l2 + enc_str(username@) + l3 + enc_str(thumb@) + fin) == Some(MsgModel::Join { user_id, username: username@, thumb: thumb@ })
        }),
{
    reveal(dec_join_fields);
    let fin = "}"@;
    let l1 = ",\"user_id\":"@;
    let l2 = ",\"username\":"@;
    let l3 = ",\"thumb\":"@;
    let r0 = l1 + print_i64(user_id) + l2 + enc_str(username@) + l3 + enc_str(thumb@) + fin;
    let q1 = print_i64(user_id) + l2 + enc_str(username@) + l3 + enc_str(thumb@) + fin;
    assert(r0 =~= l1 + q1);
    lemma_expects_concat(l1, q1);
    let w1 = l2 + enc_str(username@) + l3 + enc_str(thumb@) + fin;
    assert(q1 =~= print_i64(user_id) + w1);
    assert(w1[0] == ',') by {
        reveal_strlit(",\"username\":");
    }
    lemma_p_int_i64_print(user_id, w1);
    let q2 = enc_str(username@) + l3 + enc_str(thumb@) + fin;
    assert(w1 =~= l2 + q2);
    lemma_expects_concat(l2, q2);
    let w2 = l3 + enc_str(thumb@) + fin;
    assert(q2 =~= enc_str(username@) + w2);
    lemma_p_str_enc(username@, w2);
    let q3 = enc_str(thumb@) + fin;
    assert(w2 =~= l3 + q3);
    lemma_expects_concat(l3, q3);
    let w3 = fin;
    assert(q3 =~= enc_str(thumb@) + w3);
    lemma_p_str_enc(thumb@, w3);
    assert(p_end(fin)) by {
        reveal_strlit("}");
    }
}

/// Round trip for one frame kind.
#[verifier::rlimit(100)]
proof fn lemma_rt_join(msg: WsMessage)
    requires
        msg is Join,
    ensures
        dec(enc(msg@)) == Some(msg@),
{
    match msg {
        WsMessage::Join { user_id, username, thumb } => {
            reveal(dec_join_fields);
            let tp = "{\"type\":\""@;
            let tg = "join"@;
            let fin = "}"@;
            lemma_lit_join();
            let l1 = ",\"user_id\":"@;
            let l2 = ",\"username\":"@;
            let l3 = ",\"thumb\":"@;
            let r0 = l1 + print_i64(user_id) + l2 + enc_str(username@) + l3 + enc_str(thumb@) + fin;
            let x = esc(tg) + seq!['\"'] + r0;
            assert(enc(msg@) =~= (tp + tg + seq!['\"'] + l1) + (print_i64(user_id) + l2 + enc_str(username@) + l3 + enc_str(thumb@) + fin));
            assert(enc(msg@) =~= tp + x);
            lemma_expects_concat(tp, x);
            lemma_p_str_body_esc(tg, r0);
            lemma_rtf_join(user_id, username, thumb);
            assert(dec_join_fields(r0) == Some(msg@));
            lemma_sel_join(tg, r0);
            assert(dec_tagged(tg, r0) == Some(msg@));
            assert(dec(enc(msg@)) == Some(msg@));
        },
        _ => {},
    }
}

/// Decode the fields of one frame kind.
fn d_join(s: &str, pos: usize) -> (r: Option<WsMessage>)
    requires
        pos <= s@.len(),
    ensures
        r matches Some(m) ==> dec_join_fields(suffix(s@, pos as int)) == Some(m@),
        r is None ==> dec_join_fields(suffix(s@, pos as int)) is None,
{
    proof {
        reveal(dec_join_fields);
    }
    let p1 = match eat_lit(s, pos, ",\"user_id\":") {
        Some(p) => p,
        None => {
            return None;
        },
    };
    let (user_id, p2) = match eat_int(s, p1) {
        Some(v) => v,
        None => {
            return None;
        },
    };
    let p3 = match eat_lit(s, p2, ",\"username\":") {
        Some(p) => p,
        None => {
            return None;
        },
    };
    let (username, p4) = match eat_string(s, p3) {
        Some(v) => v,
        None => {
            return None;
        },
    };
    let p5 = match eat_lit(s, p4, ",\"thumb\":") {
        Some(p) => p,
        None => {
            return None;
        },
    };
    let (thumb, p6) = match eat_string(s, p5) {
        Some(v) => v,
        None => {
            return None;
        },
    };
    if eat_end(s, p6) {
        Some(WsMessage::Join { user_id, username, thumb })
    } else {
        None
    }
}

/// Decode the fields of one frame kind.
#[verifier::opaque]
pub open spec fn dec_leave_fields(r: Seq<char>) -> Option<MsgModel> {
    if !expects(r, ",\"user_id\":"@) {
        None
    } else {
        match p_int_i64(after(r, ",\"user_id\":"@)) {
            None => None,
            Some((user_id, r1)) => {
                if !expects(r1, ",\"username\":"@) {
                    None
                } else {
                    match p_string(after(r1, ",\"username\":"@)) {
                        None => None,
                        Some((username, r2)) => {
                            if p_end(r2) {
                                Some(MsgModel::Leave { user_id, username })
                            } else {
                                None
                            }
                        },
                    }
                }
            },
        }
    }
}

/// The dispatch picks the branch of this tag.
#[verifier::rlimit(100)]
proof fn lemma_sel_leave(tag: Seq<char>, r: Seq<char>)
    requires
        tag == "leave"@,
    ensures
        dec_tagged(tag, r) == dec_leave_fields(r),
{
    reveal_strlit("leave");
    reveal_strlit("buffering");
    reveal_strlit("chat");
    reveal_strlit("heartbeat");
    reveal_strlit("join");
    reveal_strlit("media_change");
    reveal_strlit("navigate");
    reveal_strlit("next_episode");
    reveal_strlit("pause");
    reveal_strlit("ping");
    reveal_strlit("play");
    reveal_strlit("queue_add");
    reveal_strlit("queue_remove");
    reveal_strlit("ready");
    reveal_strlit("seek");
    reveal_strlit("sync_ack");
    reveal_strlit("sync_request");
    reveal_strlit("sync_response");
    assert("leave"@.len() == 5);
    assert("play"@.len() == 4);
    assert(tag != "play"@);
    assert("leave"@[0] == 'l');
    assert("pause"@[0] == 'p');
    assert(tag != "pause"@);
    assert("seek"@.len() == 4);
    assert(tag != "seek"@);
    assert("sync_request"@.len() == 12);
    assert(tag != "sync_request"@);
    assert("sync_response"@.len() == 13);
    assert(tag != "sync_response"@);
    assert("media_change"@.len() == 12);
    assert(tag != "media_change"@);
    assert("next_episode"@.len() == 12);
    assert(tag != "next_episode"@);
    assert("queue_add"@.len() == 9);
    assert(tag != "queue_add"@);
    assert("queue_remove"@.len() == 12);
    assert(tag != "queue_remove"@);
    assert("chat"@.len() == 4);
    assert(tag != "chat"@);
    assert("navigate"@.len() == 8);
    assert(tag != "navigate"@);
    assert("buffering"@.len() == 9);
    assert(tag != "buffering"@);
    assert("leave"@[0] == 'l');
    assert("ready"@[0] == 'r');
    assert(tag != "ready"@);
    assert("sync_ack"@.len() == 8);
    assert(tag != "sync_ack"@);
    assert("ping"@.len() == 4);
    assert(tag != "ping"@);
    assert("heartbeat"@.len() == 9);
    assert(tag != "heartbeat"@);
    assert("join"@.len() == 4);
    assert(tag != "join"@);
}

/// Shape of the frame head for one tag.
proof fn lemma_lit_leave()
    ensures
        "{\"type\":\"leave\",\"user_id\":"@ =~= "{\"type\":\""@ + "leave"@ + seq!['\"'] + ",\"user_id\":"@,
        esc("leave"@) == "leave"@,
{
    reveal_strlit("{\"type\":\"leave\",\"user_id\":");
    reveal_strlit("{\"type\":\"");
    reveal_strlit("leave");
    reveal_strlit(",\"user_id\":");
    lemma_esc_id("leave"@);
}

/// Field-chain round trip for one frame kind.
#[verifier::rlimit(100)]
proof fn lemma_rtf_leave(user_id: i64, username: String)
    ensures
        ({
            let fin = "}"@;
            let l1 = ",\"user_id\":"@;
            let l2 = ",\"username\":"@;
            dec_leave_fields(l1 + print_i64(user_id) + l2 + enc_str(username@) + fin) == Some(MsgModel::Leave { user_id, username: username@ })
        }),
{
    reveal(dec_leave_fields);
    let fin = "}"@;
    let l1 = ",\"user_id\":"@;
    let l2 = ",\"username\":"@;
    let r0 = l1 + print_i64(user_id) + l2 + enc_str(username@) + fin;
    let q1 = print_i64(user_id) + l2 + enc_str(username@) + fin;
    assert(r0 =~= l1 + q1);
    lemma_expects_concat(l1, q1);
    let w1 = l2 + enc_str(username@) + fin;
    assert(q1 =~= print_i64(user_id) + w1);
    assert(w1[0] == ',') by {
        reveal_strlit(",\"username\":");
    }
    lemma_p_int_i64_print(user_id, w1);
    let q2 = enc_str(username@) + fin;
    assert(w1 =~= l2 + q2);
    lemma_expects_concat(l2, q2);
    let w2 = fin;
    assert(q2 =~= enc_str(username@) + w2);
    lemma_p_str_enc(username@, w2);
    assert(p_end(fin)) by {
        reveal_strlit("}");
    }
}

/// Round trip for one frame kind.
#[verifier::rlimit(100)]
proof fn lemma_rt_leave(msg: WsMessage)
    requires
        msg is Leave,
    ensures
        dec(enc(msg@)) == Some(msg@),
{
    match msg {
        WsMessage::Leave { user_id, username } => {
            reveal(dec_leave_fields);
            let tp = "{\"type\":\""@;
            let tg = "leave"@;
            let fin = "}"@;
            lemma_lit_leave();
            let l1 = ",\"user_id\":"@;
            let l2 = ",\"username\":"@;
            let r0 = l1 + print_i64(user_id) + l2 + enc_str(username@) + fin;
            let x = esc(tg) + seq!['\"'] + r0;
            assert(enc(msg@) =~= (tp + tg + seq!['\"'] + l1) + (print_i64(user_id) + l2 + enc_str(username@) + fin));
            assert(enc(msg@) =~= tp + x);
            lemma_expects_concat(tp, x);
            lemma_p_str_body_esc(tg, r0);
            lemma_rtf_leave(user_id, username);
            assert(dec_leave_fields(r0) == Some(msg@));
            lemma_sel_leave(tg, r0);
            assert(dec_tagged(tg, r0) == Some(msg@));
            assert(dec(enc(msg@)) == Some(msg@));
        },
        _ => {},
    }
}

/// Decode the fields of one frame kind.
fn d_leave(s: &str, pos: usize) -> (r: Option<WsMessage>)
    requires
        pos <= s@.len(),
    ensures
        r matches Some(m) ==> dec_leave_fields(suffix(s@, pos as int)) == Some(m@),
        r is None ==> dec_leave_fields(suffix(s@, pos as int)) is None,
{
    proof {
        reveal(dec_leave_fields);
    }
    let p1 = match eat_lit(s, pos, ",\"user_id\":") {
        Some(p) => p,
        None => {
            return None;
        },
    };
    let (user_id, p2) = match eat_int(s, p1) {
        Some(v) => v,
        None => {
            return None;
        },
    };
    let p3 = match eat_lit(s, p2, ",\"username\":") {
        Some(p) => p,
        None => {
            return None;
        },
    };
    let (username, p4) = match eat_string(s, p3) {
        Some(v) => v,
        None => {
            return None;
        },
    };
    if eat_end(s, p4) {
        Some(WsMessage::Leave { user_id, username })
    } else {
        None
    }
}

/// Decode the fields of one frame kind.
#[verifier::opaque]
pub open spec fn dec_kicked_fields(r: Seq<char>) -> Option<MsgModel> {
    if !expects(r, ",\"reason\":"@) {
        None
    } else {
        match p_opt_string(after(r, ",\"reason\":"@)) {
            None => None,
            Some((reason, r1)) => {
                if p_end(r1) {
                    Some(MsgModel::Kicked { reason })
                } else {
                    None
                }
            },
        }
    }
}

/// The dispatch picks the branch of this tag.
#[verifier::rlimit(100)]
proof fn lemma_sel_kicked(tag: Seq<char>, r: Seq<char>)
    requires
        tag == "kicked"@,
    ensures
        dec_tagged(tag, r) == dec_kicked_fields(r),
{
    reveal_strlit("kicked");
    reveal_strlit("buffering");
    reveal_strlit("chat");
    reveal_strlit("heartbeat");
    reveal_strlit("join");
    reveal_strlit("leave");
    reveal_strlit("media_change");
    reveal_strlit("navigate");
    reveal_strlit("next_episode");
    reveal_strlit("pause");
    reveal_strlit("ping");
    reveal_strlit("play");
    reveal_strlit("queue_add");
    reveal_strlit("queue_remove");
    reveal_strlit("ready");
    reveal_strlit("seek");
    reveal_strlit("sync_ack");
    reveal_strlit("sync_request");
    reveal_strlit("sync_response");
    assert("kicked"@.len() == 6);
    assert("play"@.len() == 4);
    assert(tag != "play"@);
    assert("pause"@.len() == 5);
    assert(tag != "pause"@);
    assert("seek"@.len() == 4);
    assert(tag != "seek"@);
    assert("sync_request"@.len() == 12);
    assert(tag != "sync_request"@);
    assert("sync_response"@.len() == 13);
    assert(tag != "sync_response"@);
    assert("media_change"@.len() == 12);
    assert(tag != "media_change"@);
    assert("next_episode"@.len() == 12);
    assert(tag != "next_episode"@);
    assert("queue_add"@.len() == 9);
    assert(tag != "queue_add"@);
    assert("queue_remove"@.len() == 12);
    assert(tag != "queue_remove"@);
    assert("chat"@.len() == 4);
    assert(tag != "chat"@);
    assert("navigate"@.len() == 8);
    assert(tag != "navigate"@);
    assert("buffering"@.len() == 9);
    assert(tag != "buffering"@);
    assert("ready"@.len() == 5);
    assert(tag != "ready"@);
    assert("sync_ack"@.len() == 8);
    assert(tag != "sync_ack"@);
    assert("ping"@.len() == 4);
    assert(tag != "ping"@);
    assert("heartbeat"@.len() == 9);
    assert(tag != "heartbeat"@);
    assert("join"@.len() == 4);
    assert(tag != "join"@);
    assert("leave"@.len() == 5);
    assert(tag != "leave"@);
}

/// Shape of the frame head for one tag.
proof fn lemma_lit_kicked()
    ensures
        "{\"type\":\"kicked\",\"reason\":"@ =~= "{\"type\":\""@ + "kicked"@ + seq!['\"'] + ",\"reason\":"@,
        esc("kicked"@) == "kicked"@,
{
    reveal_strlit("{\"type\":\"kicked\",\"reason\":");
    reveal_strlit("{\"type\":\"");
    reveal_strlit("kicked");
    reveal_strlit(",\"reason\":");
    lemma_esc_id("kicked"@);
}

/// Field-chain round trip for one frame kind.
#[verifier::rlimit(100)]
proof fn lemma_rtf_kicked(reason: Option<String>)
    ensures
        ({
            let fin = "}"@;
            let l1 = ",\"reason\":"@;
            dec_kicked_fields(l1 + enc_opt_str(reason.deep_view()) + fin) == Some(MsgModel::Kicked { reason: reason.deep_view() })
        }),
{
    reveal(dec_kicked_fields);
    let fin = "}"@;
    let l1 = ",\"reason\":"@;
    let r0 = l1 + enc_opt_str(reason.deep_view()) + fin;
    let q1 = enc_opt_str(reason.deep_view()) + fin;
    assert(r0 =~= l1 + q1);
    lemma_expects_concat(l1, q1);
    let w1 = fin;
    match &reason {
        Some(t) => {
            reveal_strlit("null");
            assert(reason.deep_view() == Some(t@));
            assert(enc_opt_str(reason.deep_view()) == enc_str(t@));
            assert(q1 =~= enc_str(t@) + w1);
            assert(q1[0] == '\"');
            assert("null"@[0] == 'n');
            assert(!expects(q1, "null"@));
            lemma_p_str_enc(t@, w1);
        },
        None => {
            reveal_strlit("null");
            assert(reason.deep_view() is None);
            assert(enc_opt_str(reason.deep_view()) == "null"@);
            assert(q1 =~= "null"@ + w1);
            lemma_expects_concat("null"@, w1);
        },
    }
    assert(p_end(fin)) by {
        reveal_strlit("}");
    }
}

/// Round trip for one frame kind.
#[verifier::rlimit(100)]
proof fn lemma_rt_kicked(msg: WsMessage)
    requires
        msg is Kicked,
    ensures
        dec(enc(msg@)) == Some(msg@),
{
    match msg {
        WsMessage::Kicked { reason } => {
            reveal(dec_kicked_fields);
            let tp = "{\"type\":\""@;
            let tg = "kicked"@;
            let fin = "}"@;
            lemma_lit_kicked();
            let l1 = ",\"reason\":"@;
            let r0 = l1 + enc_opt_str(reason.deep_view()) + fin;
            let x = esc(tg) + seq!['\"'] + r0;
            assert(enc(msg@) =~= (tp + tg + seq!['\"'] + l1) + (enc_opt_str(reason.deep_view()) + fin));
            assert(enc(msg@) =~= tp + x);
            lemma_expects_concat(tp, x);
            lemma_p_str_body_esc(tg, r0);
            lemma_rtf_kicked(reason);
            assert(dec_kicked_fields(r0) == Some(msg@));
            lemma_sel_kicked(tg, r0);
            assert(dec_tagged(tg, r0) == Some(msg@));
            assert(dec(enc(msg@)) == Some(msg@));
        },
        _ => {},
    }
}

/// Decode the fields of one frame kind.
fn d_kicked(s: &str, pos: usize) -> (r: Option<WsMessage>)
    requires
        pos <= s@.len(),
    ensures
        r matches Some(m) ==> dec_kicked_fields(suffix(s@, pos as int)) == Some(m@),
        r is None ==> dec_kicked_fields(suffix(s@, pos as int)) is None,
{
    proof {
        reveal(dec_kicked_fields);
    }
    let p1 = match eat_lit(s, pos, ",\"reason\":") {
        Some(p) => p,
        None => {
            return None;
        },
    };
    let (reason, p2) = match eat_opt_string(s, p1) {
        Some(v) => v,
        None => {
            return None;
        },
    };
    if eat_end(s, p2) {
        Some(WsMessage::Kicked { reason })
    } else {
        None
    }
}

/// Decode the fields of one frame kind.
#[verifier::opaque]
pub open spec fn dec_room_closed_fields(r: Seq<char>) -> Option<MsgModel> {
    if p_end(r) {
        Some(MsgModel::RoomClosed)
    } else {
        None
    }
}

/// The dispatch picks the branch of this tag.
#[verifier::rlimit(100)]
proof fn lemma_sel_room_closed(tag: Seq<char>, r: Seq<char>)
    requires
        tag == "room_closed"@,
    ensures
        dec_tagged(tag, r) == dec_room_closed_fields(r),
{
    reveal_strlit("room_closed");
    reveal_strlit("buffering");
    reveal_strlit("chat");
    reveal_strlit("heartbeat");
    reveal_strlit("join");
    reveal_strlit("kicked");
    reveal_strlit("leave");
    reveal_strlit("media_change");
    reveal_strlit("navigate");
    reveal_strlit("next_episode");
    reveal_strlit("pause");
    reveal_strlit("ping");
    reveal_strlit("play");
    reveal_strlit("queue_add");
    reveal_strlit("queue_remove");
    reveal_strlit("ready");
    reveal_strlit("seek");
    reveal_strlit("sync_ack");
    reveal_strlit("sync_request");
    reveal_strlit("sync_response");
    assert("room_closed"@.len() == 11);
    assert("play"@.len() == 4);
    assert(tag != "play"@);
    assert("pause"@.len() == 5);
    assert(tag != "pause"@);
    assert("seek"@.len() == 4);
    assert(tag != "seek"@);
    assert("sync_request"@.len() == 12);
    assert(tag != "sync_request"@);
    assert("sync_response"@.len() == 13);
    assert(tag != "sync_response"@);
    assert("media_change"@.len() == 12);
    assert(tag != "media_change"@);
    assert("next_episode"@.len() == 12);
    assert(tag != "next_episode"@);
    assert("queue_add"@.len() == 9);
    assert(tag != "queue_add"@);
    assert("queue_remove"@.len() == 12);
    assert(tag != "queue_remove"@);
    assert("chat"@.len() == 4);
    assert(tag != "chat"@);
    assert("navigate"@.len() == 8);
    assert(tag != "navigate"@);
    assert("buffering"@.len() == 9);
    assert(tag != "buffering"@);
    assert("ready"@.len() == 5);
    assert(tag != "ready"@);
    assert("sync_ack"@.len() == 8);
    assert(tag != "sync_ack"@);
    assert("ping"@.len() == 4);
    assert(tag != "ping"@);
    assert("heartbeat"@.len() == 9);
    assert(tag != "heartbeat"@);
    assert("join"@.len() == 4);
    assert(tag != "join"@);
    assert("leave"@.len() == 5);
    assert(tag != "leave"@);
    assert("kicked"@.len() == 6);
    assert(tag != "kicked"@);
}

/// Shape of the frame head for one tag.
proof fn lemma_lit_room_closed()
    ensures
        "{\"type\":\"room_closed\"}"@ =~= "{\"type\":\""@ + "room_closed"@ + seq!['\"'] + "}"@,
        esc("room_closed"@) == "room_closed"@,
{
    reveal_strlit("{\"type\":\"room_closed\"}");
    reveal_strlit("{\"type\":\"");
    reveal_strlit("room_closed");
    reveal_strlit("}");
    lemma_esc_id("room_closed"@);
}

/// Round trip for one frame kind.
#[verifier::rlimit(100)]
proof fn lemma_rt_room_closed(msg: WsMessage)
    requires
        msg is RoomClosed,
    ensures
        dec(enc(msg@)) == Some(msg@),
{
    reveal(dec_room_closed_fields);
    let tp = "{\"type\":\""@;
    let tg = "room_closed"@;
    let fin = "}"@;
    lemma_lit_room_closed();
    let r0 = fin;
    let x = esc(tg) + seq!['\"'] + r0;
    assert(enc(msg@) =~= tp + x);
    lemma_expects_concat(tp, x);
    lemma_p_str_body_esc(tg, r0);
    assert(p_end(fin)) by {
        reveal_strlit("}");
    }
    assert(dec_room_closed_fields(r0) == Some(msg@));
    lemma_sel_room_closed(tg, r0);
    assert(dec_tagged(tg, r0) == Some(msg@));
    assert(dec(enc(msg@)) == Some(msg@));
}

/// Decode the fields of one frame kind.
fn d_room_closed(s: &str, pos: usize) -> (r: Option<WsMessage>)
    requires
        pos <= s@.len(),
    ensures
        r matches Some(m) ==> dec_room_closed_fields(suffix(s@, pos as int)) == Some(m@),
        r is None ==> dec_room_closed_fields(suffix(s@, pos as int)) is None,
{
    proof {
        reveal(dec_room_closed_fields);
    }
    if eat_end(s, pos) {
        Some(WsMessage::RoomClosed)
    } else {
        None
    }
}

/// Decode the fields of one frame kind.
#[verifier::opaque]
pub open spec fn dec_all_ready_fields(r: Seq<char>) -> Option<MsgModel> {
    if p_end(r) {
        Some(MsgModel::AllReady)
    } else {
        None
    }
}

/// The dispatch picks the branch of this tag.
#[verifier::rlimit(100)]
proof fn lemma_sel_all_ready(tag: Seq<char>, r: Seq<char>)
    requires
        tag == "all_ready"@,
    ensures
        dec_tagged(tag, r) == dec_all_ready_fields(r),
{
    reveal_strlit("all_ready");
    reveal_strlit("buffering");
    reveal_strlit("chat");
    reveal_strlit("heartbeat");
    reveal_strlit("join");
    reveal_strlit("kicked");
    reveal_strlit("leave");
    reveal_strlit("media_change");
    reveal_strlit("navigate");
    reveal_strlit("next_episode");
    reveal_strlit("pause");
    reveal_strlit("ping");
    reveal_strlit("play");
    reveal_strlit("queue_add");
    reveal_strlit("queue_remove");
    reveal_strlit("ready");
    reveal_strlit("room_closed");
    reveal_strlit("seek");
    reveal_strlit("sync_ack");
    reveal_strlit("sync_request");
    reveal_strlit("sync_response");
    assert("all_ready"@.len() == 9);
    assert("play"@.len() == 4);
    assert(tag != "play"@);
    assert("pause"@.len() == 5);
    assert(tag != "pause"@);
    assert("seek"@.len() == 4);
    assert(tag != "seek"@);
    assert("sync_request"@.len() == 12);
    assert(tag != "sync_request"@);
    assert("sync_response"@.len() == 13);
    assert(tag != "sync_response"@);
    assert("media_change"@.len() == 12);
    assert(tag != "media_change"@);
    assert("next_episode"@.len() == 12);
    assert(tag != "next_episode"@);
    assert("all_ready"@[0] == 'a');
    assert("queue_add"@[0] == 'q');
    assert(tag != "queue_add"@);
    assert("queue_remove"@.len() == 12);
    assert(tag != "queue_remove"@);
    assert("chat"@.len() == 4);
    assert(tag != "chat"@);
    assert("navigate"@.len() == 8);
    assert(tag != "navigate"@);
    assert("all_ready"@[0] == 'a');
    assert("buffering"@[0] == 'b');
    assert(tag != "buffering"@);
    assert("ready"@.len() == 5);
    assert(tag != "ready"@);
    assert("sync_ack"@.len() == 8);
    assert(tag != "sync_ack"@);
    assert("ping"@.len() == 4);
    assert(tag != "ping"@);
    assert("all_ready"@[0] == 'a');
    assert("heartbeat"@[0] == 'h');
    assert(tag != "heartbeat"@);
    assert("join"@.len() == 4);
    assert(tag != "join"@);
    assert("leave"@.len() == 5);
    assert(tag != "leave"@);
    assert("kicked"@.len() == 6);
    assert(tag != "kicked"@);
    assert("room_closed"@.len() == 11);
    assert(tag != "room_closed"@);
}

/// Shape of the frame head for one tag.
proof fn lemma_lit_all_ready()
    ensures
        "{\"type\":\"all_ready\"}"@ =~= "{\"type\":\""@ + "all_ready"@ + seq!['\"'] + "}"@,
        esc("all_ready"@) == "all_ready"@,
{
    reveal_strlit("{\"type\":\"all_ready\"}");
    reveal_strlit("{\"type\":\"");
    reveal_strlit("all_ready");
    reveal_strlit("}");
    lemma_esc_id("all_ready"@);
}

/// Round trip for one frame kind.
#[verifier::rlimit(100)]
proof fn lemma_rt_all_ready(msg: WsMessage)
    requires
        msg is AllReady,
    ensures
        dec(enc(msg@)) == Some(msg@),
{
    reveal(dec_all_ready_fields);
    let tp = "{\"type\":\""@;
    let tg = "all_ready"@;
    let fin = "}"@;
    lemma_lit_all_ready();
    let r0 = fin;
    let x = esc(tg) + seq!['\"'] + r0;
    assert(enc(msg@) =~= tp + x);
    lemma_expects_concat(tp, x);
    lemma_p_str_body_esc(tg, r0);
    assert(p_end(fin)) by {
        reveal_strlit("}");
    }
    assert(dec_all_ready_fields(r0) == Some(msg@));
    lemma_sel_all_ready(tg, r0);
    assert(dec_tagged(tg, r0) == Some(msg@));
    assert(dec(enc(msg@)) == Some(msg@));
}

/// Decode the fields of one frame kind.
fn d_all_ready(s: &str, pos: usize) -> (r: Option<WsMessage>)
    requires
        pos <= s@.len(),
    ensures
        r matches Some(m) ==> dec_all_ready_fields(suffix(s@, pos as int)) == Some(m@),
        r is None ==> dec_all_ready_fields(suffix(s@, pos as int)) is None,
{
    proof {
        reveal(dec_all_ready_fields);
    }
    if eat_end(s, pos) {
        Some(WsMessage::AllReady)
    } else {
        None
    }
}

/// Decode the fields of one frame kind.
#[verifier::opaque]
pub open spec fn dec_pong_fields(r: Seq<char>) -> Option<MsgModel> {
    if p_end(r) {
        Some(MsgModel::Pong)
    } else {
        None
    }
}

/// The dispatch picks the branch of this tag.
#[verifier::rlimit(100)]
proof fn lemma_sel_pong(tag: Seq<char>, r: Seq<char>)
    requires
        tag == "pong"@,
    ensures
        dec_tagged(tag, r) == dec_pong_fields(r),
{
    reveal_strlit("pong");
    reveal_strlit("all_ready");
    reveal_strlit("buffering");
    reveal_strlit("chat");
    reveal_strlit("heartbeat");
    reveal_strlit("join");
    reveal_strlit("kicked");
    reveal_strlit("leave");
    reveal_strlit("media_change");
    reveal_strlit("navigate");
    reveal_strlit("next_episode");
    reveal_strlit("pause");
    reveal_strlit("ping");
    reveal_strlit("play");
    reveal_strlit("queue_add");
    reveal_strlit("queue_remove");
    reveal_strlit("ready");
    reveal_strlit("room_closed");
    reveal_strlit("seek");
    reveal_strlit("sync_ack");
    reveal_strlit("sync_request");
    reveal_strlit("sync_response");
    assert("pong"@.len() == 4);
    assert("pong"@[1] == 'o');
    assert("play"@[1] == 'l');
    assert(tag != "play"@);
    assert("pause"@.len() == 5);
    assert(tag != "pause"@);
    assert("pong"@[0] == 'p');
    assert("seek"@[0] == 's');
    assert(tag != "seek"@);
    assert("sync_request"@.len() == 12);
    assert(tag != "sync_request"@);
    assert("sync_response"@.len() == 13);
    assert(tag != "sync_response"@);
    assert("media_change"@.len() == 12);
    assert(tag != "media_change"@);
    assert("next_episode"@.len() == 12);
    assert(tag != "next_episode"@);
    assert("queue_add"@.len() == 9);
    assert(tag != "queue_add"@);
    assert("queue_remove"@.len() == 12);
    assert(tag != "queue_remove"@);
    assert("pong"@[0] == 'p');
    assert("chat"@[0] == 'c');
    assert(tag != "chat"@);
    assert("navigate"@.len() == 8);
    assert(tag != "navigate"@);
    assert("buffering"@.len() == 9);
    assert(tag != "buffering"@);
    assert("ready"@.len() == 5);
    assert(tag != "ready"@);
    assert("sync_ack"@.len() == 8);
    assert(tag != "sync_ack"@);
    assert("pong"@[1] == 'o');
    assert("ping"@[1] == 'i');
    assert(tag != "ping"@);
    assert("heartbeat"@.len() == 9);
    assert(tag != "heartbeat"@);
    assert("pong"@[0] == 'p');
    assert("join"@[0] == 'j');
    assert(tag != "join"@);
    assert("leave"@.len() == 5);
    assert(tag != "leave"@);
    assert("kicked"@.len() == 6);
    assert(tag != "kicked"@);
    assert("room_closed"@.len() == 11);
    assert(tag != "room_closed"@);
    assert("all_ready"@.len() == 9);
    assert(tag != "all_ready"@);
}

/// Shape of the frame head for one tag.
proof fn lemma_lit_pong()
    ensures
        "{\"type\":\"pong\"}"@ =~= "{\"type\":\""@ + "pong"@ + seq!['\"'] + "}"@,
        esc("pong"@) == "pong"@,
{
    reveal_strlit("{\"type\":\"pong\"}");
    reveal_strlit("{\"type\":\"");
    reveal_strlit("pong");
    reveal_strlit("}");
    lemma_esc_id("pong"@);
}

/// Round trip for one frame kind.
#[verifier::rlimit(100)]
proof fn lemma_rt_pong(msg: WsMessage)
    requires
        msg is Pong,
    ensures
        dec(enc(msg@)) == Some(msg@),
{
    reveal(dec_pong_fields);
    let tp = "{\"type\":\""@;
    let tg = "pong"@;
    let fin = "}"@;
    lemma_lit_pong();
    let r0 = fin;
    let x = esc(tg) + seq!['\"'] + r0;
    assert(enc(msg@) =~= tp + x);
    lemma_expects_concat(tp, x);
    lemma_p_str_body_esc(tg, r0);
    assert(p_end(fin)) by {
        reveal_strlit("}");
    }
    assert(dec_pong_fields(r0) == Some(msg@));
    lemma_sel_pong(tg, r0);
    assert(dec_tagged(tg, r0) == Some(msg@));
    assert(dec(enc(msg@)) == Some(msg@));
}

/// Decode the fields of one frame kind.
fn d_pong(s: &str, pos: usize) -> (r: Option<WsMessage>)
    requires
        pos <= s@.len(),
    ensures
        r matches Some(m) ==> dec_pong_fields(suffix(s@, pos as int)) == Some(m@),
        r is None ==> dec_pong_fields(suffix(s@, pos as int)) is None,
{
    proof {
        reveal(dec_pong_fields);
    }
    if eat_end(s, pos) {
        Some(WsMessage::Pong)
    } else {
        None
    }
}

/// Decode the fields of one frame kind.
#[verifier::opaque]
pub open spec fn dec_error_fields(r: Seq<char>) -> Option<MsgModel> {
    if !expects(r, ",\"message\":"@) {
        None
    } else {
        match p_string(after(r, ",\"message\":"@)) {
            None => None,
            Some((message, r1)) => {
                if p_end(r1) {
                    Some(MsgModel::Error { message })
                } else {
                    None
                }
            },
        }
    }
}

/// The dispatch picks the branch of this tag.
#[verifier::rlimit(100)]
proof fn lemma_sel_error(tag: Seq<char>, r: Seq<char>)
    requires
        tag == "error"@,
    ensures
        dec_tagged(tag, r) == dec_error_fields(r),
{
    reveal_strlit("error");
    reveal_strlit("all_ready");
    reveal_strlit("buffering");
    reveal_strlit("chat");
    reveal_strlit("heartbeat");
    reveal_strlit("join");
    reveal_strlit("kicked");
    reveal_strlit("leave");
    reveal_strlit("media_change");
    reveal_strlit("navigate");
    reveal_strlit("next_episode");
    reveal_strlit("pause");
    reveal_strlit("ping");
    reveal_strlit("play");
    reveal_strlit("pong");
    reveal_strlit("queue_add");
    reveal_strlit("queue_remove");
    reveal_strlit("ready");
    reveal_strlit("room_closed");
    reveal_strlit("seek");
    reveal_strlit("sync_ack");
    reveal_strlit("sync_request");
    reveal_strlit("sync_response");
    assert("error"@.len() == 5);
    assert("play"@.len() == 4);
    assert(tag != "play"@);
    assert("error"@[0] == 'e');
    assert("pause"@[0] == 'p');
    assert(tag != "pause"@);
    assert("seek"@.len() == 4);
    assert(tag != "seek"@);
    assert("sync_request"@.len() == 12);
    assert(tag != "sync_request"@);
    assert("sync_response"@.len() == 13);
    assert(tag != "sync_response"@);
    assert("media_change"@.len() == 12);
    assert(tag != "media_change"@);
    assert("next_episode"@.len() == 12);
    assert(tag != "next_episode"@);
    assert("queue_add"@.len() == 9);
    assert(tag != "queue_add"@);
    assert("queue_remove"@.len() == 12);
    assert(tag != "queue_remove"@);
    assert("chat"@.len() == 4);
    assert(tag != "chat"@);
    assert("navigate"@.len() == 8);
    assert(tag != "navigate"@);
    assert("buffering"@.len() == 9);
    assert(tag != "buffering"@);
    assert("error"@[0] == 'e');
    assert("ready"@[0] == 'r');
    assert(tag != "ready"@);
    assert("sync_ack"@.len() == 8);
    assert(tag != "sync_ack"@);
    assert("ping"@.len() == 4);
    assert(tag != "ping"@);
    assert("heartbeat"@.len() == 9);
    assert(tag != "heartbeat"@);
    assert("join"@.len() == 4);
    assert(tag != "join"@);
    assert("error"@[0] == 'e');
    assert("leave"@[0] == 'l');
    assert(tag != "leave"@);
    assert("kicked"@.len() == 6);
    assert(tag != "kicked"@);
    assert("room_closed"@.len() == 11);
    assert(tag != "room_closed"@);
    assert("all_ready"@.len() == 9);
    assert(tag != "all_ready"@);
    assert("pong"@.len() == 4);
    assert(tag != "pong"@);
}

/// Shape of the frame head for one tag.
proof fn lemma_lit_error()
    ensures
        "{\"type\":\"error\",\"message\":"@ =~= "{\"type\":\""@ + "error"@ + seq!['\"'] + ",\"message\":"@,
        esc("error"@) == "error"@,
{
    reveal_strlit("{\"type\":\"error\",\"message\":");
    reveal_strlit("{\"type\":\"");
    reveal_strlit("error");
    reveal_strlit(",\"message\":");
    lemma_esc_id("error"@);
}

/// Field-chain round trip for one frame kind.
#[verifier::rlimit(100)]
proof fn lemma_rtf_error(message: String)
    ensures
        ({
            let fin = "}"@;
            let l1 = ",\"message\":"@;
            dec_error_fields(l1 + enc_str(message@) + fin) == Some(MsgModel::Error { message: message@ })
        }),
{
    reveal(dec_error_fields);
    let fin = "}"@;
    let l1 = ",\"message\":"@;
    let r0 = l1 + enc_str(message@) + fin;
    let q1 = enc_str(message@) + fin;
    assert(r0 =~= l1 + q1);
    lemma_expects_concat(l1, q1);
    let w1 = fin;
    assert(q1 =~= enc_str(message@) + w1);
    lemma_p_str_enc(message@, w1);
    assert(p_end(fin)) by {
        reveal_strlit("}");
    }
}

/// Round trip for one frame kind.
#[verifier::rlimit(100)]
proof fn lemma_rt_error(msg: WsMessage)
    requires
        msg is Error,
    ensures
        dec(enc(msg@)) == Some(msg@),
{
    match msg {
        WsMessage::Error { message } => {
            reveal(dec_error_fields);
            let tp = "{\"type\":\""@;
            let tg = "error"@;
            let fin = "}"@;
            lemma_lit_error();
            let l1 = ",\"message\":"@;
            let r0 = l1 + enc_str(message@) + fin;
            let x = esc(tg) + seq!['\"'] + r0;
            assert(enc(msg@) =~= (tp + tg + seq!['\"'] + l1) + (enc_str(message@) + fin));
            assert(enc(msg@) =~= tp + x);
            lemma_expects_concat(tp, x);
            lemma_p_str_body_esc(tg, r0);
            lemma_rtf_error(message);
            assert(dec_error_fields(r0) == Some(msg@));
            lemma_sel_error(tg, r0);
            assert(dec_tagged(tg, r0) == Some(msg@));
            assert(dec(enc(msg@)) == Some(msg@));
        },
        _ => {},
    }
}

/// Decode the fields of one frame kind.
fn d_error(s: &str, pos: usize) -> (r: Option<WsMessage>)
    requires
        pos <= s@.len(),
    ensures
        r matches Some(m) ==> dec_error_fields(suffix(s@, pos as int)) == Some(m@),
        r is None ==> dec_error_fields(suffix(s@, pos as int)) is None,
{
    proof {
        reveal(dec_error_fields);
    }
    let p1 = match eat_lit(s, pos, ",\"message\":") {
        Some(p) => p,
        None => {
            return None;
        },
    };
    let (message, p2) = match eat_string(s, p1) {
        Some(v) => v,
        None => {
            return None;
        },
    };
    if eat_end(s, p2) {
        Some(WsMessage::Error { message })
    } else {
        None
    }
}

/// A parsed string body is strictly shorter than its input.
proof fn lemma_p_str_body_shrinks(s: Seq<char>)
    ensures
        p_str_body(s) matches Some(v) ==> v.1.len() < s.len(),
    decreases s.len(),
{
    if s.len() > 0 && s[0] != '"' {
        if s[0] == '\\' {
            if s.len() >= 2 {
                lemma_p_str_body_shrinks(s.subrange(2, s.len() as int));
            }
        } else {
            lemma_p_str_body_shrinks(s.drop_first());
        }
    }
}

/// A parsed quoted string leaves a strictly shorter rest.
proof fn lemma_p_string_shrinks(s: Seq<char>)
    ensures
        p_string(s) matches Some(v) ==> v.1.len() < s.len(),
{
    if expects(s, seq!['"']) {
        lemma_p_str_body_shrinks(after(s, seq!['"']));
    }
}

/// A text has between zero and all of its characters as leading
/// digits.
proof fn lemma_num_digits_le_len(s: Seq<char>)
    ensures
        0 <= num_digits(s) <= s.len(),
    decreases s.len(),
{
    if s.len() > 0 && digit_val(s[0]) >= 0 {
        lemma_num_digits_le_len(s.drop_first());
    }
}

/// A parsed number leaves a strictly shorter rest.
proof fn lemma_p_nat_u64_shrinks(s: Seq<char>)
    ensures
        p_nat_u64(s) matches Some(v) ==> v.1.len() < s.len(),
{
    lemma_num_digits_le_len(s);
}

/// A parsed signed number leaves a strictly shorter rest.
proof fn lemma_p_int_i64_shrinks(s: Seq<char>)
    ensures
        p_int_i64(s) matches Some(v) ==> v.1.len() < s.len(),
{
    if s.len() > 0 && s[0] == '-' {
        lemma_p_nat_u64_shrinks(s.drop_first());
    } else {
        lemma_p_nat_u64_shrinks(s);
    }
}

/// A parsed boolean leaves a strictly shorter rest.
proof fn lemma_p_bool_shrinks(s: Seq<char>)
    ensures
        p_bool(s) matches Some(v) ==> v.1.len() < s.len(),
{
    reveal_strlit("true");
    reveal_strlit("false");
}

/// One participant entry of a snapshot's array, parsed back.
pub open spec fn p_participant(s: Seq<char>) -> Option<(PartModel, Seq<char>)> {
    if !expects(s, "{\"user_id\":"@) {
        None
    } else {
        match p_int_i64(after(s, "{\"user_id\":"@)) {
            None => None,
            Some((user_id, r1)) => if !expects(r1, ",\"username\":"@) {
                None
            } else {
                match p_string(after(r1, ",\"username\":"@)) {
                    None => None,
                    Some((username, r2)) => if !expects(r2, ",\"thumb\":"@) {
                        None
                    } else {
                        match p_string(after(r2, ",\"thumb\":"@)) {
                            None => None,
                            Some((thumb, r3)) => if !expects(r3, ",\"is_host\":"@) {
                                None
                            } else {
                                match p_bool(after(r3, ",\"is_host\":"@)) {
                                    None => None,
                                    Some((is_host, r4)) => if expects(r4, "}"@) {
                                        Some(
                                            (
                                                PartModel { user_id, username, thumb, is_host },
                                                after(r4, "}"@),
                                            ),
                                        )
                                    } else {
                                        None
                                    },
                                }
                            },
                        }
                    },
                }
            },
        }
    }
}

/// A parsed participant leaves a strictly shorter rest.
proof fn lemma_p_participant_shrinks(s: Seq<char>)
    ensures
        p_participant(s) matches Some(v) ==> v.1.len() < s.len(),
{
    reveal_strlit("{\"user_id\":");
    reveal_strlit(",\"username\":");
    reveal_strlit(",\"thumb\":");
    reveal_strlit(",\"is_host\":");
    reveal_strlit("}");
    if expects(s, "{\"user_id\":"@) {
        lemma_p_int_i64_shrinks(after(s, "{\"user_id\":"@));
        match p_int_i64(after(s, "{\"user_id\":"@)) {
            Some((u0, r1)) => {
                if expects(r1, ",\"username\":"@) {
                    lemma_p_string_shrinks(after(r1, ",\"username\":"@));
                    match p_string(after(r1, ",\"username\":"@)) {
                        Some((n0, r2)) => {
                            if expects(r2, ",\"thumb\":"@) {
                                lemma_p_string_shrinks(after(r2, ",\"thumb\":"@));
                                match p_string(after(r2, ",\"thumb\":"@)) {
                                    Some((t0, r3)) => {
                                        if expects(r3, ",\"is_host\":"@) {
                                            lemma_p_bool_shrinks(
                                                after(r3, ",\"is_host\":"@),
                                            );
                                        }
                                    },
                                    None => {},
                                }
                            }
                        },
                        None => {},
                    }
                }
            },
            None => {},
        }
    }
}

/// The comma-separated items of a participants array, up to the
/// closing bracket.
pub open spec fn p_part_items(s: Seq<char>) -> Option<(Seq<PartModel>, Seq<char>)>
    decreases s.len()
    via p_part_items_dec
{
    match p_participant(s) {
        None => None,
        Some((p, r)) => if expects(r, ","@) {
            match p_part_items(after(r, ","@)) {
                None => None,
                Some((ps, r2)) => Some((seq![p] + ps, r2)),
            }
        } else if expects(r, "]"@) {
            Some((seq![p], after(r, "]"@)))
        } else {
            None
        },
    }
}

#[via_fn]
proof fn p_part_items_dec(s: Seq<char>) {
    lemma_p_participant_shrinks(s);
    reveal_strlit(",");
}

/// A participants array.
pub open spec fn p_part_array(s: Seq<char>) -> Option<(Seq<PartModel>, Seq<char>)> {
    if !expects(s, "["@) {
        None
    } else {
        let r = after(s, "["@);
        if expects(r, "]"@) {
            Some((Seq::empty(), after(r, "]"@)))
        } else {
            p_part_items(r)
        }
    }
}

/// The comma-separated items of a string array, up to the closing
/// bracket.
pub open spec fn p_string_items(s: Seq<char>) -> Option<(Seq<Seq<char>>, Seq<char>)>
    decreases s.len()
    via p_string_items_dec
{
    match p_string(s) {
        None => None,
        Some((v, r)) => if expects(r, ","@) {
            match p_string_items(after(r, ","@)) {
                None => None,
                Some((vs, r2)) => Some((seq![v] + vs, r2)),
            }
        } else if expects(r, "]"@) {
            Some((seq![v], after(r, "]"@)))
        } else {
            None
        },
    }
}

#[via_fn]
proof fn p_string_items_dec(s: Seq<char>) {
    lemma_p_string_shrinks(s);
    reveal_strlit(",");
}

/// A string array.
pub open spec fn p_string_array(s: Seq<char>) -> Option<(Seq<Seq<char>>, Seq<char>)> {
    if !expects(s, "["@) {
        None
    } else {
        let r = after(s, "["@);
        if expects(r, "]"@) {
            Some((Seq::empty(), after(r, "]"@)))
        } else {
            p_string_items(r)
        }
    }
}

/// Decode the fields of a room state snapshot frame.
#[verifier::opaque]
pub open spec fn dec_room_state_fields(r: Seq<char>) -> Option<MsgModel> {
    if !expects(r, ",\"media_id\":"@) {
        None
    } else {
        match p_string(after(r, ",\"media_id\":"@)) {
            None => None,
            Some((media_id, r1)) => if !expects(r1, ",\"media_title\":"@) {
                None
            } else {
                match p_opt_string(after(r1, ",\"media_title\":"@)) {
                    None => None,
                    Some((media_title, r2)) => if !expects(r2, ",\"position_ms\":"@) {
                        None
                    } else {
                        match p_nat_u64(after(r2, ",\"position_ms\":"@)) {
                            None => None,
                            Some((position_ms, r3)) => if !expects(r3, ",\"is_paused\":"@) {
                                None
                            } else {
                                match p_bool(after(r3, ",\"is_paused\":"@)) {
                                    None => None,
                                    Some((is_paused, r4)) => if !expects(
                                        r4,
                                        ",\"participants\":"@,
                                    ) {
                                        None
                                    } else {
                                        match p_part_array(after(r4, ",\"participants\":"@)) {
                                            None => None,
                                            Some((participants, r5)) => if !expects(
                                                r5,
                                                ",\"episode_queue\":"@,
                                            ) {
                                                None
                                            } else {
                                                match p_string_array(
                                                    after(r5, ",\"episode_queue\":"@),
                                                ) {
                                                    None => None,
                                                    Some((episode_queue, r6)) => if p_end(r6) {
                                                        Some(
                                                            MsgModel::RoomStateSnapshot {
                                                                media_id,
                                                                media_title,
                                                                position_ms,
                                                                is_paused,
                                                                participants,
                                                                episode_queue,
                                                            },
                                                        )
                                                    } else {
                                                        None
                                                    },
                                                }
                                            },
                                        }
                                    },
                                }
                            },
                        }
                    },
                }
            },
        }
    }
}

/// Parsing an encoded participant entry recovers it, whatever follows.
#[verifier::rlimit(100)]
proof fn lemma_p_participant_enc(p: PartModel, rest: Seq<char>)
    ensures
        p_participant(enc_participant(p) + rest) == Some((p, rest)),
{
    reveal_strlit("{\"user_id\":");
    reveal_strlit(",\"username\":");
    reveal_strlit(",\"thumb\":");
    reveal_strlit(",\"is_host\":");
    reveal_strlit("}");
    reveal_strlit("true");
    reveal_strlit("false");
    let l1 = "{\"user_id\":"@;
    let l2 = ",\"username\":"@;
    let l3 = ",\"thumb\":"@;
    let l4 = ",\"is_host\":"@;
    let fin = "}"@;
    let s = enc_participant(p) + rest;
    let q1 = print_i64(p.user_id) + l2 + enc_str(p.username) + l3 + enc_str(p.thumb) + l4
        + enc_bool(p.is_host) + fin + rest;
    assert(s =~= l1 + q1);
    lemma_expects_concat(l1, q1);
    let w1 = l2 + enc_str(p.username) + l3 + enc_str(p.thumb) + l4 + enc_bool(p.is_host) + fin
        + rest;
    assert(q1 =~= print_i64(p.user_id) + w1);
    assert(w1[0] == ',');
    lemma_p_int_i64_print(p.user_id, w1);
    let q2 = enc_str(p.username) + l3 + enc_str(p.thumb) + l4 + enc_bool(p.is_host) + fin + rest;
    assert(w1 =~= l2 + q2);
    lemma_expects_concat(l2, q2);
    let w2 = l3 + enc_str(p.thumb) + l4 + enc_bool(p.is_host) + fin + rest;
    assert(q2 =~= enc_str(p.username) + w2);
    lemma_p_str_enc(p.username, w2);
    let q3 = enc_str(p.thumb) + l4 + enc_bool(p.is_host) + fin + rest;
    assert(w2 =~= l3 + q3);
    lemma_expects_concat(l3, q3);
    let w3 = l4 + enc_bool(p.is_host) + fin + rest;
    assert(q3 =~= enc_str(p.thumb) + w3);
    lemma_p_str_enc(p.thumb, w3);
    let q4 = enc_bool(p.is_host) + fin + rest;
    assert(w3 =~= l4 + q4);
    lemma_expects_concat(l4, q4);
    let w4 = fin + rest;
    if p.is_host {
        assert(q4 =~= "true"@ + w4);
        lemma_expects_concat("true"@, w4);
    } else {
        assert(q4 =~= "false"@ + w4);
        lemma_expects_concat("false"@, w4);
        assert(q4[0] == 'f');
        assert(!expects(q4, "true"@));
    }
    lemma_expects_concat(fin, rest);
    assert(w4 =~= fin + rest);
}

/// Parsing the encoded items of a nonempty participants array
/// recovers them.
#[verifier::rlimit(100)]
#[verifier::spinoff_prover]
proof fn lemma_p_part_items_enc(ps: Seq<PartModel>, rest: Seq<char>)
    requires
        ps.len() >= 1,
    ensures
        p_part_items(join_commas(enc_parts(ps)) + "]"@ + rest) == Some((ps, rest)),
    decreases ps.len(),
{
    reveal_strlit(",");
    reveal_strlit("]");
    reveal_strlit("{\"user_id\":");
    let elems = enc_parts(ps);
    assert(elems[0] == enc_participant(ps[0]));
    let s = join_commas(elems) + "]"@ + rest;
    if ps.len() == 1 {
        assert(join_commas(elems) == elems[0]);
        let r1 = "]"@ + rest;
        assert(s =~= enc_participant(ps[0]) + r1);
        lemma_p_participant_enc(ps[0], r1);
        assert(r1[0] == ']');
        assert(!expects(r1, ","@)) by {
            assert(","@.len() == 1);
            assert(","@[0] == ',');
            if expects(r1, ","@) {
                assert(r1.subrange(0, 1)[0] == r1[0]);
            }
        }
        lemma_expects_concat("]"@, rest);
        assert(seq![ps[0]] =~= ps);
    } else {
        assert(elems.drop_first() =~= enc_parts(ps.drop_first()));
        assert(join_commas(elems) == elems[0] + seq![','] + join_commas(elems.drop_first()));
        let tail = join_commas(enc_parts(ps.drop_first())) + "]"@ + rest;
        let r1 = ","@ + tail;
        assert(","@ =~= seq![',']);
        assert(s =~= enc_participant(ps[0]) + r1);
        lemma_p_participant_enc(ps[0], r1);
        lemma_expects_concat(","@, tail);
        lemma_p_part_items_enc(ps.drop_first(), rest);
        assert(seq![ps[0]] + ps.drop_first() =~= ps);
    }
}

/// Parsing an encoded participants array recovers it.
proof fn lemma_p_part_array_enc(ps: Seq<PartModel>, rest: Seq<char>)
    ensures
        p_part_array(enc_array(enc_parts(ps)) + rest) == Some((ps, rest)),
{
    reveal_strlit("[");
    reveal_strlit("]");
    reveal_strlit("[]");
    reveal_strlit("{\"user_id\":");
    let elems = enc_parts(ps);
    let s = enc_array(elems) + rest;
    if ps.len() == 0 {
        assert(enc_array(elems) == "[]"@);
        assert(s[0] == '[');
        assert(s.subrange(0, 1) =~= "["@);
        assert(expects(s, "["@));
        assert(after(s, "["@) =~= "]"@ + rest);
        lemma_expects_concat("]"@, rest);
        assert(Seq::<PartModel>::empty() =~= ps);
    } else {
        lemma_enc_array_join(elems);
        let body = join_commas(elems) + "]"@ + rest;
        assert(s =~= "["@ + body);
        lemma_expects_concat("["@, body);
        assert(elems[0] == enc_participant(ps[0]));
        assert(enc_participant(ps[0])[0] == '{');
        assert(join_commas(elems).len() >= 1) by {
            if ps.len() == 1 {
                assert(join_commas(elems) == elems[0]);
            }
        }
        assert(join_commas(elems)[0] == elems[0][0]) by {
            if ps.len() == 1 {
                assert(join_commas(elems) == elems[0]);
            } else {
                assert(join_commas(elems) == elems[0] + seq![','] + join_commas(
                    elems.drop_first(),
                ));
            }
        }
        assert(body[0] == '{');
        assert(!expects(body, "]"@)) by {
            assert("]"@.len() == 1);
            assert("]"@[0] == ']');
            if expects(body, "]"@) {
                assert(body.subrange(0, 1)[0] == body[0]);
            }
        }
        lemma_p_part_items_enc(ps, rest);
    }
}

/// Parsing the encoded items of a nonempty string array recovers them.
#[verifier::rlimit(100)]
#[verifier::spinoff_prover]
proof fn lemma_p_string_items_enc(ss: Seq<Seq<char>>, rest: Seq<char>)
    requires
        ss.len() >= 1,
    ensures
        p_string_items(join_commas(enc_strs(ss)) + "]"@ + rest) == Some((ss, rest)),
    decreases ss.len(),
{
    reveal_strlit(",");
    reveal_strlit("]");
    let elems = enc_strs(ss);
    assert(elems[0] == enc_str(ss[0]));
    let s = join_commas(elems) + "]"@ + rest;
    if ss.len() == 1 {
        assert(join_commas(elems) == elems[0]);
        let r1 = "]"@ + rest;
        assert(s =~= enc_str(ss[0]) + r1);
        lemma_p_str_enc(ss[0], r1);
        assert(r1[0] == ']');
        assert(!expects(r1, ","@)) by {
            assert(","@.len() == 1);
            assert(","@[0] == ',');
            if expects(r1, ","@) {
                assert(r1.subrange(0, 1)[0] == r1[0]);
            }
        }
        lemma_expects_concat("]"@, rest);
        assert(seq![ss[0]] =~= ss);
    } else {
        assert(elems.drop_first() =~= enc_strs(ss.drop_first()));
        assert(join_commas(elems) == elems[0] + seq![','] + join_commas(elems.drop_first()));
        let tail = join_commas(enc_strs(ss.drop_first())) + "]"@ + rest;
        let r1 = ","@ + tail;
        assert(","@ =~= seq![',']);
        assert(s =~= enc_str(ss[0]) + r1);
        lemma_p_str_enc(ss[0], r1);
        lemma_expects_concat(","@, tail);
        lemma_p_string_items_enc(ss.drop_first(), rest);
        assert(seq![ss[0]] + ss.drop_first() =~= ss);
    }
}

/// Parsing an encoded string array recovers it.
proof fn lemma_p_string_array_enc(ss: Seq<Seq<char>>, rest: Seq<char>)
    ensures
        p_string_array(enc_array(enc_strs(ss)) + rest) == Some((ss, rest)),
{
    reveal_strlit("[");
    reveal_strlit("]");
    reveal_strlit("[]");
    let elems = enc_strs(ss);
    let s = enc_array(elems) + rest;
    if ss.len() == 0 {
        assert(enc_array(elems) == "[]"@);
        assert(s[0] == '[');
        assert(s.subrange(0, 1) =~= "["@);
        assert(expects(s, "["@));
        assert(after(s, "["@) =~= "]"@ + rest);
        lemma_expects_concat("]"@, rest);
        assert(Seq::<Seq<char>>::empty() =~= ss);
    } else {
        lemma_enc_array_join(elems);
        let body = join_commas(elems) + "]"@ + rest;
        assert(s =~= "["@ + body);
        lemma_expects_concat("["@, body);
        assert(elems[0] == enc_str(ss[0]));
        assert(enc_str(ss[0])[0] == '"');
        assert(join_commas(elems)[0] == elems[0][0]) by {
            if ss.len() == 1 {
                assert(join_commas(elems) == elems[0]);
            } else {
                assert(join_commas(elems) == elems[0] + seq![','] + join_commas(
                    elems.drop_first(),
                ));
            }
        }
        assert(body[0] == '"');
        assert(!expects(body, "]"@)) by {
            assert("]"@.len() == 1);
            assert("]"@[0] == ']');
            if expects(body, "]"@) {
                assert(body.subrange(0, 1)[0] == body[0]);
            }
        }
        lemma_p_string_items_enc(ss, rest);
    }
}

/// The dispatch picks the branch of this tag.
#[verifier::rlimit(100)]
proof fn lemma_sel_room_state(tag: Seq<char>, r: Seq<char>)
    requires
        tag == "room_state"@,
    ensures
        dec_tagged(tag, r) == dec_room_state_fields(r),
{
    reveal_strlit("room_state");
    reveal_strlit("all_ready");
    reveal_strlit("buffering");
    reveal_strlit("chat");
    reveal_strlit("error");
    reveal_strlit("heartbeat");
    reveal_strlit("join");
    reveal_strlit("kicked");
    reveal_strlit("leave");
    reveal_strlit("media_change");
    reveal_strlit("navigate");
    reveal_strlit("next_episode");
    reveal_strlit("pause");
    reveal_strlit("ping");
    reveal_strlit("play");
    reveal_strlit("pong");
    reveal_strlit("queue_add");
    reveal_strlit("queue_remove");
    reveal_strlit("ready");
    reveal_strlit("room_closed");
    reveal_strlit("seek");
    reveal_strlit("sync_ack");
    reveal_strlit("sync_request");
    reveal_strlit("sync_response");
    assert("room_state"@.len() == 10);
    assert("play"@.len() == 4);
    assert(tag != "play"@);
    assert("pause"@.len() == 5);
    assert(tag != "pause"@);
    assert("seek"@.len() == 4);
    assert(tag != "seek"@);
    assert("sync_request"@.len() == 12);
    assert(tag != "sync_request"@);
    assert("sync_response"@.len() == 13);
    assert(tag != "sync_response"@);
    assert("media_change"@.len() == 12);
    assert(tag != "media_change"@);
    assert("next_episode"@.len() == 12);
    assert(tag != "next_episode"@);
    assert("queue_add"@.len() == 9);
    assert(tag != "queue_add"@);
    assert("queue_remove"@.len() == 12);
    assert(tag != "queue_remove"@);
    assert("chat"@.len() == 4);
    assert(tag != "chat"@);
    assert("navigate"@.len() == 8);
    assert(tag != "navigate"@);
    assert("buffering"@.len() == 9);
    assert(tag != "buffering"@);
    assert("ready"@.len() == 5);
    assert(tag != "ready"@);
    assert("sync_ack"@.len() == 8);
    assert(tag != "sync_ack"@);
    assert("ping"@.len() == 4);
    assert(tag != "ping"@);
    assert("heartbeat"@.len() == 9);
    assert(tag != "heartbeat"@);
    assert("join"@.len() == 4);
    assert(tag != "join"@);
    assert("leave"@.len() == 5);
    assert(tag != "leave"@);
    assert("kicked"@.len() == 6);
    assert(tag != "kicked"@);
    assert("room_closed"@.len() == 11);
    assert(tag != "room_closed"@);
    assert("all_ready"@.len() == 9);
    assert(tag != "all_ready"@);
    assert("pong"@.len() == 4);
    assert(tag != "pong"@);
    assert("error"@.len() == 5);
    assert(tag != "error"@);
}

/// Shape of the frame head for one tag.
proof fn lemma_lit_room_state()
    ensures
        "{\"type\":\"room_state\",\"media_id\":"@ =~= "{\"type\":\""@ + "room_state"@ + seq!['\"'] + ",\"media_id\":"@,
        esc("room_state"@) == "room_state"@,
{
    reveal_strlit("{\"type\":\"room_state\",\"media_id\":");
    reveal_strlit("{\"type\":\"");
    reveal_strlit("room_state");
    reveal_strlit(",\"media_id\":");
    lemma_esc_id("room_state"@);
}

/// Field-chain round trip for the room state snapshot frame.
#[verifier::rlimit(100)]
#[verifier::spinoff_prover]
proof fn lemma_rtf_room_state(
    media_id: String,
    media_title: Option<String>,
    position_ms: u64,
    is_paused: bool,
    participants: Vec<ParticipantInfo>,
    episode_queue: Vec<String>,
)
    ensures
        ({
            let fin = "}"@;
            let l1 = ",\"media_id\":"@;
            let l2 = ",\"media_title\":"@;
            let l3 = ",\"position_ms\":"@;
            let l4 = ",\"is_paused\":"@;
            let l5 = ",\"participants\":"@;
            let l6 = ",\"episode_queue\":"@;
            let pm = participants@.map(|i: int, p: ParticipantInfo| p@);
            let eq = episode_queue.deep_view();
            let w5 = l6 + (enc_array(enc_strs(eq)) + fin);
            let w4 = l5 + (enc_array(enc_parts(pm)) + w5);
            let w3 = l4 + (enc_bool(is_paused) + w4);
            let w2 = l3 + (print_u64(position_ms) + w3);
            let w1 = l2 + (enc_opt_str(media_title.deep_view()) + w2);
            let r0 = l1 + (enc_str(media_id@) + w1);
            dec_room_state_fields(r0) == Some(
                MsgModel::RoomStateSnapshot {
                    media_id: media_id@,
                    media_title: media_title.deep_view(),
                    position_ms,
                    is_paused,
                    participants: pm,
                    episode_queue: eq,
                },
            )
        }),
{
    reveal(dec_room_state_fields);
    let fin = "}"@;
    let l1 = ",\"media_id\":"@;
    let l2 = ",\"media_title\":"@;
    let l3 = ",\"position_ms\":"@;
    let l4 = ",\"is_paused\":"@;
    let l5 = ",\"participants\":"@;
    let l6 = ",\"episode_queue\":"@;
    let pm = participants@.map(|i: int, p: ParticipantInfo| p@);
    let eq = episode_queue.deep_view();
    let t6 = enc_array(enc_strs(eq)) + fin;
    let w5 = l6 + t6;
    let q5 = enc_array(enc_parts(pm)) + w5;
    let w4 = l5 + q5;
    let q4 = enc_bool(is_paused) + w4;
    let w3 = l4 + q4;
    let q3 = print_u64(position_ms) + w3;
    let w2 = l3 + q3;
    let q2 = enc_opt_str(media_title.deep_view()) + w2;
    let w1 = l2 + q2;
    let q1 = enc_str(media_id@) + w1;
    let r0 = l1 + q1;
    lemma_expects_concat(l1, q1);
    lemma_p_str_enc(media_id@, w1);
    lemma_expects_concat(l2, q2);
    match &media_title {
        Some(t) => {
            reveal_strlit("null");
            assert(media_title.deep_view() == Some(t@));
            assert(enc_opt_str(media_title.deep_view()) == enc_str(t@));
            assert(q2 =~= enc_str(t@) + w2);
            assert(!expects(q2, "null"@)) by {
                assert(q2[0] == '\"');
                assert("null"@[0] == 'n');
            }
            lemma_p_str_enc(t@, w2);
        },
        None => {
            reveal_strlit("null");
            assert(media_title.deep_view() is None);
            assert(enc_opt_str(media_title.deep_view()) == "null"@);
            assert(q2 =~= "null"@ + w2);
            lemma_expects_concat("null"@, w2);
        },
    }
    lemma_expects_concat(l3, q3);
    assert(w3[0] == ',') by {
        reveal_strlit(",\"is_paused\":");
    }
    lemma_p_nat_u64_print(position_ms, w3);
    lemma_expects_concat(l4, q4);
    if is_paused {
        assert(q4 =~= "true"@ + w4);
        lemma_expects_concat("true"@, w4);
    } else {
        assert(q4 =~= "false"@ + w4);
        lemma_expects_concat("false"@, w4);
        assert(!expects(q4, "true"@)) by {
            reveal_strlit("true");
            reveal_strlit("false");
            assert(q4[0] == 'f');
        }
    }
    lemma_expects_concat(l5, q5);
    lemma_p_part_array_enc(pm, w5);
    lemma_expects_concat(l6, t6);
    lemma_p_string_array_enc(eq, fin);
    assert(p_end(fin)) by {
        reveal_strlit("}");
    }
}

/// Round trip for the room state snapshot frame.
#[verifier::rlimit(100)]
#[verifier::spinoff_prover]
proof fn lemma_rt_room_state(msg: WsMessage)
    requires
        msg is RoomStateSnapshot,
    ensures
        dec(enc(msg@)) == Some(msg@),
{
    match msg {
        WsMessage::RoomStateSnapshot {
            media_id,
            media_title,
            position_ms,
            is_paused,
            participants,
            episode_queue,
        } => {
            reveal(dec_room_state_fields);
            let tp = "{\"type\":\""@;
            let tg = "room_state"@;
            let fin = "}"@;
            lemma_lit_room_state();
            let l1 = ",\"media_id\":"@;
            let l2 = ",\"media_title\":"@;
            let l3 = ",\"position_ms\":"@;
            let l4 = ",\"is_paused\":"@;
            let l5 = ",\"participants\":"@;
            let l6 = ",\"episode_queue\":"@;
            let pm = participants@.map(|i: int, p: ParticipantInfo| p@);
            let eq = episode_queue.deep_view();
            let pa = enc_array(enc_parts(pm));
            let sa = enc_array(enc_strs(eq));
            let w5 = l6 + (sa + fin);
            let w4 = l5 + (pa + w5);
            let w3 = l4 + (enc_bool(is_paused) + w4);
            let w2 = l3 + (print_u64(position_ms) + w3);
            let w1 = l2 + (enc_opt_str(media_title.deep_view()) + w2);
            let r0 = l1 + (enc_str(media_id@) + w1);
            let x = esc(tg) + seq!['\"'] + r0;
            assert(enc(msg@) =~= (tp + tg + seq!['\"'] + l1) + (enc_str(media_id@) + w1));
            assert(enc(msg@) =~= tp + x);
            lemma_expects_concat(tp, x);
            lemma_p_str_body_esc(tg, r0);
            lemma_rtf_room_state(
                media_id,
                media_title,
                position_ms,
                is_paused,
                participants,
                episode_queue,
            );
            assert(dec_room_state_fields(r0) == Some(msg@));
            lemma_sel_room_state(tg, r0);
            assert(dec_tagged(tg, r0) == Some(msg@));
            assert(dec(enc(msg@)) == Some(msg@));
        },
        _ => {},
    }
}

/// The participant items of a text parse to exactly these entries.
pub open spec fn part_items_are(s: Seq<char>, ps: Seq<PartModel>, rest: Seq<char>) -> bool {
    p_part_items(s) == Some((ps, rest))
}

/// The string items of a text parse to exactly these entries.
pub open spec fn string_items_are(s: Seq<char>, vs: Seq<Seq<char>>, rest: Seq<char>) -> bool {
    p_string_items(s) == Some((vs, rest))
}

/// Consume one participant entry at the cursor.
#[verifier::rlimit(100)]
fn eat_participant(s: &str, pos: usize) -> (r: Option<(ParticipantInfo, usize)>)
    requires
        pos <= s@.len(),
    ensures
        r matches Some(v) ==> p_participant(suffix(s@, pos as int)) == Some(
            (v.0@, suffix(s@, v.1 as int)),
        ) && pos < v.1 <= s@.len(),
        r is None ==> p_participant(suffix(s@, pos as int)) is None,
{
    let p1 = match eat_lit(s, pos, "{\"user_id\":") {
        Some(p) => p,
        None => {
            return None;
        },
    };
    let (user_id, p2) = match eat_int(s, p1) {
        Some(v) => v,
        None => {
            return None;
        },
    };
    let p3 = match eat_lit(s, p2, ",\"username\":") {
        Some(p) => p,
        None => {
            return None;
        },
    };
    let (username, p4) = match eat_string(s, p3) {
        Some(v) => v,
        None => {
            return None;
        },
    };
    let p5 = match eat_lit(s, p4, ",\"thumb\":") {
        Some(p) => p,
        None => {
            return None;
        },
    };
    let (thumb, p6) = match eat_string(s, p5) {
        Some(v) => v,
        None => {
            return None;
        },
    };
    let p7 = match eat_lit(s, p6, ",\"is_host\":") {
        Some(p) => p,
        None => {
            return None;
        },
    };
    let (is_host, p8) = match eat_bool(s, p7) {
        Some(v) => v,
        None => {
            return None;
        },
    };
    let p9 = match eat_lit(s, p8, "}") {
        Some(p) => p,
        None => {
            return None;
        },
    };
    proof {
        reveal_strlit("{\"user_id\":");
        assert(p1 > pos);
    }
    Some((ParticipantInfo { user_id, username, thumb, is_host }, p9))
}

/// Consume a participants array at the cursor.
#[verifier::rlimit(100)]
fn eat_part_array(s: &str, pos: usize) -> (r: Option<(Vec<ParticipantInfo>, usize)>)
    requires
        pos <= s@.len(),
    ensures
        r matches Some(v) ==> p_part_array(suffix(s@, pos as int)) == Some(
            (v.0@.map(|i: int, p: ParticipantInfo| p@), suffix(s@, v.1 as int)),
        ) && pos <= v.1 <= s@.len(),
        r is None ==> p_part_array(suffix(s@, pos as int)) is None,
{
    let n = s.unicode_len();
    let p0 = match eat_lit(s, pos, "[") {
        Some(p) => p,
        None => {
            return None;
        },
    };
    if let Some(p1) = eat_lit(s, p0, "]") {
        let empty: Vec<ParticipantInfo> = Vec::new();
        proof {
            assert(empty@.map(|i: int, p: ParticipantInfo| p@) =~= Seq::<PartModel>::empty());
        }
        return Some((empty, p1));
    }
    let mut acc: Vec<ParticipantInfo> = Vec::new();
    let mut cur: usize = p0;
    loop
        invariant
            p0 <= cur <= n,
            n == s@.len(),
            pos <= p0 <= n,
            forall|ps: Seq<PartModel>, rest: Seq<char>| #[trigger]
                part_items_are(suffix(s@, cur as int), ps, rest) ==> part_items_are(
                    suffix(s@, p0 as int),
                    acc@.map(|i: int, p: ParticipantInfo| p@) + ps,
                    rest,
                ),
            p_part_items(suffix(s@, cur as int)) is None ==> p_part_items(
                suffix(s@, p0 as int),
            ) is None,
            expects(suffix(s@, pos as int), "["@),
            after(suffix(s@, pos as int), "["@) == suffix(s@, p0 as int),
            !expects(suffix(s@, p0 as int), "]"@),
        decreases n - cur,
    {
        let (p, p2) = match eat_participant(s, cur) {
            Some(v) => v,
            None => {
                return None;
            },
        };
        if let Some(p3) = eat_lit(s, p2, ",") {
            let ghost prev = acc@;
            acc.push(p);
            proof {
                assert forall|ps: Seq<PartModel>, rest: Seq<char>| #[trigger]
                    part_items_are(suffix(s@, p3 as int), ps, rest) implies part_items_are(
                    suffix(s@, p0 as int),
                    acc@.map(|i: int, p2g: ParticipantInfo| p2g@) + ps,
                    rest,
                ) by {
                    assert(part_items_are(suffix(s@, cur as int), seq![p@] + ps, rest));
                    assert(part_items_are(
                        suffix(s@, p0 as int),
                        prev.map(|i: int, p2g: ParticipantInfo| p2g@) + (seq![p@] + ps),
                        rest,
                    ));
                    assert(acc@.map(|i: int, p2g: ParticipantInfo| p2g@) + ps =~= prev.map(
                        |i: int, p2g: ParticipantInfo| p2g@,
                    ) + (seq![p@] + ps));
                }
            }
            cur = p3;
        } else if let Some(p3) = eat_lit(s, p2, "]") {
            let ghost prev = acc@;
            acc.push(p);
            proof {
                assert(part_items_are(suffix(s@, cur as int), seq![p@], suffix(s@, p3 as int)));
                assert(part_items_are(
                    suffix(s@, p0 as int),
                    prev.map(|i: int, p2g: ParticipantInfo| p2g@) + seq![p@],
                    suffix(s@, p3 as int),
                ));
                assert(acc@.map(|i: int, p2g: ParticipantInfo| p2g@) =~= prev.map(
                    |i: int, p2g: ParticipantInfo| p2g@,
                ) + seq![p@]);
            }
            return Some((acc, p3));
        } else {
            proof {
                assert(p_part_items(suffix(s@, cur as int)) is None);
            }
            return None;
        }
    }
}

/// Consume a string array at the cursor.
#[verifier::rlimit(100)]
fn eat_str_array(s: &str, pos: usize) -> (r: Option<(Vec<String>, usize)>)
    requires
        pos <= s@.len(),
    ensures
        r matches Some(v) ==> p_string_array(suffix(s@, pos as int)) == Some(
            (v.0.deep_view(), suffix(s@, v.1 as int)),
        ) && pos <= v.1 <= s@.len(),
        r is None ==> p_string_array(suffix(s@, pos as int)) is None,
{
    let n = s.unicode_len();
    let p0 = match eat_lit(s, pos, "[") {
        Some(p) => p,
        None => {
            return None;
        },
    };
    if let Some(p1) = eat_lit(s, p0, "]") {
        let empty: Vec<String> = Vec::new();
        proof {
            assert(empty.deep_view() =~= Seq::<Seq<char>>::empty());
        }
        return Some((empty, p1));
    }
    let mut acc: Vec<String> = Vec::new();
    let mut cur: usize = p0;
    loop
        invariant
            p0 <= cur <= n,
            n == s@.len(),
            pos <= p0 <= n,
            forall|vs: Seq<Seq<char>>, rest: Seq<char>| #[trigger]
                string_items_are(suffix(s@, cur as int), vs, rest) ==> string_items_are(
                    suffix(s@, p0 as int),
                    acc.deep_view() + vs,
                    rest,
                ),
            p_string_items(suffix(s@, cur as int)) is None ==> p_string_items(
                suffix(s@, p0 as int),
            ) is None,
            expects(suffix(s@, pos as int), "["@),
            after(suffix(s@, pos as int), "["@) == suffix(s@, p0 as int),
            !expects(suffix(s@, p0 as int), "]"@),
        decreases n - cur,
    {
        let (v, p2) = match eat_string(s, cur) {
            Some(v) => v,
            None => {
                return None;
            },
        };
        proof {
            lemma_p_string_shrinks(suffix(s@, cur as int));
        }
        if let Some(p3) = eat_lit(s, p2, ",") {
            let ghost prev = acc.deep_view();
            acc.push(v);
            proof {
                assert forall|vs: Seq<Seq<char>>, rest: Seq<char>| #[trigger]
                    string_items_are(suffix(s@, p3 as int), vs, rest) implies string_items_are(
                    suffix(s@, p0 as int),
                    acc.deep_view() + vs,
                    rest,
                ) by {
                    assert(string_items_are(suffix(s@, cur as int), seq![v@] + vs, rest));
                    assert(string_items_are(
                        suffix(s@, p0 as int),
                        prev + (seq![v@] + vs),
                        rest,
                    ));
                    assert(acc.deep_view() + vs =~= prev + (seq![v@] + vs));
                }
            }
            cur = p3;
        } else if let Some(p3) = eat_lit(s, p2, "]") {
            let ghost prev = acc.deep_view();
            acc.push(v);
            proof {
                assert(string_items_are(suffix(s@, cur as int), seq![v@], suffix(s@, p3 as int)));
                assert(string_items_are(
                    suffix(s@, p0 as int),
                    prev + seq![v@],
                    suffix(s@, p3 as int),
                ));
                assert(acc.deep_view() =~= prev + seq![v@]);
            }
            return Some((acc, p3));
        } else {
            proof {
                assert(p_string_items(suffix(s@, cur as int)) is None);
            }
            return None;
        }
    }
}

/// Decode the fields of a room state snapshot frame.
#[verifier::rlimit(100)]
fn d_room_state(s: &str, pos: usize) -> (r: Option<WsMessage>)
    requires
        pos <= s@.len(),
    ensures
        r matches Some(m) ==> dec_room_state_fields(suffix(s@, pos as int)) == Some(m@),
        r is None ==> dec_room_state_fields(suffix(s@, pos as int)) is None,
{
    proof {
        reveal(dec_room_state_fields);
    }
    let p1 = match eat_lit(s, pos, ",\"media_id\":") {
        Some(p) => p,
        None => {
            return None;
        },
    };
    let (media_id, p2) = match eat_string(s, p1) {
        Some(v) => v,
        None => {
            return None;
        },
    };
    let p3 = match eat_lit(s, p2, ",\"media_title\":") {
        Some(p) => p,
        None => {
            return None;
        },
    };
    let (media_title, p4) = match eat_opt_string(s, p3) {
        Some(v) => v,
        None => {
            return None;
        },
    };
    let p5 = match eat_lit(s, p4, ",\"position_ms\":") {
        Some(p) => p,
        None => {
            return None;
        },
    };
    let (position_ms, p6) = match eat_nat(s, p5) {
        Some(v) => v,
        None => {
            return None;
        },
    };
    let p7 = match eat_lit(s, p6, ",\"is_paused\":") {
        Some(p) => p,
        None => {
            return None;
        },
    };
    let (is_paused, p8) = match eat_bool(s, p7) {
        Some(v) => v,
        None => {
            return None;
        },
    };
    let p9 = match eat_lit(s, p8, ",\"participants\":") {
        Some(p) => p,
        None => {
            return None;
        },
    };
    let (participants, p10) = match eat_part_array(s, p9) {
        Some(v) => v,
        None => {
            return None;
        },
    };
    let p11 = match eat_lit(s, p10, ",\"episode_queue\":") {
        Some(p) => p,
        None => {
            return None;
        },
    };
    let (episode_queue, p12) = match eat_str_array(s, p11) {
        Some(v) => v,
        None => {
            return None;
        },
    };
    if eat_end(s, p12) {
        Some(
            WsMessage::RoomStateSnapshot {
                media_id,
                media_title,
                position_ms,
                is_paused,
                participants,
                episode_queue,
            },
        )
    } else {
        None
    }
}

} // verus!
