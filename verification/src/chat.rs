//! Chat: the messages that are stored and sent, the wire format between the
//! browser and the server, and the decisions a WebTransport session makes.

use vstd::prelude::*;
use crate::json::{
    json_escape, json_escaped, json_escaped_reads_back, json_quote, json_string, json_string_read,
};
use crate::text::{
    decimal, decimal_i64, decimal_int, hex_char, html_escape, html_escaped, is_white_space,
    lemma_decimal_digits, parse_reads_back_decimal, trim, trimmed, trimmed_has_no_outer_white_space,
};
use std::collections::HashMap;
use tokio::sync::mpsc::{UnboundedReceiver, UnboundedSender};
use vstd::utf8::{decode_utf8, valid_utf8};

verus! {

/// How many of the most recent chat messages the chat page shows.
pub const RECENT_CHAT_LIMIT: i64 = 100;

/// A stored chat message.
pub struct ChatMessageRow {
    pub id: i64,
    pub body: String,
    pub created_at: String,
}

/// A message as a browser sends it: only its body.
pub struct ClientChatMessage {
    pub body: String,
}

/// The body that an incoming message stores: its text without leading and
/// trailing white space, or nothing when that leaves it empty.
pub open spec fn stored_body(body: Seq<char>) -> Option<Seq<char>> {
    if trimmed(body).len() == 0 {
        None
    } else {
        Some(trimmed(body))
    }
}

/// The body an incoming message would be stored with, or `None` when the
/// message is blank and is dropped without a reply.
pub fn incoming_chat_body(message: &ClientChatMessage) -> (r: Option<&str>)
    ensures
        match r {
            Some(b) => stored_body(message.body@) == Some(b@),
            None => stored_body(message.body@) is None,
        },
{
    let body = trim(message.body.as_str());
    if body.is_empty() {
        None
    } else {
        Some(body)
    }
}

/// The JSON object for a stored message, as `serde_json` writes a struct with
/// the fields `id`, `body` and `created_at` in that order: compact, no spaces.
pub open spec fn chat_message_json_text(id: int, body: Seq<char>, created_at: Seq<char>) -> Seq<
    char,
> {
    "{\"id\":"@ + decimal_int(id) + ",\"body\":"@ + json_string(body) + ",\"created_at\":"@
        + json_string(created_at) + "}"@
}

/// The JSON object a browser sends for a new message: `{"body":...}`.
pub open spec fn chat_payload_text(body: Seq<char>) -> Seq<char> {
    "{\"body\":"@ + json_string(body) + "}"@
}

/// The JSON text that is broadcast to every session for a stored message.
pub fn chat_message_json(message: &ChatMessageRow) -> (s: String)
    ensures
        s@ == chat_message_json_text(message.id as int, message.body@, message.created_at@),
{
    let mut s = String::new();
    s.append("{\"id\":");
    let id = decimal_i64(message.id);
    s.append(id.as_str());
    s.append(",\"body\":");
    let body = json_quote(message.body.as_str());
    s.append(body.as_str());
    s.append(",\"created_at\":");
    let created_at = json_quote(message.created_at.as_str());
    s.append(created_at.as_str());
    s.append("}");
    s
}

/// The JSON text a browser sends to post a message with this body.
pub fn chat_payload(body: &str) -> (s: String)
    ensures
        s@ == chat_payload_text(body@),
{
    let mut s = String::new();
    s.append("{\"body\":");
    let quoted = json_quote(body);
    s.append(quoted.as_str());
    s.append("}");
    s
}

/// What serde_json reads from a broadcast text: parsed into a
/// `serde_json::Value`, its `id` as an `i64` and its `body` and `created_at` as
/// strings, or `None` when the text is not JSON or one of them is missing or of
/// another kind.
pub uninterp spec fn chat_message_fields(text: Seq<char>) -> Option<(i64, Seq<char>, Seq<char>)>;

/// The fields of a message as plain values.
pub open spec fn fields_view(fields: Option<(i64, String, String)>) -> Option<(i64, Seq<char>, Seq<char>)> {
    match fields {
        Some(t) => Some((t.0, t.1@, t.2@)),
        None => None,
    }
}

/// Whether `fields` are what a broadcast text holds whenever the text is the
/// one `chat_message_json_text` writes for some message.
pub open spec fn reads_back_message(text: Seq<char>, fields: Option<(i64, Seq<char>, Seq<char>)>) -> bool {
    forall|id: i64, body: Seq<char>, created_at: Seq<char>|
        text == #[trigger] chat_message_json_text(id as int, body, created_at) ==> fields == Some(
            (id, body, created_at),
        )
}

/// `serde_json::from_str::<serde_json::Value>`, then `as_i64` of its `id` and
/// `as_str` of its `body` and `created_at`. serde_json reads back every escape
/// it writes, so the text `chat_message_json_text` gives for an `i64` id and
/// any two strings yields exactly those.
#[verifier::external_body]
fn message_fields(text: &str) -> (r: Option<(i64, String, String)>)
    ensures
        fields_view(r) == chat_message_fields(text@),
        reads_back_message(text@, fields_view(r)),
{
    let v: serde_json::Value = serde_json::from_str(text).ok()?;
    Some((v["id"].as_i64()?, v["body"].as_str()?.to_string(), v["created_at"].as_str()?.to_string()))
}

/// A message's fields as plain values.
pub open spec fn message_view(message: Option<ChatMessageRow>) -> Option<(i64, Seq<char>, Seq<char>)> {
    match message {
        Some(m) => Some((m.id, m.body@, m.created_at@)),
        None => None,
    }
}

/// The message a browser takes from a broadcast text: its `id`, `body` and
/// `created_at`, or `None` where the text is not such a JSON object. A text the
/// server broadcast for a message reads back as that message.
pub fn received_chat_message(text: &str) -> (r: Option<ChatMessageRow>)
    ensures
        message_view(r) == chat_message_fields(text@),
        reads_back_message(text@, message_view(r)),
{
    match message_fields(text) {
        Some((id, body, created_at)) => Some(ChatMessageRow { id, body, created_at }),
        None => None,
    }
}

/// The list entry the chat page shows for a stored message: its id as a data
/// attribute, then its time and its body, both escaped.
pub open spec fn chat_item_text(id: int, body: Seq<char>, created_at: Seq<char>) -> Seq<char> {
    "<li data-id=\""@ + decimal_int(id) + "\"><time>"@ + html_escaped(created_at) + "</time> "@
        + html_escaped(body) + "</li>"@
}

/// The HTML list entry the chat page shows for a stored message.
pub fn chat_item_html(message: &ChatMessageRow) -> (s: String)
    ensures
        s@ == chat_item_text(message.id as int, message.body@, message.created_at@),
{
    let id = decimal_i64(message.id);
    let created_at = html_escape(message.created_at.as_str());
    let body = html_escape(message.body.as_str());
    let mut s = String::new();
    s.append("<li data-id=\"");
    s.append(id.as_str());
    s.append("\"><time>");
    s.append(created_at.as_str());
    s.append("</time> ");
    s.append(body.as_str());
    s.append("</li>");
    s
}

/// Rows in the opposite order.
pub open spec fn oldest_first_order(rows: Seq<ChatMessageRow>) -> Seq<ChatMessageRow> {
    rows.reverse()
}

/// The rows in the opposite order: the database yields the most recent
/// messages newest first, and the page shows them oldest first.
pub fn oldest_first(rows: Vec<ChatMessageRow>) -> (r: Vec<ChatMessageRow>)
    ensures
        r@ == oldest_first_order(rows@),
{
    let mut rows = rows;
    let ghost given = rows@;
    let mut r: Vec<ChatMessageRow> = Vec::new();
    while rows.len() > 0
        invariant
            rows@ == given.take(rows@.len() as int),
            rows@.len() <= given.len(),
            r@ == given.skip(rows@.len() as int).reverse(),
        decreases rows@.len(),
    {
        let ghost before = rows@;
        let last = rows.pop().unwrap();
        proof {
            assert(rows@ == given.take(rows@.len() as int));
            assert(given.skip(rows@.len() as int) == seq![last] + given.skip(
                before.len() as int,
            ));
        }
        r.push(last);
        proof {
            assert(r@ == given.skip(rows@.len() as int).reverse());
        }
    }
    proof {
        assert(given.skip(0) == given);
    }
    r
}


/// The bytes of all chunks, one after the other.
pub open spec fn concat_chunks(chunks: Seq<Vec<u8>>) -> Seq<u8>
    decreases chunks.len(),
{
    if chunks.len() == 0 {
        seq![]
    } else {
        concat_chunks(chunks.drop_last()) + chunks.last()@
    }
}

/// `String::from_utf8`: the text when the bytes are valid UTF-8.
#[verifier::external_body]
fn utf8_string(bytes: Vec<u8>) -> (r: Option<String>)
    ensures
        r is Some <==> valid_utf8(bytes@),
        r matches Some(s) ==> s@ == decode_utf8(bytes@),
{
    String::from_utf8(bytes).ok()
}

/// The bytes a stream carried, from the chunks read off it in order.
pub fn joined_chunks(chunks: &Vec<Vec<u8>>) -> (bytes: Vec<u8>)
    ensures
        bytes@ == concat_chunks(chunks@),
{
    let mut bytes: Vec<u8> = Vec::new();
    let mut i: usize = 0;
    while i < chunks.len()
        invariant
            i <= chunks@.len(),
            bytes@ == concat_chunks(chunks@.take(i as int)),
        decreases chunks@.len() - i,
    {
        let chunk = &chunks[i];
        let mut j: usize = 0;
        let ghost start = bytes@;
        while j < chunk.len()
            invariant
                j <= chunk@.len(),
                bytes@ == start + chunk@.take(j as int),
            decreases chunk@.len() - j,
        {
            bytes.push(chunk[j]);
            proof {
                assert(chunk@.take(j + 1) == chunk@.take(j as int).push(chunk@[j as int]));
            }
            j = j + 1;
        }
        proof {
            assert(chunk@.take(chunk@.len() as int) == chunk@);
            assert(chunks@.take(i + 1).drop_last() == chunks@.take(i as int));
            assert(chunks@.take(i + 1).last() == chunks@[i as int]);
        }
        i = i + 1;
    }
    proof {
        assert(chunks@.take(chunks@.len() as int) == chunks@);
    }
    bytes
}

/// The text a stream carried, from the chunks read off it in order. The
/// bytes together must be valid UTF-8 (a stream that is not text is refused
/// before this is asked).
pub fn stream_text(chunks: &Vec<Vec<u8>>) -> (s: String)
    requires
        valid_utf8(concat_chunks(chunks@)),
    ensures
        s@ == decode_utf8(concat_chunks(chunks@)),
{
    match utf8_string(joined_chunks(chunks)) {
        Some(text) => text,
        None => String::new(),
    }
}

/// What a WebTransport chat session is told next: a message to pass on to its
/// browser, a stream the browser opened, or that one side has closed or failed.
pub enum SessionEvent {
    /// The hub's channel yielded a payload, or `None` once it is closed.
    Outbound(Option<String>),
    /// The browser opened a bidirectional stream.
    IncomingStream,
    /// The browser's session yielded no further stream, or a request that is
    /// not a bidirectional stream.
    IncomingEnded,
    /// Accepting a stream, or writing a payload out, failed.
    Failed,
}

/// What a chat session does with an event.
pub enum SessionAction {
    /// Open a unidirectional stream, write the payload, and shut it down.
    Deliver(String),
    /// Read the stream to its end, in a task of its own, as a posted message.
    ReadMessage,
    /// Leave the loop, unregister from the hub, and end without error.
    Finish,
    /// End at once with the error, without unregistering.
    Abort,
}

/// The decision a chat session makes on each event of its loop.
pub fn session_step(event: SessionEvent) -> (a: SessionAction)
    ensures
        match event {
            SessionEvent::Outbound(Some(p)) => a == SessionAction::Deliver(p),
            SessionEvent::Outbound(None) => a == SessionAction::Finish,
            SessionEvent::IncomingStream => a == SessionAction::ReadMessage,
            SessionEvent::IncomingEnded => a == SessionAction::Finish,
            SessionEvent::Failed => a == SessionAction::Abort,
        },
{
    match event {
        SessionEvent::Outbound(Some(p)) => SessionAction::Deliver(p),
        SessionEvent::Outbound(None) => SessionAction::Finish,
        SessionEvent::IncomingStream => SessionAction::ReadMessage,
        SessionEvent::IncomingEnded => SessionAction::Finish,
        SessionEvent::Failed => SessionAction::Abort,
    }
}

/// `tokio::sync::mpsc::UnboundedSender`, carried through opaquely.
#[verifier::external_type_specification]
#[verifier::external_body]
#[verifier::reject_recursive_types(T)]
pub struct ExUnboundedSender<T>(UnboundedSender<T>);

/// `tokio::sync::mpsc::UnboundedReceiver`, carried through opaquely.
#[verifier::external_type_specification]
#[verifier::external_body]
#[verifier::reject_recursive_types(T)]
pub struct ExUnboundedReceiver<T>(UnboundedReceiver<T>);

/// The channel a sending end feeds.
pub uninterp spec fn sender_channel(sender: UnboundedSender<String>) -> nat;

/// The channel a receiving end drains.
pub uninterp spec fn receiver_channel(receiver: UnboundedReceiver<String>) -> nat;

/// `tokio::sync::mpsc::unbounded_channel`: the two ends of one new channel
/// (both hold the same shared `Chan`), so what the sender queues the receiver
/// takes. What is queued lives in the channel, out of this library's sight.
#[verifier::external_body]
fn open_channel() -> (r: (UnboundedSender<String>, UnboundedReceiver<String>))
    ensures
        sender_channel(r.0) == receiver_channel(r.1),
{
    tokio::sync::mpsc::unbounded_channel()
}

/// `UnboundedSender::send`: queues the message unless the receiving end has
/// closed. Whether it was queued depends on the receiver, so nothing is stated.
#[verifier::external_body]
fn channel_send(sender: &UnboundedSender<String>, message: String) {
    let _ = sender.send(message);
}

/// The sessions connected to the chat, each with the channel that carries
/// broadcasts to it, and the number the next session will be given.
pub struct ChatHub {
    next_session_id: u64,
    sessions: HashMap<u64, UnboundedSender<String>>,
}

impl ChatHub {
    /// The number the next registered session is given.
    pub closed spec fn next_id(&self) -> u64 {
        self.next_session_id
    }

    /// The numbers of the sessions that are registered.
    pub closed spec fn session_ids(&self) -> Set<u64> {
        self.sessions@.dom()
    }

    /// The channel that carries broadcasts to a registered session.
    pub closed spec fn session_channel(&self, session_id: u64) -> nat {
        sender_channel(self.sessions@[session_id])
    }

    /// A hub with no sessions, whose first session is numbered zero.
    pub fn new() -> (h: ChatHub)
        ensures
            h.next_id() == 0,
            h.session_ids() == Set::<u64>::empty(),
    {
        ChatHub { next_session_id: 0, sessions: HashMap::new() }
    }

    /// Registers a new session under the next number, which then moves on by
    /// one (wrapping as an atomic counter does), and returns that number with
    /// the receiving end of the session's channel; the other sessions keep
    /// their channels.
    pub fn register(&mut self) -> (r: (u64, UnboundedReceiver<String>))
        ensures
            registered(*old(self), *final(self), r.0, receiver_channel(r.1)),
    {
        broadcast use vstd::std_specs::hash::group_hash_axioms;

        let session_id = self.next_session_id;
        self.next_session_id = self.next_session_id.wrapping_add(1);
        let (sender, receiver) = open_channel();
        self.sessions.insert(session_id, sender);
        (session_id, receiver)
    }

    /// Removes a session; the hub no longer sends to it, and the other sessions
    /// keep their channels.
    pub fn unregister(&mut self, session_id: u64)
        ensures
            unregistered(*old(self), *final(self), session_id),
    {
        broadcast use vstd::std_specs::hash::group_hash_axioms;

        self.sessions.remove(&session_id);
    }

    /// What a broadcast of `payload` hands to the sessions' channels: one
    /// pair for each registered session, with its number and the payload.
    pub fn deliveries(&self, payload: &String) -> (r: Vec<(u64, String)>)
        ensures
            delivers_to(r@, self.session_ids(), payload@),
    {
        broadcast use vstd::std_specs::hash::group_hash_axioms;

        let ghost keys: Seq<u64> = vstd::std_specs::iter::IteratorSpec::remaining(&vstd::std_specs::hash::spec_keys_iter(&self.sessions)).unref();
        let mut out: Vec<(u64, String)> = Vec::new();
        for id in it: self.sessions.keys()
            invariant
                keys == it.seq().unref(),
                keys.no_duplicates(),
                keys.to_set() == self.sessions@.dom(),
                out@.len() == it.index(),
                forall|i: int| 0 <= i < it.index() ==> (#[trigger] out@[i]).0 == keys[i],
                forall|i: int| 0 <= i < it.index() ==> (#[trigger] out@[i]).1@ == payload@,
        {
            out.push((*id, payload.clone()));
        }
        proof {
            let ids = out@.map_values(|p: (u64, String)| p.0);
            assert(ids =~= keys);
        }
        out
    }

    /// Sends a copy of the payload to every registered session, as
    /// `deliveries` lists them. A session whose receiving end is gone is
    /// skipped without error. Returns, as a record kept for proofs only, each
    /// send it made: the session's number, the channel the message went into
    /// (that of the session's stored sender), and the message.
    pub fn broadcast(&self, payload: String) -> (sent: Ghost<Seq<(u64, nat, Seq<char>)>>)
        ensures
            sends_to(sent@, *self, payload@),
    {
        broadcast use vstd::std_specs::hash::group_hash_axioms;

        let pairs = self.deliveries(&payload);
        let ghost mut log: Seq<(u64, nat, Seq<char>)> = Seq::empty();
        let mut i: usize = 0;
        while i < pairs.len()
            invariant
                i <= pairs@.len(),
                delivers_to(pairs@, self.session_ids(), payload@),
                log.len() == i,
                forall|k: int|
                    0 <= k < i ==> #[trigger] log[k] == (
                        pairs@[k].0,
                        self.session_channel(pairs@[k].0),
                        payload@,
                    ),
            decreases pairs.len() - i,
        {
            let session_id = pairs[i].0;
            proof {
                let ids = pairs@.map_values(|p: (u64, String)| p.0);
                assert(ids[i as int] == session_id);
                assert(ids.to_set().contains(session_id));
            }
            match self.sessions.get(&session_id) {
                Some(sender) => {
                    let message = pairs[i].1.clone();
                    proof {
                        log = log.push((session_id, sender_channel(*sender), message@));
                    }
                    channel_send(sender, message);
                },
                None => {
                    proof {
                        assert(false);
                    }
                },
            }
            i = i + 1;
        }
        proof {
            let ids = pairs@.map_values(|p: (u64, String)| p.0);
            let sent_ids = log.map_values(|e: (u64, nat, Seq<char>)| e.0);
            assert(sent_ids =~= ids);
        }
        Ghost(log)
    }
}

/// What registering does to a hub: the session is numbered with the hub's
/// next number, which moves on by one (wrapping); the session joins the hub
/// with a channel of its own, `channel`; the other sessions keep their
/// channels.
pub open spec fn registered(before: ChatHub, after: ChatHub, session_id: u64, channel: nat) -> bool {
    &&& session_id == before.next_id()
    &&& after.next_id() == before.next_id().wrapping_add(1)
    &&& after.session_ids() == before.session_ids().insert(session_id)
    &&& after.session_channel(session_id) == channel
    &&& forall|id: u64|
        before.session_ids().contains(id) && id != session_id ==> #[trigger] after.session_channel(id)
            == before.session_channel(id)
}

/// What unregistering does to a hub: the session leaves it, the numbering
/// stays, and the sessions that remain keep their channels.
pub open spec fn unregistered(before: ChatHub, after: ChatHub, session_id: u64) -> bool {
    &&& after.next_id() == before.next_id()
    &&& after.session_ids() == before.session_ids().remove(session_id)
    &&& forall|id: u64|
        #[trigger] after.session_ids().contains(id) ==> after.session_channel(id) == before.session_channel(id)
}

impl Default for ChatHub {
    /// A hub with no sessions, whose first session is numbered zero.
    fn default() -> (h: ChatHub)
        ensures
            h.next_id() == 0,
            h.session_ids() == Set::<u64>::empty(),
    {
        ChatHub::new()
    }
}

/// Law: a stored body is never empty and never begins or ends with white
/// space.
pub proof fn stored_body_is_trimmed(body: Seq<char>)
    ensures
        stored_body(body) matches Some(b) ==> b.len() > 0 && !is_white_space(b[0])
            && !is_white_space(b.last()),
{
    trimmed_has_no_outer_white_space(body);
}

/// Whether `pairs` hands `payload` to each session in `ids` exactly once: the
/// session numbers in the pairs are those of `ids`, none twice, and each pair
/// carries the payload.
pub open spec fn delivers_to(pairs: Seq<(u64, String)>, ids: Set<u64>, payload: Seq<char>) -> bool {
    &&& pairs.map_values(|p: (u64, String)| p.0).no_duplicates()
    &&& pairs.map_values(|p: (u64, String)| p.0).to_set() == ids
    &&& forall|i: int| 0 <= i < pairs.len() ==> (#[trigger] pairs[i]).1@ == payload
}

/// Whether `sent` records one send for each session of `hub`: the session
/// numbers in it are those of the hub, none twice, and each send put `payload`
/// into that session's channel.
pub open spec fn sends_to(sent: Seq<(u64, nat, Seq<char>)>, hub: ChatHub, payload: Seq<char>) -> bool {
    &&& sent.map_values(|e: (u64, nat, Seq<char>)| e.0).no_duplicates()
    &&& sent.map_values(|e: (u64, nat, Seq<char>)| e.0).to_set() == hub.session_ids()
    &&& forall|i: int|
        0 <= i < sent.len() ==> (#[trigger] sent[i]).1 == hub.session_channel(sent[i].0) && sent[i].2
            == payload
}

/// Every session number in `ids` is below `next`: the hub has not yet handed
/// `next` out.
pub open spec fn ids_below(ids: Set<u64>, next: u64) -> bool {
    forall|id: u64| #[trigger] ids.contains(id) ==> id < next
}

/// Law: while numbering has not wrapped around, the number a registration
/// hands out belongs to no session yet, and afterwards every session number is
/// still below the next one.
pub proof fn registration_hands_out_fresh_ids(before: ChatHub, after: ChatHub, session_id: u64, channel: nat)
    requires
        ids_below(before.session_ids(), before.next_id()),
        before.next_id() < u64::MAX,
        registered(before, after, session_id, channel),
    ensures
        !before.session_ids().contains(session_id),
        ids_below(after.session_ids(), after.next_id()),
{
    assert(before.next_id().wrapping_add(1) == before.next_id() + 1);
}

/// The number of registrations among `steps`, each step being (whether it
/// registered, the session number it handed out or removed, the channel).
pub open spec fn registration_count(steps: Seq<(bool, u64, nat)>) -> nat
    decreases steps.len(),
{
    if steps.len() == 0 {
        0
    } else {
        registration_count(steps.drop_last()) + if steps.last().0 {
            1nat
        } else {
            0nat
        }
    }
}

/// Whether `hubs` is the history of a hub under `steps`: step `i` takes
/// `hubs[i]` to `hubs[i + 1]`, by a registration that handed out `steps[i].1`
/// with channel `steps[i].2`, or by unregistering `steps[i].1`.
pub open spec fn hub_history(hubs: Seq<ChatHub>, steps: Seq<(bool, u64, nat)>) -> bool {
    &&& hubs.len() == steps.len() + 1
    &&& forall|i: int|
        0 <= i < steps.len() ==> if (#[trigger] steps[i]).0 {
            registered(hubs[i], hubs[i + 1], steps[i].1, steps[i].2)
        } else {
            unregistered(hubs[i], hubs[i + 1], steps[i].1)
        }
}

proof fn lemma_next_id_counts(hubs: Seq<ChatHub>, steps: Seq<(bool, u64, nat)>, k: int)
    requires
        hub_history(hubs, steps),
        hubs[0].next_id() == 0,
        0 <= k <= steps.len(),
    ensures
        hubs[k].next_id() as int == registration_count(steps.take(k)) % 0x1_0000_0000_0000_0000,
    decreases k,
{
    let m: int = 0x1_0000_0000_0000_0000;
    if k == 0 {
        assert(steps.take(0).len() == 0);
    } else {
        lemma_next_id_counts(hubs, steps, k - 1);
        let c = registration_count(steps.take(k - 1)) as int;
        assert(steps.take(k).drop_last() == steps.take(k - 1));
        assert(steps.take(k).last() == steps[k - 1]);
        if steps[k - 1].0 {
            assert(registered(hubs[k - 1], hubs[k], steps[k - 1].1, steps[k - 1].2));
            vstd::arithmetic::div_mod::lemma_add_mod_noop(c, 1, m);
            vstd::arithmetic::div_mod::lemma_small_mod(1, m as nat);
            let r = c % m;
            if r + 1 < m {
                vstd::arithmetic::div_mod::lemma_small_mod((r + 1) as nat, m as nat);
            } else {
                vstd::arithmetic::div_mod::lemma_mod_self_0(m);
            }
        } else {
            assert(unregistered(hubs[k - 1], hubs[k], steps[k - 1].1));
        }
    }
}

proof fn lemma_count_grows(steps: Seq<(bool, u64, nat)>, a: int, b: int)
    requires
        0 <= a <= b <= steps.len(),
    ensures
        registration_count(steps.take(a)) <= registration_count(steps.take(b)),
        a < b && steps[a].0 ==> registration_count(steps.take(a)) < registration_count(steps.take(b)),
    decreases b - a,
{
    if a < b {
        lemma_count_grows(steps, a, b - 1);
        assert(steps.take(b).drop_last() == steps.take(b - 1));
        assert(steps.take(b).last() == steps[b - 1]);
    }
}

/// Law: a hub that starts as `ChatHub::new()` (or `default()`) hands out the
/// numbers 0, 1, 2, ... in the order of its registrations, whatever
/// unregistrations come between (wrapping after `u64::MAX`); and while fewer
/// than 2^64 registrations have happened, no number is handed out twice.
pub proof fn registrations_are_numbered_in_order(hubs: Seq<ChatHub>, steps: Seq<(bool, u64, nat)>)
    requires
        hub_history(hubs, steps),
        hubs[0].next_id() == 0,
    ensures
        forall|i: int|
            0 <= i < steps.len() && (#[trigger] steps[i]).0 ==> steps[i].1 as int == registration_count(
                steps.take(i),
            ) % 0x1_0000_0000_0000_0000,
        registration_count(steps) <= 0x1_0000_0000_0000_0000 ==> forall|i: int, j: int|
            0 <= i < j < steps.len() && (#[trigger] steps[i]).0 && (#[trigger] steps[j]).0 ==> steps[i].1
                != steps[j].1,
{
    let m: int = 0x1_0000_0000_0000_0000;
    assert forall|i: int|
        0 <= i < steps.len() && (#[trigger] steps[i]).0 implies steps[i].1 as int == (registration_count(
            steps.take(i),
        ) as int) % m by {
        lemma_next_id_counts(hubs, steps, i);
        assert(registered(hubs[i], hubs[i + 1], steps[i].1, steps[i].2));
    }
    if registration_count(steps) <= m {
        assert(steps.take(steps.len() as int) == steps);
        assert forall|i: int, j: int|
            0 <= i < j < steps.len() && (#[trigger] steps[i]).0 && (#[trigger] steps[j]).0 implies steps[i].1
                != steps[j].1 by {
            lemma_count_grows(steps, i, j);
            lemma_count_grows(steps, j, steps.len() as int);
            let ci = registration_count(steps.take(i));
            let cj = registration_count(steps.take(j));
            vstd::arithmetic::div_mod::lemma_small_mod(ci, m as nat);
            vstd::arithmetic::div_mod::lemma_small_mod(cj, m as nat);
        }
    }
}

/// Law: unregistering a session just registered under a number no session
/// had leaves the hub's sessions as they were, each with its channel.
pub proof fn unregister_undoes_register(
    before: ChatHub,
    registered_hub: ChatHub,
    after: ChatHub,
    session_id: u64,
    channel: nat,
)
    requires
        !before.session_ids().contains(session_id),
        registered(before, registered_hub, session_id, channel),
        unregistered(registered_hub, after, session_id),
    ensures
        after.session_ids() == before.session_ids(),
        forall|id: u64| #[trigger] after.session_ids().contains(id) ==> after.session_channel(id)
            == before.session_channel(id),
{
    assert(before.session_ids().insert(session_id).remove(session_id) =~= before.session_ids());
}

/// Law: a broadcast reaches every registered session exactly once, with the
/// payload.
pub proof fn broadcast_reaches_each_session_once(
    hub: ChatHub,
    pairs: Seq<(u64, String)>,
    payload: Seq<char>,
    session_id: u64,
)
    requires
        delivers_to(pairs, hub.session_ids(), payload),
        hub.session_ids().contains(session_id),
    ensures
        exists|i: int| 0 <= i < pairs.len() && #[trigger] pairs[i].0 == session_id,
        forall|i: int, j: int|
            0 <= i < pairs.len() && 0 <= j < pairs.len() && #[trigger] pairs[i].0 == session_id
                && #[trigger] pairs[j].0 == session_id ==> i == j,
        forall|i: int| 0 <= i < pairs.len() && #[trigger] pairs[i].0 == session_id ==> pairs[i].1@ == payload,
{
    let ids = pairs.map_values(|p: (u64, String)| p.0);
    assert(ids.to_set().contains(session_id));
    assert(ids.contains(session_id));
    let k = choose|k: int| 0 <= k < ids.len() && ids[k] == session_id;
    assert(pairs[k].0 == session_id);
    assert forall|i: int, j: int|
        0 <= i < pairs.len() && 0 <= j < pairs.len() && #[trigger] pairs[i].0 == session_id
            && #[trigger] pairs[j].0 == session_id implies i == j by {
        assert(ids[i] == ids[j]);
    }
}

/// Law: a broadcast puts the payload into the channel of every registered
/// session exactly once: for each session there is one send, and it went into
/// that session's own channel with the payload.
pub proof fn broadcast_sends_once_into_each_channel(
    hub: ChatHub,
    sent: Seq<(u64, nat, Seq<char>)>,
    payload: Seq<char>,
    session_id: u64,
)
    requires
        sends_to(sent, hub, payload),
        hub.session_ids().contains(session_id),
    ensures
        exists|i: int|
            0 <= i < sent.len() && #[trigger] sent[i].0 == session_id && sent[i].1 == hub.session_channel(
                session_id,
            ) && sent[i].2 == payload,
        forall|i: int, j: int|
            0 <= i < sent.len() && 0 <= j < sent.len() && #[trigger] sent[i].0 == session_id
                && #[trigger] sent[j].0 == session_id ==> i == j,
{
    let ids = sent.map_values(|e: (u64, nat, Seq<char>)| e.0);
    assert(ids.to_set().contains(session_id));
    assert(ids.contains(session_id));
    let k = choose|k: int| 0 <= k < ids.len() && ids[k] == session_id;
    assert(sent[k].0 == session_id);
    assert forall|i: int, j: int|
        0 <= i < sent.len() && 0 <= j < sent.len() && #[trigger] sent[i].0 == session_id
            && #[trigger] sent[j].0 == session_id implies i == j by {
        assert(ids[i] == ids[j]);
    }
}

/// Law: the receiving end that `register` hands out gets every later
/// broadcast: a broadcast on the hub puts the payload into that receiver's
/// channel.
pub proof fn registered_receiver_gets_broadcast(
    before: ChatHub,
    hub: ChatHub,
    session_id: u64,
    channel: nat,
    sent: Seq<(u64, nat, Seq<char>)>,
    payload: Seq<char>,
)
    requires
        registered(before, hub, session_id, channel),
        sends_to(sent, hub, payload),
    ensures
        exists|i: int| 0 <= i < sent.len() && #[trigger] sent[i].1 == channel && sent[i].2 == payload,
{
    broadcast_sends_once_into_each_channel(hub, sent, payload, session_id);
    let i = choose|i: int|
        0 <= i < sent.len() && #[trigger] sent[i].0 == session_id && sent[i].1 == hub.session_channel(
            session_id,
        ) && sent[i].2 == payload;
    assert(sent[i].1 == channel);
}

/// Law: a broadcast sends nothing for a session that was unregistered.
pub proof fn broadcast_skips_unregistered_session(
    before: ChatHub,
    after: ChatHub,
    session_id: u64,
    sent: Seq<(u64, nat, Seq<char>)>,
    payload: Seq<char>,
)
    requires
        unregistered(before, after, session_id),
        sends_to(sent, after, payload),
    ensures
        forall|i: int| 0 <= i < sent.len() ==> #[trigger] sent[i].0 != session_id,
{
    let ids = sent.map_values(|e: (u64, nat, Seq<char>)| e.0);
    assert forall|i: int| 0 <= i < sent.len() implies #[trigger] sent[i].0 != session_id by {
        assert(ids[i] == sent[i].0);
        assert(ids.to_set().contains(ids[i]));
    }
}

/// Law: once a session is unregistered, later broadcasts hand it nothing.
pub proof fn unregistered_session_gets_no_broadcast(
    before: ChatHub,
    after: ChatHub,
    session_id: u64,
    pairs: Seq<(u64, String)>,
    payload: Seq<char>,
)
    requires
        unregistered(before, after, session_id),
        delivers_to(pairs, after.session_ids(), payload),
    ensures
        forall|i: int| 0 <= i < pairs.len() ==> #[trigger] pairs[i].0 != session_id,
{
    let ids = pairs.map_values(|p: (u64, String)| p.0);
    assert forall|i: int| 0 <= i < pairs.len() implies #[trigger] pairs[i].0 != session_id by {
        assert(ids[i] == pairs[i].0);
        assert(ids.to_set().contains(ids[i]));
    }
}

/// Law: `oldest_first` keeps every row whole (its id, body and time stay
/// together) and only reverses their order: the row at position `i` of the
/// result is the row at position `len - 1 - i` of the input.
pub proof fn oldest_first_keeps_rows_whole(rows: Seq<ChatMessageRow>)
    ensures
        oldest_first_order(rows).len() == rows.len(),
        forall|i: int|
            0 <= i < rows.len() ==> #[trigger] oldest_first_order(rows)[i] == rows[rows.len() - 1 - i],
        oldest_first_order(rows).to_multiset() == rows.to_multiset(),
{
    rows.lemma_reverse_to_multiset();
}

/// Law: a JSON reader takes back from a browser's payload exactly the body it
/// was written for: the payload opens with `{"body":"`, reading the string
/// from there gives the whole body, and after its closing quote only `}`
/// remains.
pub proof fn payload_reads_back_body(body: Seq<char>)
    ensures
        ({
            let t = chat_payload_text(body);
            let open = "{\"body\":\""@;
            &&& open.len() <= t.len()
            &&& t.subrange(0, open.len() as int) == open
            &&& json_string_read(t.subrange(open.len() as int, t.len() as int)) matches Some((b, k))
                && b == body && open.len() + k <= t.len() && t.subrange(open.len() + k, t.len() as int)
                == "\"}"@
        }),
{
    reveal_strlit("{\"body\":");
    reveal_strlit("{\"body\":\"");
    reveal_strlit("}");
    reveal_strlit("\"}");
    let t = chat_payload_text(body);
    let open = "{\"body\":\""@;
    let e = json_escaped(body);
    assert(t =~= open + (e + seq!['"'] + seq!['}']));
    assert(t.subrange(0, open.len() as int) =~= open);
    assert(t.subrange(open.len() as int, t.len() as int) =~= e + seq!['"'] + seq!['}']);
    json_escaped_reads_back(body, seq!['}']);
    assert(t.subrange(open.len() as int + e.len() as int, t.len() as int) =~= "\"}"@);
}

/// Law: different bodies give different payloads.
pub proof fn payload_is_injective(a: Seq<char>, b: Seq<char>)
    requires
        chat_payload_text(a) == chat_payload_text(b),
    ensures
        a == b,
{
    payload_reads_back_body(a);
    payload_reads_back_body(b);
}

/// Law: a JSON reader takes back from a broadcast text the whole message it
/// was written for: after `{"id":`, the id in decimal and `,"body":"`, reading
/// the string gives the whole body; then `","created_at":"` follows, reading
/// the next string gives the whole time, and only `"}` remains.
pub proof fn message_json_reads_back(id: int, body: Seq<char>, created_at: Seq<char>)
    ensures
        ({
            let t = chat_message_json_text(id, body, created_at);
            let head = "{\"id\":"@ + decimal_int(id) + ",\"body\":\""@;
            let mid = "\",\"created_at\":\""@;
            &&& head.len() <= t.len()
            &&& t.subrange(0, head.len() as int) == head
            &&& json_string_read(t.subrange(head.len() as int, t.len() as int)) matches Some((b, k))
                && b == body && head.len() + k + mid.len() <= t.len() && t.subrange(
                head.len() + k,
                head.len() + k + mid.len(),
            ) == mid && (json_string_read(t.subrange(head.len() + k + mid.len(), t.len() as int))
                matches Some((c, k2)) && c == created_at && head.len() + k + mid.len() + k2 <= t.len()
                && t.subrange(head.len() + k + mid.len() + k2, t.len() as int) == "\"}"@)
        }),
{
    reveal_strlit(",\"body\":");
    reveal_strlit(",\"body\":\"");
    reveal_strlit(",\"created_at\":");
    reveal_strlit(",\"created_at\":\"");
    reveal_strlit("\",\"created_at\":\"");
    reveal_strlit("}");
    reveal_strlit("\"}");
    let t = chat_message_json_text(id, body, created_at);
    let head = "{\"id\":"@ + decimal_int(id) + ",\"body\":\""@;
    let mid = "\",\"created_at\":\""@;
    let mid2 = ",\"created_at\":\""@;
    let e1 = json_escaped(body);
    let e2 = json_escaped(created_at);
    assert(t =~= head + (e1 + seq!['"'] + (mid2 + (e2 + seq!['"'] + seq!['}']))));
    assert(t.subrange(0, head.len() as int) =~= head);
    assert(t.subrange(head.len() as int, t.len() as int) =~= e1 + seq!['"'] + (mid2 + (e2 + seq!['"']
        + seq!['}'])));
    json_escaped_reads_back(body, mid2 + (e2 + seq!['"'] + seq!['}']));
    let a: int = head.len() as int + e1.len() as int;
    assert(t.subrange(a, a + mid.len() as int) =~= mid);
    assert(t.subrange(a + mid.len() as int, t.len() as int) =~= e2 + seq!['"'] + seq!['}']);
    json_escaped_reads_back(created_at, seq!['}']);
    assert(t.subrange(a + mid.len() as int + e2.len() as int, t.len() as int) =~= "\"}"@);
}

/// Law: different messages give different broadcast texts: the text fixes the
/// id, the body and the time.
pub proof fn message_json_is_injective(
    id1: i64,
    body1: Seq<char>,
    created_at1: Seq<char>,
    id2: i64,
    body2: Seq<char>,
    created_at2: Seq<char>,
)
    requires
        chat_message_json_text(id1 as int, body1, created_at1) == chat_message_json_text(
            id2 as int,
            body2,
            created_at2,
        ),
    ensures
        id1 == id2,
        body1 == body2,
        created_at1 == created_at2,
{
    reveal_strlit("{\"id\":");
    reveal_strlit(",\"body\":\"");
    let t = chat_message_json_text(id1 as int, body1, created_at1);
    let d1 = decimal_int(id1 as int);
    let d2 = decimal_int(id2 as int);
    lemma_decimal_has_no_comma(id1 as int);
    lemma_decimal_has_no_comma(id2 as int);
    message_json_reads_back(id1 as int, body1, created_at1);
    message_json_reads_back(id2 as int, body2, created_at2);
    let h1 = "{\"id\":"@ + d1 + ",\"body\":\""@;
    let h2 = "{\"id\":"@ + d2 + ",\"body\":\""@;
    // the id ends at the first comma after `{"id":`
    assert(t.subrange(0, h1.len() as int) == h1);
    assert(t.subrange(0, h2.len() as int) == h2);
    if d1.len() < d2.len() {
        assert(h1[6 + d1.len() as int] == ',');
        assert(h2[6 + d1.len() as int] == d2[d1.len() as int]);
        assert(t[6 + d1.len() as int] == h1[6 + d1.len() as int]);
        assert(t[6 + d1.len() as int] == h2[6 + d1.len() as int]);
        assert(false);
    }
    if d2.len() < d1.len() {
        assert(h2[6 + d2.len() as int] == ',');
        assert(h1[6 + d2.len() as int] == d1[d2.len() as int]);
        assert(t[6 + d2.len() as int] == h1[6 + d2.len() as int]);
        assert(t[6 + d2.len() as int] == h2[6 + d2.len() as int]);
        assert(false);
    }
    assert(h1 =~= h2);
    assert(d1 =~= h1.subrange(6, 6 + d1.len() as int));
    assert(d2 =~= h2.subrange(6, 6 + d2.len() as int));
    parse_reads_back_decimal(id1);
    parse_reads_back_decimal(id2);
}

proof fn lemma_decimal_has_no_comma(v: int)
    ensures
        forall|k: int| 0 <= k < decimal_int(v).len() ==> #[trigger] decimal_int(v)[k] != ',',
{
    if v < 0 {
        lemma_decimal_digits((-v) as nat);
        assert forall|k: int| 0 <= k < decimal_int(v).len() implies #[trigger] decimal_int(v)[k] != ',' by {
            if k > 0 {
                assert(decimal_int(v)[k] == decimal((-v) as nat)[k - 1]);
            }
        }
    } else {
        lemma_decimal_digits(v as nat);
    }
}

/// Law: putting rows oldest first twice gives them back in their first order.
pub proof fn oldest_first_twice(rows: Seq<ChatMessageRow>)
    ensures
        oldest_first_order(oldest_first_order(rows)) == rows,
{
    assert(rows.reverse().reverse() =~= rows);
}

/// Law: rows that come newest first (ids falling) come out of `oldest_first`
/// oldest first (ids rising).
pub proof fn reversed_rows_rise(rows: Seq<ChatMessageRow>)
    requires
        forall|i: int, j: int| 0 <= i < j < rows.len() ==> rows[i].id > rows[j].id,
    ensures
        forall|i: int, j: int|
            0 <= i < j < rows.len() ==> oldest_first_order(rows)[i].id < oldest_first_order(rows)[j].id,
{
    assert forall|i: int, j: int| 0 <= i < j < rows.len() implies oldest_first_order(rows)[i].id
        < oldest_first_order(rows)[j].id by {
        assert(rows.reverse()[i] == rows[rows.len() - 1 - i]);
        assert(rows.reverse()[j] == rows[rows.len() - 1 - j]);
    }
}

proof fn lemma_escape_is_printable(c: char)
    ensures
        forall|k: int| 0 <= k < json_escape(c).len() ==> (#[trigger] json_escape(c)[k] as u32) >= 0x20,
{
    let u = c as u32;
    if u < 0x20 && !(u == 0x8 || u == 0xc || u == 0xa || u == 0xd || u == 0x9) {
        let hi = (u / 16) as int;
        let lo = (u % 16) as int;
        assert(hex_char(hi) as u32 >= 0x30);
        assert(hex_char(lo) as u32 >= 0x30);
    }
}

/// Law: the body of a JSON string literal as written never holds a raw
/// control character, so every framed message is valid JSON text.
pub proof fn escaped_text_has_no_control_characters(s: Seq<char>)
    ensures
        forall|k: int| 0 <= k < json_escaped(s).len() ==> (#[trigger] json_escaped(s)[k] as u32) >= 0x20,
    decreases s.len(),
{
    if s.len() > 0 {
        escaped_text_has_no_control_characters(s.drop_last());
        lemma_escape_is_printable(s.last());
        let a = json_escaped(s.drop_last());
        let b = json_escape(s.last());
        assert forall|k: int| 0 <= k < json_escaped(s).len() implies (#[trigger] json_escaped(
            s,
        )[k] as u32) >= 0x20 by {
            if k < a.len() {
                assert(json_escaped(s)[k] == a[k]);
            } else {
                assert(json_escaped(s)[k] == b[k - a.len()]);
            }
        }
    }
}

} // verus!
