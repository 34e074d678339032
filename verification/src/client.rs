//! The session: what the client answers to each datagram, which counter
//! each answer carries, and how it leaves.

use vstd::prelude::*;
use crate::client_info::{spec_parse_all, spec_views, ClientInfo, ClientInfoView};
use crate::message::{
    lemma_round_trip,
    spec_envelope,
    spec_parse,
    Message,
    MessageView,
    ParseError,
    MAX_DATA_LEN,
};
use crate::protocol::{
    ack_payload,
    audio_halves,
    channel_info,
    chat_text,
    jitter_buffer_size,
    network_properties,
    spec_ack_payload,
    spec_audio_halves,
    spec_channel_info,
    spec_chat_text,
    spec_jitter_buffer_size,
    spec_network_properties,
    spec_unmute,
    unmute,
    FIRST_UNACKNOWLEDGED_ID,
    ID_ACK,
    ID_CHANNEL_GAIN,
    ID_CHANNEL_INFO,
    ID_CHAT_TEXT,
    ID_CLIENT_ID,
    ID_CLIENT_LIST,
    ID_DISCONNECT,
    ID_JITTER_BUFFER_SIZE,
    ID_NETWORK_PROPERTIES,
    ID_REQUEST_CHANNEL_INFO,
    ID_REQUEST_JITTER_BUFFER_SIZE,
    ID_REQUEST_NETWORK_PROPERTIES,
};
use crate::silence::{spec_after, spec_silent_packet, SilentOpusStream};
use crate::text::PayloadError;
use crate::wire::push_all;

verus! {

/// Where audio and chat go. The session hands over every Opus frame with
/// its sequence number and every line of chat, and asks nothing back.
///
/// A handler says in its own words what taking a frame or a line does to
/// it; the session's contracts repeat those words for everything it hands
/// over, and so say what was handed over, in which order.
pub trait Handler: Sized {
    /// Whether `self` is what `before` may be after taking this frame.
    /// A handler that says nothing of itself admits everything.
    open spec fn took_opus_packet(&self, before: &Self, packet: Seq<u8>, sequence_number: u8)
        -> bool {
        true
    }

    /// Whether `self` is what `before` may be after taking this line.
    /// A handler that says nothing of itself admits everything.
    open spec fn took_chat_text(&self, before: &Self, text: Seq<char>) -> bool {
        true
    }

    /// Takes one Opus frame.
    fn handle_opus_packet(&mut self, packet: &[u8], sequence_number: u8)
        ensures
            final(self).took_opus_packet(old(self), packet@, sequence_number),
    ;

    /// Takes one line of chat.
    fn handle_chat_text(&mut self, text: &str)
        ensures
            final(self).took_chat_text(old(self), text@),
    ;
}

/// The handler that lets everything pass unheard.
pub struct Discard;

impl Handler for Discard {
    fn handle_opus_packet(&mut self, _packet: &[u8], _sequence_number: u8) {
    }

    fn handle_chat_text(&mut self, _text: &str) {
    }
}

/// What the host tells the session.
pub enum Event<'a> {
    /// A datagram arrived.
    Datagram(&'a [u8]),
    /// A tenth of a second has passed.
    Tick,
    /// The session is to end.
    Shutdown,
}

/// What kept the session from reading the payload of a control message.
/// Such a message is acknowledged like any other; nothing else comes of it.
#[derive(Debug, PartialEq, Eq)]
pub enum Fault {
    /// The text of a chat message could not be read.
    Chat(PayloadError),
    /// The client list could not be read.
    ClientList(PayloadError),
}

/// What a datagram turned out to be.
#[derive(Debug, PartialEq, Eq)]
pub enum PacketKind {
    /// A control message, handled.
    Control,
    /// A control message whose payload could not be read: it was
    /// acknowledged, and that is all.
    Malformed(Fault),
    /// An audio datagram: both halves went to the handler.
    Audio,
    /// Neither: dropped.
    Unknown,
}

/// The session of one client.
pub struct JamulusClient<H: Handler> {
    name: String,
    next_counter_id: u8,
    handler: H,
    shutting_down: bool,
    channel_id: Option<u8>,
    silence: SilentOpusStream,
}

/// What a session is, as plain values: the display name, the counter of the
/// next message it originates, whether it is leaving, the channel the server
/// gave it, and the sequence number of the next silent half.
pub struct ClientView {
    pub name: Seq<char>,
    pub next_counter: u8,
    pub shutting_down: bool,
    pub channel_id: Option<u8>,
    pub silence: u8,
}

/// A session that has just started under `name`.
pub open spec fn spec_started(name: Seq<char>) -> ClientView {
    ClientView { name, next_counter: 1, shutting_down: false, channel_id: None, silence: 0 }
}

/// The counter `count` originated messages after `counter`.
pub open spec fn spec_advance(counter: u8, count: nat) -> u8 {
    ((counter + count) % 256) as u8
}

/// The datagram of an originated message, if its data fits an envelope.
pub open spec fn spec_originate(id: u16, counter: u8, data: Seq<u8>) -> Seq<Seq<u8>> {
    if data.len() <= MAX_DATA_LEN {
        seq![spec_envelope(MessageView { id, counter, data })]
    } else {
        seq![]
    }
}

/// One request per listed client to hear it at unit gain, each under its
/// own counter, in the order of the list.
pub open spec fn spec_unmute_all(clients: Seq<ClientInfoView>, counter: u8) -> Seq<Seq<u8>> {
    Seq::new(
        clients.len(),
        |at: int|
            spec_envelope(
                MessageView {
                    id: ID_CHANNEL_GAIN,
                    counter: spec_advance(counter, at as nat),
                    data: spec_unmute(clients[at].channel_id),
                },
            ),
    )
}

/// The messages the client originates in answer to `msg`, as datagrams.
pub open spec fn spec_replies(name: Seq<char>, counter: u8, msg: MessageView) -> Seq<Seq<u8>> {
    if msg.id == ID_REQUEST_JITTER_BUFFER_SIZE {
        spec_originate(ID_JITTER_BUFFER_SIZE, counter, spec_jitter_buffer_size())
    } else if msg.id == ID_REQUEST_NETWORK_PROPERTIES {
        spec_originate(ID_NETWORK_PROPERTIES, counter, spec_network_properties())
    } else if msg.id == ID_REQUEST_CHANNEL_INFO {
        spec_originate(ID_CHANNEL_INFO, counter, spec_channel_info(name))
    } else if msg.id == ID_CLIENT_LIST {
        match spec_parse_all(msg.data) {
            Ok(clients) => spec_unmute_all(clients, counter),
            Err(_) => seq![],
        }
    } else {
        seq![]
    }
}

/// How many counters the answer to `msg` uses up.
pub open spec fn spec_consumed(msg: MessageView) -> nat {
    if msg.id == ID_REQUEST_JITTER_BUFFER_SIZE || msg.id == ID_REQUEST_NETWORK_PROPERTIES || msg.id
        == ID_REQUEST_CHANNEL_INFO {
        1
    } else if msg.id == ID_CLIENT_LIST {
        match spec_parse_all(msg.data) {
            Ok(clients) => clients.len(),
            Err(_) => 0,
        }
    } else {
        0
    }
}

/// Whether `id` is acknowledged: every id below 1000 but that of the
/// acknowledgement itself.
pub open spec fn spec_acknowledged(id: u16) -> bool {
    id != ID_ACK && id < FIRST_UNACKNOWLEDGED_ID
}

/// The acknowledgement of `msg`: id 1, the counter of `msg` echoed, its id
/// as data. Nothing where the id is not acknowledged.
pub open spec fn spec_ack(msg: MessageView) -> Seq<Seq<u8>> {
    if spec_acknowledged(msg.id) {
        seq![
            spec_envelope(
                MessageView { id: ID_ACK, counter: msg.counter, data: spec_ack_payload(msg.id) },
            ),
        ]
    } else {
        seq![]
    }
}

/// The channel the session knows after `msg`.
pub open spec fn spec_channel_after(channel_id: Option<u8>, msg: MessageView) -> Option<u8> {
    if msg.id == ID_CLIENT_ID && msg.data.len() >= 1 {
        Some(msg.data[0])
    } else {
        channel_id
    }
}

/// Handling one control message: the session afterwards and the datagrams
/// to send, answers first and the acknowledgement last. A message whose
/// payload cannot be read is answered by its acknowledgement alone.
pub open spec fn spec_handle_message(state: ClientView, msg: MessageView) -> (
    ClientView,
    Seq<Seq<u8>>,
) {
    (
        ClientView {
            name: state.name,
            next_counter: spec_advance(state.next_counter, spec_consumed(msg)),
            shutting_down: state.shutting_down,
            channel_id: spec_channel_after(state.channel_id, msg),
            silence: state.silence,
        },
        spec_replies(state.name, state.next_counter, msg) + spec_ack(msg),
    )
}

/// What is wrong with the client list that `msg` carries, if it is one and
/// cannot be read.
pub open spec fn spec_list_fault(msg: MessageView) -> Option<Fault> {
    if msg.id == ID_CLIENT_LIST && spec_parse_all(msg.data) is Err {
        Some(Fault::ClientList(spec_parse_all(msg.data)->Err_0))
    } else {
        None
    }
}

/// What is wrong with the payload of `msg`: a chat text or a client list
/// that cannot be read.
pub open spec fn spec_fault(msg: MessageView) -> Option<Fault> {
    if msg.id == ID_CHAT_TEXT && spec_chat_text(msg.data) is Err {
        Some(Fault::Chat(spec_chat_text(msg.data)->Err_0))
    } else {
        spec_list_fault(msg)
    }
}

/// What a datagram is: a control message if it reads as an envelope, else
/// audio if it is 332 bytes long, else nothing.
pub open spec fn spec_classify(payload: Seq<u8>) -> PacketKind {
    match spec_parse(payload) {
        Ok((msg, _)) => match spec_fault(msg) {
            Some(fault) => PacketKind::Malformed(fault),
            None => PacketKind::Control,
        },
        Err(_) => {
            if spec_audio_halves(payload) is Some {
                PacketKind::Audio
            } else {
                PacketKind::Unknown
            }
        },
    }
}

/// Handling one datagram: the session afterwards and the datagrams to send.
/// Only a control message changes the session or sends.
pub open spec fn spec_handle_packet(state: ClientView, payload: Seq<u8>) -> (
    ClientView,
    Seq<Seq<u8>>,
) {
    match spec_parse(payload) {
        Ok((msg, _)) => spec_handle_message(state, msg),
        Err(_) => (state, seq![]),
    }
}

/// The disconnect message under `counter`: id 1010, no data.
pub open spec fn spec_disconnect(counter: u8) -> Seq<u8> {
    spec_envelope(MessageView { id: ID_DISCONNECT, counter, data: seq![] })
}

/// One step of the session: the session afterwards and the datagrams to
/// send. A session that is leaving does nothing more.
pub open spec fn spec_step(state: ClientView, event: Event) -> (ClientView, Seq<Seq<u8>>) {
    if state.shutting_down {
        (state, seq![])
    } else {
        match event {
            Event::Datagram(payload) => spec_handle_packet(state, payload@),
            Event::Tick => (
                ClientView {
                    name: state.name,
                    next_counter: state.next_counter,
                    shutting_down: state.shutting_down,
                    channel_id: state.channel_id,
                    silence: spec_after(spec_after(state.silence)),
                },
                seq![spec_silent_packet(state.silence)],
            ),
            Event::Shutdown => (
                ClientView {
                    name: state.name,
                    next_counter: spec_advance(state.next_counter, 1),
                    shutting_down: true,
                    channel_id: state.channel_id,
                    silence: state.silence,
                },
                seq![spec_disconnect(state.next_counter)],
            ),
        }
    }
}

/// The acknowledgement rule: a message whose id is acknowledged is
/// answered last of all by an acknowledgement that echoes its counter and
/// carries its id, whatever its payload; a message whose id is not
/// acknowledged is answered by nothing at all. The session's own counter
/// moves on by the number of answers before the acknowledgement, never by
/// the acknowledgement.
pub proof fn lemma_acknowledgement_rule(state: ClientView, msg: MessageView)
    ensures
        ({
            let after = spec_handle_message(state, msg).0;
            let sends = spec_handle_message(state, msg).1;
            let echo = MessageView {
                id: ID_ACK,
                counter: msg.counter,
                data: spec_ack_payload(msg.id),
            };
            &&& spec_acknowledged(msg.id) ==> sends.len() >= 1 && sends.last() == spec_envelope(
                echo,
            ) && spec_reads_as(sends.last(), echo)
            &&& !spec_acknowledged(msg.id) ==> sends.len() == 0
            &&& after.next_counter == spec_advance(state.next_counter, spec_consumed(msg))
        }),
{
    reveal(spec_reads_as);
    let echo = MessageView { id: ID_ACK, counter: msg.counter, data: spec_ack_payload(msg.id) };
    lemma_round_trip(echo);
}

/// A message whose payload cannot be read leaves the session as it is and
/// is answered by its acknowledgement alone.
pub proof fn lemma_fault_is_acknowledged(state: ClientView, msg: MessageView)
    requires
        spec_fault(msg) is Some,
    ensures
        spec_handle_message(state, msg) == (
            state,
            seq![
                spec_envelope(
                    MessageView {
                        id: ID_ACK,
                        counter: msg.counter,
                        data: spec_ack_payload(msg.id),
                    },
                ),
            ],
        ),
{
    let reaction = spec_handle_message(state, msg);
    assert(spec_replies(state.name, state.next_counter, msg) =~= seq![]);
    assert(reaction.1 =~= spec_ack(msg));
    assert(reaction.0 == state);
}

/// The answer to a request for the network properties: the nineteen fixed
/// bytes under id 20 and the session's counter, then the acknowledgement
/// under the counter of the request. Neither depends on the data of the
/// request or on the name of the session, and the session's counter moves on
/// by one.
pub proof fn lemma_network_properties_answer(state: ClientView, msg: MessageView)
    requires
        msg.id == ID_REQUEST_NETWORK_PROPERTIES,
    ensures
        spec_network_properties().len() == 19,
        spec_handle_message(state, msg).1 == seq![
            spec_envelope(
                MessageView {
                    id: ID_NETWORK_PROPERTIES,
                    counter: state.next_counter,
                    data: spec_network_properties(),
                },
            ),
            spec_envelope(
                MessageView { id: ID_ACK, counter: msg.counter, data: spec_ack_payload(msg.id) },
            ),
        ],
        spec_handle_message(state, msg).0 == (ClientView {
            next_counter: spec_advance(state.next_counter, 1),
            ..state
        }),
{
    assert(spec_network_properties().len() == 19);
    let sends = spec_handle_message(state, msg).1;
    assert(sends =~= seq![
        spec_envelope(
            MessageView {
                id: ID_NETWORK_PROPERTIES,
                counter: state.next_counter,
                data: spec_network_properties(),
            },
        ),
        spec_envelope(
            MessageView { id: ID_ACK, counter: msg.counter, data: spec_ack_payload(msg.id) },
        ),
    ]);
}

/// The answer to a client list that reads: one request per listed client
/// to hear it at unit gain, in the order of the list, each under its own
/// counter counting up from the session's, and then the acknowledgement. The
/// session's counter moves on by the number of clients.
pub proof fn lemma_client_list_answer(state: ClientView, msg: MessageView, at: int)
    requires
        msg.id == ID_CLIENT_LIST,
        spec_parse_all(msg.data) is Ok,
        0 <= at < spec_parse_all(msg.data)->Ok_0.len(),
    ensures
        ({
            let clients = spec_parse_all(msg.data)->Ok_0;
            let after = spec_handle_message(state, msg).0;
            let sends = spec_handle_message(state, msg).1;
            &&& sends.len() == clients.len() + 1
            &&& sends[at] == spec_envelope(
                MessageView {
                    id: ID_CHANNEL_GAIN,
                    counter: spec_advance(state.next_counter, at as nat),
                    data: spec_unmute(clients[at].channel_id),
                },
            )
            &&& spec_unmute(clients[at].channel_id) == seq![clients[at].channel_id, 0x00u8, 0x80u8]
            &&& sends.last() == spec_envelope(
                MessageView { id: ID_ACK, counter: msg.counter, data: spec_ack_payload(msg.id) },
            )
            &&& after == (ClientView {
                next_counter: spec_advance(state.next_counter, clients.len()),
                ..state
            })
        }),
{
    let clients = spec_parse_all(msg.data)->Ok_0;
    assert(spec_unmute(clients[at].channel_id) =~= seq![clients[at].channel_id, 0x00u8, 0x80u8]);
}

/// What `datagram` reads as is `msg` and nothing more.
#[verifier::opaque]
pub open spec fn spec_reads_as(datagram: Seq<u8>, msg: MessageView) -> bool {
    spec_parse(datagram) == Ok::<(MessageView, Seq<u8>), ParseError>((msg, Seq::empty()))
}

/// An originated message that fits an envelope reads back under the
/// counter it was given.
proof fn lemma_originated_reads_back(id: u16, counter: u8, data: Seq<u8>)
    requires
        data.len() <= MAX_DATA_LEN,
    ensures
        spec_originate(id, counter, data).len() == 1,
        spec_reads_as(spec_originate(id, counter, data)[0], MessageView { id, counter, data }),
{
    reveal(spec_reads_as);
    lemma_round_trip(MessageView { id, counter, data });
}

/// Every request to unmute reads back under its own counter.
proof fn lemma_unmute_reads_back(clients: Seq<ClientInfoView>, counter: u8, at: int)
    requires
        0 <= at < clients.len(),
    ensures
        spec_reads_as(
            spec_unmute_all(clients, counter)[at],
            MessageView {
                id: ID_CHANNEL_GAIN,
                counter: spec_advance(counter, at as nat),
                data: spec_unmute(clients[at].channel_id),
            },
        ),
{
    reveal(spec_reads_as);
    let data = spec_unmute(clients[at].channel_id);
    assert(data.len() == 3);
    lemma_round_trip(
        MessageView { id: ID_CHANNEL_GAIN, counter: spec_advance(counter, at as nat), data },
    );
}

/// The message that answer number `at` to `msg` carries.
pub open spec fn spec_answer(name: Seq<char>, counter: u8, msg: MessageView, at: int)
    -> MessageView {
    if msg.id == ID_REQUEST_JITTER_BUFFER_SIZE {
        MessageView { id: ID_JITTER_BUFFER_SIZE, counter, data: spec_jitter_buffer_size() }
    } else if msg.id == ID_REQUEST_NETWORK_PROPERTIES {
        MessageView { id: ID_NETWORK_PROPERTIES, counter, data: spec_network_properties() }
    } else if msg.id == ID_REQUEST_CHANNEL_INFO {
        MessageView { id: ID_CHANNEL_INFO, counter, data: spec_channel_info(name) }
    } else {
        MessageView {
            id: ID_CHANNEL_GAIN,
            counter: spec_advance(counter, at as nat),
            data: spec_unmute(spec_parse_all(msg.data)->Ok_0[at].channel_id),
        }
    }
}

/// The counter discipline: the answers to one message carry consecutive
/// counters, starting with the session's own and wrapping after 255, and
/// each answer uses up one counter.
pub proof fn lemma_answers_count_up(name: Seq<char>, counter: u8, msg: MessageView, at: int)
    requires
        0 <= at < spec_replies(name, counter, msg).len(),
    ensures
        spec_reads_as(spec_replies(name, counter, msg)[at], spec_answer(name, counter, msg, at)),
        spec_answer(name, counter, msg, at).counter == spec_advance(counter, at as nat),
        at < spec_consumed(msg),
{
    if msg.id == ID_REQUEST_JITTER_BUFFER_SIZE {
        lemma_originated_reads_back(ID_JITTER_BUFFER_SIZE, counter, spec_jitter_buffer_size());
    } else if msg.id == ID_REQUEST_NETWORK_PROPERTIES {
        lemma_originated_reads_back(ID_NETWORK_PROPERTIES, counter, spec_network_properties());
    } else if msg.id == ID_REQUEST_CHANNEL_INFO {
        lemma_originated_reads_back(ID_CHANNEL_INFO, counter, spec_channel_info(name));
    } else if msg.id == ID_CLIENT_LIST {
        lemma_unmute_reads_back(spec_parse_all(msg.data)->Ok_0, counter, at);
    }
}

/// Silence is never taken for a control message: a silent datagram does
/// not start with the zero tag, so it is audio.
pub proof fn lemma_silence_is_audio(counter: u8)
    ensures
        spec_parse(spec_silent_packet(counter)) == Err::<(MessageView, Seq<u8>), ParseError>(
            ParseError::Tag,
        ),
        spec_classify(spec_silent_packet(counter)) == PacketKind::Audio,
{
    let packet = spec_silent_packet(counter);
    assert(packet.len() == 332);
    assert(packet[0] == 0x04);
}

/// A session that is leaving stays as it is and sends nothing, whatever
/// happens: the disconnect message goes out once.
pub proof fn lemma_leaving_is_final(state: ClientView, event: Event)
    requires
        !state.shutting_down,
    ensures
        spec_step(state, Event::Shutdown).1 == seq![spec_disconnect(state.next_counter)],
        spec_step(spec_step(state, Event::Shutdown).0, event) == (
            spec_step(state, Event::Shutdown).0,
            Seq::<Seq<u8>>::empty(),
        ),
{
}

/// Whether `after` is the handler `before` once it has been handed the
/// two halves of `packet`, first half first; the same handler where
/// `packet` is no audio datagram.
pub open spec fn spec_heard<H: Handler>(before: H, after: H, packet: Seq<u8>) -> bool {
    match spec_audio_halves(packet) {
        Some((first, second)) => exists|between: H|
            #![auto]
            between.took_opus_packet(&before, first.0, first.1) && after.took_opus_packet(
                &between,
                second.0,
                second.1,
            ),
        None => after == before,
    }
}

/// Whether `after` is the handler `before` once it has been handed the
/// text of `msg`; the same handler where `msg` is no chat that reads.
pub open spec fn spec_told<H: Handler>(before: H, after: H, msg: MessageView) -> bool {
    if msg.id == ID_CHAT_TEXT && spec_chat_text(msg.data) is Ok {
        after.took_chat_text(&before, spec_chat_text(msg.data)->Ok_0)
    } else {
        after == before
    }
}

/// Whether `after` is the handler `before` once it has been handed what
/// the datagram `payload` holds for it.
pub open spec fn spec_delivered<H: Handler>(before: H, after: H, payload: Seq<u8>) -> bool {
    match spec_parse(payload) {
        Ok((msg, _)) => spec_told(before, after, msg),
        Err(_) => spec_heard(before, after, payload),
    }
}

/// Whether `after` is the handler `before` once the session has taken the
/// step `event`: only a datagram, and only while the session is not leaving,
/// reaches the handler.
pub open spec fn spec_step_delivered<H: Handler>(
    state: ClientView,
    before: H,
    after: H,
    event: Event,
) -> bool {
    match event {
        Event::Datagram(payload) if !state.shutting_down => spec_delivered(
            before,
            after,
            payload@,
        ),
        _ => after == before,
    }
}

/// The datagrams in `sends`, each as its bytes.
pub open spec fn spec_datagrams(sends: Seq<Vec<u8>>) -> Seq<Seq<u8>> {
    Seq::new(sends.len(), |at: int| sends[at]@)
}

impl<H: Handler> View for JamulusClient<H> {
    type V = ClientView;

    closed spec fn view(&self) -> ClientView {
        ClientView {
            name: self.name@,
            next_counter: self.next_counter_id,
            shutting_down: self.shutting_down,
            channel_id: self.channel_id,
            silence: self.silence@,
        }
    }
}

impl<H: Handler> JamulusClient<H> {
    /// The handler the session hands audio and chat to.
    pub closed spec fn spec_handler(&self) -> H {
        self.handler
    }

    /// A session under `name` that hands audio and chat to `handler`. Its
    /// first originated message carries counter 1.
    pub fn new(name: String, handler: H) -> (client: Self)
        ensures
            client@ == spec_started(name@),
            client.spec_handler() == handler,
    {
        JamulusClient {
            name,
            next_counter_id: 1,
            handler,
            shutting_down: false,
            channel_id: None,
            silence: SilentOpusStream::new(),
        }
    }

    /// The channel the server gave this client, once it has said so.
    pub fn channel_id(&self) -> (id: Option<u8>)
        ensures
            id == self@.channel_id,
    {
        self.channel_id
    }

    /// Whether the session is leaving.
    pub fn is_shutting_down(&self) -> (leaving: bool)
        ensures
            leaving == self@.shutting_down,
    {
        self.shutting_down
    }

    /// The handler, to look at what it was given.
    pub fn handler(&self) -> (handler: &H)
        ensures
            *handler == self.spec_handler(),
    {
        &self.handler
    }

    /// Takes one step: handles a datagram, produces the next silent
    /// datagram, or leaves. Returns the datagrams to send, in order.
    pub fn step(&mut self, event: Event) -> (sends: Vec<Vec<u8>>)
        ensures
            (final(self)@, spec_datagrams(sends@)) == spec_step(old(self)@, event),
            spec_step_delivered(
                old(self)@,
                old(self).spec_handler(),
                final(self).spec_handler(),
                event,
            ),
    {
        if self.shutting_down {
            let sends: Vec<Vec<u8>> = Vec::new();
            assert(spec_datagrams(sends@) =~= seq![]);
            return sends;
        }
        match event {
            Event::Datagram(payload) => {
                let (_, sends) = self.handle_packet(payload);
                sends
            },
            Event::Tick => {
                let packet = self.silence.next();
                let mut datagram: Vec<u8> = Vec::with_capacity(332);
                push_all(&mut datagram, packet.as_slice());
                let mut sends: Vec<Vec<u8>> = Vec::new();
                sends.push(datagram);
                assert(spec_datagrams(sends@) =~= seq![spec_silent_packet(old(self)@.silence)]);
                sends
            },
            Event::Shutdown => {
                let mut sends: Vec<Vec<u8>> = Vec::new();
                self.shutting_down = true;
                let empty: Vec<u8> = Vec::new();
                assert(empty@ =~= seq![]);
                match self.send_message(ID_DISCONNECT, empty.as_slice()) {
                    Some(datagram) => {
                        sends.push(datagram);
                    },
                    None => {},
                }
                assert(spec_datagrams(sends@) =~= seq![spec_disconnect(old(self)@.next_counter)]);
                sends
            },
        }
    }

    /// Handles one datagram: a control message is answered, the halves of
    /// an audio datagram go to the handler, anything else is dropped.
    pub fn handle_packet(&mut self, payload: &[u8]) -> (handled: (PacketKind, Vec<Vec<u8>>))
        ensures
            handled.0 == spec_classify(payload@),
            (final(self)@, spec_datagrams(handled.1@)) == spec_handle_packet(old(self)@, payload@),
            spec_delivered(old(self).spec_handler(), final(self).spec_handler(), payload@),
    {
        match Message::parse(payload) {
            Ok((_, msg)) => {
                let (fault, sends) = self.handle_chat_text(msg);
                match fault {
                    Some(fault) => (PacketKind::Malformed(fault), sends),
                    None => (PacketKind::Control, sends),
                }
            },
            Err(_) => {
                let delivered = self.handle_audio_packet(payload);
                let sends: Vec<Vec<u8>> = Vec::new();
                assert(spec_datagrams(sends@) =~= seq![]);
                if delivered {
                    (PacketKind::Audio, sends)
                } else {
                    (PacketKind::Unknown, sends)
                }
            },
        }
    }

    /// Handles one control message: hands the text of a chat message to
    /// the handler, then answers and acknowledges as `handle_message` does.
    /// A chat text that cannot be read is not handed over; the message is
    /// still acknowledged.
    ///
    /// Returns what was wrong with the payload, if anything, and the
    /// datagrams to send.
    pub fn handle_chat_text<'a>(&mut self, msg: Message<'a>) -> (handled: (
        Option<Fault>,
        Vec<Vec<u8>>,
    ))
        ensures
            handled.0 == spec_fault(msg@),
            (final(self)@, spec_datagrams(handled.1@)) == spec_handle_message(old(self)@, msg@),
            spec_told(old(self).spec_handler(), final(self).spec_handler(), msg@),
    {
        if msg.id == ID_CHAT_TEXT {
            let fault = match chat_text(msg.data) {
                Ok(text) => {
                    self.handler.handle_chat_text(text);
                    None
                },
                Err(e) => Some(Fault::Chat(e)),
            };
            let (_, sends) = self.handle_message(msg);
            (fault, sends)
        } else {
            self.handle_message(msg)
        }
    }

    /// Answers and acknowledges one control message, and records the
    /// channel the server assigns. Returns what was wrong with a client list,
    /// if anything, and the datagrams to send: the answers, each under a
    /// fresh counter, then the acknowledgement under the counter of `msg`.
    /// The handler is left alone.
    pub fn handle_message<'a>(&mut self, msg: Message<'a>) -> (handled: (
        Option<Fault>,
        Vec<Vec<u8>>,
    ))
        ensures
            handled.0 == spec_list_fault(msg@),
            (final(self)@, spec_datagrams(handled.1@)) == spec_handle_message(old(self)@, msg@),
            final(self).spec_handler() == old(self).spec_handler(),
    {
        let mut sends: Vec<Vec<u8>> = Vec::new();
        let mut fault: Option<Fault> = None;
        assert(spec_datagrams(sends@) =~= seq![]);
        if msg.id == ID_CLIENT_ID {
            if msg.data.len() >= 1 {
                self.channel_id = Some(msg.data[0]);
            }
        } else if msg.id == ID_CLIENT_LIST {
            match ClientInfo::parse_all(msg.data) {
                Ok(clients) => {
                    let ghost listed = spec_views(clients@);
                    let ghost first = self.next_counter_id;
                    let mut at: usize = 0;
                    while at < clients.len()
                        invariant
                            at <= clients.len(),
                            listed == spec_views(clients@),
                            first == old(self)@.next_counter,
                            self.spec_handler() == old(self).spec_handler(),
                            self@ == (ClientView {
                                next_counter: spec_advance(first, at as nat),
                                ..old(self)@
                            }),
                            spec_datagrams(sends@) == spec_unmute_all(listed, first).take(
                                at as int,
                            ),
                        decreases clients.len() - at,
                    {
                        let gain = unmute(clients[at].channel_id);
                        let ghost sent = spec_datagrams(sends@);
                        match self.send_message(ID_CHANNEL_GAIN, gain.as_slice()) {
                            Some(datagram) => {
                                sends.push(datagram);
                            },
                            None => {},
                        }
                        assert(spec_datagrams(sends@) =~= sent.push(
                            spec_unmute_all(listed, first)[at as int],
                        ));
                        at = at + 1;
                        assert(spec_unmute_all(listed, first).take(at as int) =~= sent.push(
                            spec_unmute_all(listed, first)[at - 1],
                        ));
                    }
                    assert(spec_unmute_all(listed, first).take(at as int) =~= spec_unmute_all(
                        listed,
                        first,
                    ));
                },
                Err(e) => {
                    fault = Some(Fault::ClientList(e));
                },
            }
        } else if msg.id == ID_REQUEST_NETWORK_PROPERTIES {
            let properties = network_properties();
            self.originate_into(&mut sends, ID_NETWORK_PROPERTIES, properties.as_slice());
        } else if msg.id == ID_REQUEST_JITTER_BUFFER_SIZE {
            let size = jitter_buffer_size();
            self.originate_into(&mut sends, ID_JITTER_BUFFER_SIZE, size.as_slice());
        } else if msg.id == ID_REQUEST_CHANNEL_INFO {
            let info = channel_info(self.name.as_str());
            self.originate_into(&mut sends, ID_CHANNEL_INFO, info.as_slice());
        }
        assert(spec_datagrams(sends@) == spec_replies(old(self)@.name, old(self)@.next_counter, msg@));
        if msg.id != ID_ACK && msg.id < FIRST_UNACKNOWLEDGED_ID {
            let echoed = ack_payload(msg.id);
            let ack = Message { id: ID_ACK, counter: msg.counter, data: echoed.as_slice() };
            let ghost sent = spec_datagrams(sends@);
            match ack.to_bytes() {
                Ok(datagram) => {
                    sends.push(datagram);
                },
                Err(_) => {},
            }
            assert(spec_datagrams(sends@) =~= sent + spec_ack(msg@));
        } else {
            assert(spec_datagrams(sends@) =~= spec_datagrams(sends@) + spec_ack(msg@));
        }
        (fault, sends)
    }

    /// Originates one message: frames `data` under `message_id` and the
    /// session's counter, which then moves on by one, wrapping after 255.
    /// Returns the datagram, or nothing if `data` is too long to frame.
    pub fn send_message(&mut self, message_id: u16, data: &[u8]) -> (datagram: Option<Vec<u8>>)
        ensures
            final(self)@ == (ClientView {
                next_counter: spec_advance(old(self)@.next_counter, 1),
                ..old(self)@
            }),
            data@.len() <= MAX_DATA_LEN ==> datagram is Some && datagram->Some_0@ == spec_envelope(
                MessageView { id: message_id, counter: old(self)@.next_counter, data: data@ },
            ),
            data@.len() > MAX_DATA_LEN ==> datagram is None,
            final(self).spec_handler() == old(self).spec_handler(),
    {
        let datagram = Message { id: message_id, counter: self.next_counter_id, data: data };
        self.next_counter_id = self.next_counter_id.wrapping_add(1);
        match datagram.to_bytes() {
            Ok(bytes) => Some(bytes),
            Err(_) => None,
        }
    }

    /// Hands the two halves of an audio datagram to the handler, first half
    /// first. Returns whether `packet` was one.
    pub fn handle_audio_packet(&mut self, packet: &[u8]) -> (delivered: bool)
        ensures
            delivered == spec_audio_halves(packet@) is Some,
            final(self)@ == old(self)@,
            spec_heard(old(self).spec_handler(), final(self).spec_handler(), packet@),
    {
        match audio_halves(packet) {
            Some(((first, first_number), (second, second_number))) => {
                self.handler.handle_opus_packet(first, first_number);
                let ghost between = self.handler;
                self.handler.handle_opus_packet(second, second_number);
                proof {
                    let halves = spec_audio_halves(packet@)->Some_0;
                    assert(between.took_opus_packet(
                        &old(self).spec_handler(),
                        halves.0.0,
                        halves.0.1,
                    ));
                }
                true
            },
            None => false,
        }
    }

    fn originate_into(&mut self, sends: &mut Vec<Vec<u8>>, message_id: u16, data: &[u8])
        ensures
            final(self)@ == (ClientView {
                next_counter: spec_advance(old(self)@.next_counter, 1),
                ..old(self)@
            }),
            spec_datagrams(final(sends)@) == spec_datagrams(old(sends)@) + spec_originate(
                message_id,
                old(self)@.next_counter,
                data@,
            ),
            final(self).spec_handler() == old(self).spec_handler(),
    {
        match self.send_message(message_id, data) {
            Some(datagram) => {
                sends.push(datagram);
            },
            None => {},
        }
        assert(spec_datagrams(sends@) =~= spec_datagrams(old(sends)@) + spec_originate(
            message_id,
            old(self)@.next_counter,
            data@,
        ));
    }
}

} // verus!
