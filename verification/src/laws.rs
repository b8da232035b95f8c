//! What holds of whole conversations: of all the calls that send or receive a message.
use vstd::prelude::*;

use crate::control::{
    all_credentials, all_rights, control_view, last_credentials, last_rights, send_control_view,
    ControlView, Credentials,
};
use crate::error::ChannelError;
use crate::header::{announced_fds, announced_len, lemma_header_round_trip, low_u32, HEADER_LEN};
use crate::operations::{
    law_end_of_stream_is_an_error, law_listing_is_additive, law_send_control_hands_over_each_once,
};
use crate::panic::{caught, payload_text, slot_run, slot_step, PanicPayload, PanicView, SlotEvent};
use crate::recv::{recv_step, RecvEvent, RecvStepView, RecvView};
use crate::send::{
    message_bytes, message_header, send_step, SendEvent, SendStepView, SendView,
};
use crate::serde::{
    deserialized, found, innermost, left, next_index, registered, registered_all, serialized,
    HandleError,
};

verus! {

/// What one successful send call put on the wire.
pub struct Segment {
    /// The bytes.
    pub bytes: Seq<u8>,
    /// The descriptors that accompanied them.
    pub fds: Seq<i32>,
    /// Whether credentials accompanied them.
    pub creds: bool,
}

/// All the bytes of a list of segments, in order.
pub open spec fn wire_bytes(segments: Seq<Segment>) -> Seq<u8>
    decreases segments.len(),
{
    if segments.len() == 0 {
        seq![]
    } else {
        segments[0].bytes + wire_bytes(segments.drop_first())
    }
}

/// All the descriptors of a list of segments, in order.
pub open spec fn wire_fds(segments: Seq<Segment>) -> Seq<i32>
    decreases segments.len(),
{
    if segments.len() == 0 {
        seq![]
    } else {
        segments[0].fds + wire_fds(segments.drop_first())
    }
}

/// What the events `events`, one after the other, lead to from the state `s`.
pub open spec fn send_run(s: SendView, events: Seq<SendEvent>) -> SendStepView
    decreases events.len(),
{
    if events.len() == 0 {
        SendStepView::AwaitWritable(s)
    } else {
        match send_step(s, events[0]) {
            SendStepView::AwaitWritable(t) => send_run(t, events.drop_first()),
            SendStepView::SendNow(t) => send_run(t, events.drop_first()),
            done => done,
        }
    }
}

/// Whether no send call takes more than it was offered.
pub open spec fn send_possible(s: SendView, events: Seq<SendEvent>) -> bool
    decreases events.len(),
{
    events.len() == 0 || {
        &&& events[0] matches SendEvent::Sent(n) ==> n <= s.remaining().len()
        &&& match send_step(s, events[0]) {
            SendStepView::AwaitWritable(t) => send_possible(t, events.drop_first()),
            SendStepView::SendNow(t) => send_possible(t, events.drop_first()),
            _ => true,
        }
    }
}

/// What the event `event` puts on the wire in the state `s`.
pub open spec fn sent_segment(s: SendView, event: SendEvent) -> Seq<Segment> {
    match event {
        SendEvent::Sent(n) if n > 0 => seq![
            Segment {
                bytes: s.remaining().take(n as int),
                fds: s.attached_fds(),
                creds: s.attached_creds(),
            },
        ],
        _ => seq![],
    }
}

/// What the events `events` put on the wire, from the state `s` until the message is done.
pub open spec fn transmitted(s: SendView, events: Seq<SendEvent>) -> Seq<Segment>
    decreases events.len(),
{
    if events.len() == 0 {
        seq![]
    } else {
        sent_segment(s, events[0]) + match send_step(s, events[0]) {
            SendStepView::AwaitWritable(t) => transmitted(t, events.drop_first()),
            SendStepView::SendNow(t) => transmitted(t, events.drop_first()),
            _ => seq![],
        }
    }
}

/// Whether no call fails and each one that succeeds makes progress.
pub open spec fn send_smooth(events: Seq<SendEvent>) -> bool {
    forall|i: int|
        0 <= i < events.len() ==> match #[trigger] events[i] {
            SendEvent::Sent(n) => n > 0,
            SendEvent::Failed(_) => false,
            _ => true,
        }
}

/// Whether `s` is a state that the transmission of a message can be in.
spec fn send_valid(s: SendView) -> bool {
    0 <= s.pos && if s.in_header {
        s.pos < HEADER_LEN
    } else {
        s.pos < s.data.len() || s.pos == s.data.len() == 0
    }
}

/// The bytes that are still to be sent in the state `s`.
spec fn to_send(s: SendView) -> Seq<u8> {
    if s.in_header {
        s.remaining() + s.data
    } else {
        s.remaining()
    }
}

/// The position in the whole message that the state `s` has come to.
spec fn offset(s: SendView) -> int {
    if s.in_header {
        s.pos
    } else {
        HEADER_LEN + s.pos
    }
}

/// Whether the segments carry descriptors and credentials where they belong, if the first of
/// them starts at the position `offset` of the message.
pub open spec fn well_placed(
    segments: Seq<Segment>,
    offset: int,
    fds: Seq<i32>,
    with_creds: bool,
) -> bool {
    forall|i: int|
        #![trigger segments[i]]
        0 <= i < segments.len() ==> {
            let start = offset + wire_bytes(segments.take(i)).len();
            &&& segments[i].fds == if start == HEADER_LEN {
                fds
            } else {
                seq![]
            }
            &&& segments[i].creds == (with_creds && start < HEADER_LEN)
        }
}

proof fn lemma_message_header_len(data: Seq<u8>, fds: Seq<i32>)
    ensures
        message_header(data, fds).len() == HEADER_LEN,
{
    lemma_header_round_trip(low_u32(data.len()), low_u32(fds.len()));
}

proof fn lemma_wire_prepend(segment: Segment, segments: Seq<Segment>)
    ensures
        wire_bytes(seq![segment] + segments) == segment.bytes + wire_bytes(segments),
        wire_fds(seq![segment] + segments) == segment.fds + wire_fds(segments),
{
    assert((seq![segment] + segments).drop_first() =~= segments);
}

/// The state after a step, if the message is not done.
spec fn send_next(s: SendView, event: SendEvent) -> Option<SendView> {
    match send_step(s, event) {
        SendStepView::AwaitWritable(t) => Some(t),
        SendStepView::SendNow(t) => Some(t),
        _ => None,
    }
}

/// One step sends the front part of what is to be sent.
proof fn lemma_send_step(s: SendView, event: SendEvent)
    requires
        send_valid(s),
        event matches SendEvent::Sent(n) ==> n <= s.remaining().len(),
    ensures
        match send_next(s, event) {
            Some(t) => {
                &&& send_valid(t)
                &&& t.data == s.data && t.fds == s.fds && t.with_creds == s.with_creds
                &&& to_send(s) == wire_bytes(sent_segment(s, event)) + to_send(t)
                &&& offset(t) == offset(s) + wire_bytes(sent_segment(s, event)).len()
                &&& sent_segment(s, event).len() > 0 ==> offset(t) > offset(s)
            },
            None => send_step(s, event) is Complete ==> {
                &&& to_send(s) == wire_bytes(sent_segment(s, event))
                &&& send_step(s, event) == SendStepView::Complete(s.data.len() as int)
                &&& !s.in_header
            },
        },
{
    lemma_message_header_len(s.data, s.fds);
    let segment = sent_segment(s, event);
    match event {
        SendEvent::Sent(n) if n > 0 => {
            lemma_wire_prepend(segment[0], seq![]);
            assert(seq![segment[0]] + Seq::<Segment>::empty() =~= segment);
            assert(wire_bytes(segment) =~= s.remaining().take(n as int));
            match send_next(s, event) {
                Some(t) => {
                    assert(to_send(s) =~= wire_bytes(segment) + to_send(t));
                },
                None => {
                    assert(to_send(s) =~= wire_bytes(segment));
                },
            }
        },
        _ => {
            assert(wire_bytes(segment) =~= seq![]);
            match send_next(s, event) {
                Some(t) => {
                    assert(to_send(s) =~= wire_bytes(segment) + to_send(t));
                },
                None => {},
            }
        },
    }
}

proof fn lemma_send_run(s: SendView, events: Seq<SendEvent>)
    requires
        send_valid(s),
        send_possible(s, events),
    ensures
        wire_bytes(transmitted(s, events)).is_prefix_of(to_send(s)),
        well_placed(transmitted(s, events), offset(s), s.fds, s.with_creds),
        wire_fds(transmitted(s, events)) == if offset(s) <= HEADER_LEN < offset(s) + wire_bytes(
            transmitted(s, events),
        ).len() {
            s.fds
        } else {
            seq![]
        },
        send_run(s, events) is Complete ==> {
            &&& send_run(s, events) == SendStepView::Complete(s.data.len() as int)
            &&& wire_bytes(transmitted(s, events)) == to_send(s)
            &&& wire_fds(transmitted(s, events)) == if offset(s) <= HEADER_LEN {
                s.fds
            } else {
                seq![]
            }
            &&& s.data.len() > 0
        },
        send_smooth(events) && !(send_run(s, events) is Complete) ==> {
            &&& !(send_run(s, events) is Fail)
            &&& s.data.len() > 0 ==> wire_bytes(transmitted(s, events)).len() < to_send(s).len()
        },
    decreases events.len(),
{
    lemma_message_header_len(s.data, s.fds);
    let segments = transmitted(s, events);
    if events.len() == 0 {
        assert(wire_bytes(segments) =~= seq![]);
    } else {
        let event = events[0];
        let rest = events.drop_first();
        let head = sent_segment(s, event);
        lemma_send_step(s, event);
        assert(send_smooth(events) ==> send_smooth(rest)) by {
            assert forall|i: int| send_smooth(events) && 0 <= i < rest.len() implies match #[trigger] rest[i] {
                SendEvent::Sent(n) => n > 0,
                SendEvent::Failed(_) => false,
                _ => true,
            } by {
                assert(rest[i] == events[i + 1]);
            }
        }
        match send_next(s, event) {
            Some(t) => {
                lemma_send_run(t, rest);
                let tail = transmitted(t, rest);
                if head.len() == 0 {
                    assert(segments =~= tail);
                    assert(wire_bytes(head) =~= seq![]);
                    assert(to_send(s) =~= to_send(t));
                } else {
                    assert(head =~= seq![head[0]]);
                    lemma_wire_prepend(head[0], tail);
                    lemma_wire_prepend(head[0], seq![]);
                    assert(seq![head[0]] + Seq::<Segment>::empty() =~= head);
                    assert(wire_bytes(head) =~= head[0].bytes);
                    lemma_well_placed_prepend(head[0], tail, offset(s), s.fds, s.with_creds);
                    assert(wire_fds(segments) =~= head[0].fds + wire_fds(tail));
                }
            },
            None => {
                assert(segments =~= head);
                if head.len() == 0 {
                    assert(wire_bytes(head) =~= seq![]);
                } else {
                    assert(head =~= seq![head[0]]);
                    lemma_wire_prepend(head[0], seq![]);
                    assert(seq![head[0]] + Seq::<Segment>::empty() =~= head);
                    assert(wire_bytes(head) =~= head[0].bytes);
                    assert(wire_fds(head) =~= head[0].fds);
                    assert(head.take(0) =~= seq![]);
                    assert(wire_bytes(head.take(0)) =~= seq![]);
                    assert(wire_bytes(head).is_prefix_of(to_send(s))) by {
                        assert(to_send(s).take(wire_bytes(head).len() as int) =~= wire_bytes(head));
                    }
                }
            },
        }
    }
}

proof fn lemma_well_placed_prepend(
    segment: Segment,
    tail: Seq<Segment>,
    offset: int,
    fds: Seq<i32>,
    with_creds: bool,
)
    requires
        well_placed(tail, offset + segment.bytes.len(), fds, with_creds),
        segment.fds == if offset == HEADER_LEN {
            fds
        } else {
            seq![]
        },
        segment.creds == (with_creds && offset < HEADER_LEN),
    ensures
        well_placed(seq![segment] + tail, offset, fds, with_creds),
{
    let all = seq![segment] + tail;
    assert forall|i: int| #![trigger all[i]] 0 <= i < all.len() implies {
        let start = offset + wire_bytes(all.take(i)).len();
        &&& all[i].fds == if start == HEADER_LEN {
            fds
        } else {
            seq![]
        }
        &&& all[i].creds == (with_creds && start < HEADER_LEN)
    } by {
        if i == 0 {
            assert(all.take(0) =~= seq![]);
            assert(wire_bytes(all.take(0)) =~= seq![]);
        } else {
            assert(all.take(i) =~= seq![segment] + tail.take(i - 1));
            lemma_wire_prepend(segment, tail.take(i - 1));
            assert(all[i] == tail[i - 1]);
        }
    }
}

/// A message that was sent went over the wire as its header followed by its payload, no byte
/// more or less, with all its descriptors, however the socket cut it into pieces.  At every
/// moment before that, a front part of it is on the wire.
///
/// The descriptors accompany the first byte of the payload, so that they are all on the wire
/// with it and none before it.  Credentials, if any are sent, accompany every piece of the
/// header.
pub proof fn law_sent_message_is_whole(
    data: Seq<u8>,
    fds: Seq<i32>,
    with_creds: bool,
    events: Seq<SendEvent>,
)
    requires
        send_possible(SendView::start(data, fds, with_creds), events),
    ensures
        ({
            let start = SendView::start(data, fds, with_creds);
            let segments = transmitted(start, events);
            &&& wire_bytes(segments).is_prefix_of(message_bytes(data, fds))
            &&& well_placed(segments, 0, fds, with_creds)
            &&& wire_fds(segments) == if wire_bytes(segments).len() > HEADER_LEN {
                fds
            } else {
                seq![]
            }
            &&& send_run(start, events) is Complete ==> {
                &&& send_run(start, events) == SendStepView::Complete(data.len() as int)
                &&& wire_bytes(segments) == message_bytes(data, fds)
                &&& wire_fds(segments) == fds
            }
        }),
{
    let start = SendView::start(data, fds, with_creds);
    lemma_message_header_len(data, fds);
    lemma_send_run(start, events);
    assert(to_send(start) =~= message_bytes(data, fds));
}

/// The ancillary data that the events `events` hand to the socket, call after call, from the
/// state `s` until the message is done, where `own` are the credentials of the sender.
pub open spec fn handed(s: SendView, events: Seq<SendEvent>, own: Credentials) -> Seq<ControlView>
    decreases events.len(),
{
    if events.len() == 0 {
        seq![]
    } else {
        (match events[0] {
            SendEvent::Sent(n) if n > 0 => send_control_view(
                s.attached_fds(),
                if s.attached_creds() {
                    Some(own)
                } else {
                    None
                },
            ),
            _ => seq![],
        }) + match send_step(s, events[0]) {
            SendStepView::AwaitWritable(t) => handed(t, events.drop_first(), own),
            SendStepView::SendNow(t) => handed(t, events.drop_first(), own),
            _ => seq![],
        }
    }
}

proof fn lemma_handed(s: SendView, events: Seq<SendEvent>, own: Credentials)
    ensures
        all_rights(handed(s, events, own)) == wire_fds(transmitted(s, events)),
        s.with_creds || all_credentials(handed(s, events, own)) == Seq::<Credentials>::empty(),
        forall|i: int|
            0 <= i < all_credentials(handed(s, events, own)).len() ==> #[trigger] all_credentials(
                handed(s, events, own),
            )[i] == own,
    decreases events.len(),
{
    if events.len() > 0 {
        let event = events[0];
        let rest = events.drop_first();
        let call = match event {
            SendEvent::Sent(n) if n > 0 => send_control_view(
                s.attached_fds(),
                if s.attached_creds() {
                    Some(own)
                } else {
                    None
                },
            ),
            _ => seq![],
        };
        let head = sent_segment(s, event);
        law_send_control_hands_over_each_once(
            s.attached_fds(),
            if s.attached_creds() {
                Some(own)
            } else {
                None
            },
        );
        let (tail, segments) = match send_next(s, event) {
            Some(t) => {
                lemma_handed(t, rest, own);
                (handed(t, rest, own), transmitted(t, rest))
            },
            None => (seq![], seq![]),
        };
        assert(handed(s, events, own) =~= call + tail);
        assert(transmitted(s, events) =~= head + segments);
        law_listing_is_additive(call, tail);
        if head.len() > 0 {
            assert(head =~= seq![head[0]]);
            lemma_wire_prepend(head[0], segments);
        } else {
            assert(head + segments =~= segments);
            assert(call + tail =~= tail);
        }
        assert(all_rights(handed(s, events, own)) =~= wire_fds(transmitted(s, events)));
        if !s.with_creds {
            assert(all_credentials(handed(s, events, own)) =~= seq![]);
        }
    }
}

/// Each descriptor of a message is handed to the socket once.  All the descriptors in all the
/// control messages of all the calls, one after the other, are exactly those of the message once
/// a byte of its payload was taken, and none before.  Credentials are handed over only if they
/// are to be sent, and then they are the sender's.
pub proof fn law_descriptors_are_handed_over_once(
    data: Seq<u8>,
    fds: Seq<i32>,
    with_creds: bool,
    events: Seq<SendEvent>,
    own: Credentials,
)
    requires
        send_possible(SendView::start(data, fds, with_creds), events),
    ensures
        ({
            let start = SendView::start(data, fds, with_creds);
            let control = handed(start, events, own);
            let sent = wire_bytes(transmitted(start, events)).len();
            &&& all_rights(control) == if sent > HEADER_LEN {
                fds
            } else {
                seq![]
            }
            &&& send_run(start, events) is Complete ==> all_rights(control) == fds
            &&& !with_creds ==> all_credentials(control).len() == 0
            &&& forall|i: int|
                0 <= i < all_credentials(control).len() ==> #[trigger] all_credentials(control)[i]
                    == own
        }),
{
    lemma_handed(SendView::start(data, fds, with_creds), events, own);
    law_sent_message_is_whole(data, fds, with_creds, events);
}

proof fn lemma_send_position(s: SendView, events: Seq<SendEvent>)
    requires
        send_valid(s),
        send_possible(s, events),
    ensures
        send_run(s, events) matches SendStepView::AwaitWritable(t) ==> {
            &&& send_valid(t)
            &&& t.data == s.data && t.fds == s.fds && t.with_creds == s.with_creds
            &&& offset(t) == offset(s) + wire_bytes(transmitted(s, events)).len()
        },
        !(send_run(s, events) is SendNow),
    decreases events.len(),
{
    if events.len() == 0 {
        assert(wire_bytes(transmitted(s, events)) =~= seq![]);
    } else {
        let event = events[0];
        let rest = events.drop_first();
        let head = sent_segment(s, event);
        lemma_send_step(s, event);
        match send_next(s, event) {
            Some(t) => {
                lemma_send_position(t, rest);
                if head.len() == 0 {
                    assert(transmitted(s, events) =~= transmitted(t, rest));
                    assert(wire_bytes(head) =~= seq![]);
                } else {
                    assert(head =~= seq![head[0]]);
                    lemma_wire_prepend(head[0], transmitted(t, rest));
                    lemma_wire_prepend(head[0], seq![]);
                    assert(seq![head[0]] + Seq::<Segment>::empty() =~= head);
                    assert(wire_bytes(head) =~= head[0].bytes);
                }
            },
            None => {},
        }
    }
}

/// While a message is being sent, each call offers all that is still to be sent of its header,
/// and then of its payload.  The descriptors go with the front of the payload, and credentials,
/// if they are sent, with the header.
pub proof fn law_send_call_offers_the_rest(
    data: Seq<u8>,
    fds: Seq<i32>,
    with_creds: bool,
    events: Seq<SendEvent>,
)
    requires
        send_possible(SendView::start(data, fds, with_creds), events),
    ensures
        ({
            let start = SendView::start(data, fds, with_creds);
            let sent = wire_bytes(transmitted(start, events)).len() as int;
            send_run(start, events) matches SendStepView::AwaitWritable(t) ==> {
                &&& sent < 8 ==> t.remaining() == message_bytes(data, fds).subrange(sent, 8)
                &&& sent >= 8 ==> t.remaining() == message_bytes(data, fds).skip(sent)
                &&& t.attached_fds() == if sent == 8 {
                    fds
                } else {
                    seq![]
                }
                &&& t.attached_creds() == (with_creds && sent < 8)
            }
        }),
{
    let start = SendView::start(data, fds, with_creds);
    let sent = wire_bytes(transmitted(start, events)).len() as int;
    lemma_message_header_len(data, fds);
    lemma_send_position(start, events);
    match send_run(start, events) {
        SendStepView::AwaitWritable(t) => {
            if sent < 8 {
                assert(t.remaining() =~= message_bytes(data, fds).subrange(sent, 8));
            } else {
                assert(t.remaining() =~= message_bytes(data, fds).skip(sent));
            }
        },
        _ => {},
    }
}

/// A transmission fails only for a reason: if no call fails and each one that succeeds makes
/// progress, it does not fail.
pub proof fn law_sending_fails_only_with_a_call(
    data: Seq<u8>,
    fds: Seq<i32>,
    with_creds: bool,
    events: Seq<SendEvent>,
)
    requires
        send_possible(SendView::start(data, fds, with_creds), events),
        send_smooth(events),
    ensures
        !(send_run(SendView::start(data, fds, with_creds), events) is Fail),
{
    lemma_send_run(SendView::start(data, fds, with_creds), events);
}

/// If no call fails and each one makes progress, a message with a payload is sent as soon as the
/// socket has taken as many bytes as the message has.
pub proof fn law_sending_completes(
    data: Seq<u8>,
    fds: Seq<i32>,
    with_creds: bool,
    events: Seq<SendEvent>,
)
    requires
        data.len() > 0,
        send_possible(SendView::start(data, fds, with_creds), events),
        send_smooth(events),
        wire_bytes(transmitted(SendView::start(data, fds, with_creds), events)).len()
            == message_bytes(data, fds).len(),
    ensures
        send_run(SendView::start(data, fds, with_creds), events) == SendStepView::Complete(
            data.len() as int,
        ),
{
    let start = SendView::start(data, fds, with_creds);
    lemma_message_header_len(data, fds);
    lemma_send_run(start, events);
    assert(to_send(start) =~= message_bytes(data, fds));
}

/// A message without a payload is never sent successfully.
pub proof fn law_empty_message_is_not_sent(
    fds: Seq<i32>,
    with_creds: bool,
    events: Seq<SendEvent>,
)
    requires
        send_possible(SendView::start(seq![], fds, with_creds), events),
    ensures
        !(send_run(SendView::start(seq![], fds, with_creds), events) is Complete),
{
    lemma_send_run(SendView::start(seq![], fds, with_creds), events);
}

/// What the events `events`, one after the other, lead to from the state `s`.
pub open spec fn recv_run(s: RecvView, events: Seq<RecvEvent>) -> RecvStepView
    decreases events.len(),
{
    if events.len() == 0 {
        RecvStepView::AwaitReadable(s)
    } else {
        match recv_step(s, events[0]) {
            RecvStepView::AwaitReadable(t) => recv_run(t, events.drop_first()),
            RecvStepView::RecvNow(t) => recv_run(t, events.drop_first()),
            done => done,
        }
    }
}

/// The state after a step, if the message is not done.
pub open spec fn recv_next(s: RecvView, event: RecvEvent) -> Option<RecvView> {
    match recv_step(s, event) {
        RecvStepView::AwaitReadable(t) => Some(t),
        RecvStepView::RecvNow(t) => Some(t),
        _ => None,
    }
}

/// Whether no receive call returns more than it asked for.
pub open spec fn recv_possible(s: RecvView, events: Seq<RecvEvent>) -> bool
    decreases events.len(),
{
    events.len() == 0 || {
        &&& events[0] matches RecvEvent::Message { data, .. } ==> data@.len() <= s.wanted()
        &&& recv_next(s, events[0]) matches Some(t) ==> recv_possible(t, events.drop_first())
    }
}

/// Whether no call fails, each one that succeeds brings something, and credentials come with
/// the header if they are wanted.
pub open spec fn recv_smooth(s: RecvView, events: Seq<RecvEvent>) -> bool
    decreases events.len(),
{
    events.len() == 0 || {
        &&& match events[0] {
            RecvEvent::Message { data, control } => {
                &&& data@.len() > 0
                &&& s.want_creds() ==> last_credentials(control_view(control@)) is Some
            },
            RecvEvent::Failed(_) => false,
            _ => true,
        }
        &&& recv_next(s, events[0]) matches Some(t) ==> recv_smooth(t, events.drop_first())
    }
}

/// The bytes that the event `event` brings.
pub open spec fn brought_bytes(event: RecvEvent) -> Seq<u8> {
    match event {
        RecvEvent::Message { data, .. } => data@,
        _ => seq![],
    }
}

/// The descriptors that the event `event` brings in the state `s`, where descriptors count only
/// beside the payload.
pub open spec fn brought_fds(s: RecvView, event: RecvEvent) -> Seq<i32> {
    match event {
        RecvEvent::Message { data, control } if s is Payload => match last_rights(
            control_view(control@),
        ) {
            Some(fds) => fds,
            None => seq![],
        },
        _ => seq![],
    }
}

/// The bytes that the events `events` bring, from the state `s` until the message is done.
pub open spec fn consumed(s: RecvView, events: Seq<RecvEvent>) -> Seq<u8>
    decreases events.len(),
{
    if events.len() == 0 {
        seq![]
    } else {
        brought_bytes(events[0]) + match recv_next(s, events[0]) {
            Some(t) => consumed(t, events.drop_first()),
            None => seq![],
        }
    }
}

/// The descriptors that the events `events` bring, from the state `s` until the message is done.
pub open spec fn delivered_fds(s: RecvView, events: Seq<RecvEvent>) -> Seq<i32>
    decreases events.len(),
{
    if events.len() == 0 {
        seq![]
    } else {
        brought_fds(s, events[0]) + match recv_next(s, events[0]) {
            Some(t) => delivered_fds(t, events.drop_first()),
            None => seq![],
        }
    }
}

/// A message of which nothing has been received.
pub open spec fn recv_start(want_creds: bool) -> RecvView {
    RecvView::Header { want_creds, got: seq![] }
}

/// A list of descriptors in the form in which it is handed out: an empty one is none.
pub open spec fn some_fds(fds: Seq<i32>) -> Option<Seq<i32>> {
    if fds.len() == 0 {
        None
    } else {
        Some(fds)
    }
}

/// Whether `s` is a state that the reception of a message can be in.
spec fn recv_valid(s: RecvView) -> bool {
    match s {
        RecvView::Header { got, .. } => got.len() < HEADER_LEN,
        RecvView::Payload { header, got, fds, .. } => {
            &&& header.len() == HEADER_LEN
            &&& got.len() < announced_len(header) || got.len() == announced_len(header) == 0
            &&& fds matches Some(held) ==> held.len() > 0
        },
    }
}

/// All the bytes of the message that have been received in the state `s`.
spec fn received(s: RecvView) -> Seq<u8> {
    match s {
        RecvView::Header { got, .. } => got,
        RecvView::Payload { header, got, .. } => header + got,
    }
}

/// The descriptors that are held in the state `s`.
spec fn held_fds(s: RecvView) -> Seq<i32> {
    match s {
        RecvView::Payload { fds: Some(held), .. } => held,
        _ => seq![],
    }
}

/// The credentials that accompany the piece of the header that completes it.
pub open spec fn header_creds(s: RecvView, events: Seq<RecvEvent>) -> Option<Credentials>
    decreases events.len(),
{
    if events.len() == 0 {
        None
    } else {
        match recv_next(s, events[0]) {
            Some(t) if t is Header => header_creds(t, events.drop_first()),
            _ => match events[0] {
                RecvEvent::Message { control, .. } => last_credentials(control_view(control@)),
                _ => None,
            },
        }
    }
}

/// The credentials that the state `s` hands out, if `events` complete the message.
spec fn promised_creds(s: RecvView, events: Seq<RecvEvent>) -> Option<Credentials> {
    match s {
        RecvView::Header { want_creds, .. } => if want_creds {
            header_creds(s, events)
        } else {
            None
        },
        RecvView::Payload { creds, .. } => creds,
    }
}

/// Whether `all` consists of a header and the payload `data` that the header announces.
pub open spec fn framed(all: Seq<u8>, data: Seq<u8>) -> bool {
    &&& all.len() >= HEADER_LEN
    &&& data == all.skip(HEADER_LEN as int)
    &&& data.len() == announced_len(all.take(HEADER_LEN as int))
    &&& data.len() > 0
}

proof fn lemma_last_rights(control: Seq<ControlView>)
    ensures
        last_rights(control) matches Some(fds) ==> fds.len() > 0,
    decreases control.len(),
{
    if control.len() > 0 {
        lemma_last_rights(control.drop_last());
    }
}

/// One step takes in what the event brings.
proof fn lemma_recv_step(s: RecvView, event: RecvEvent)
    requires
        recv_valid(s),
        event matches RecvEvent::Message { data, .. } ==> data@.len() <= s.wanted(),
    ensures
        match recv_step(s, event) {
            RecvStepView::Complete { data, fds, creds } => {
                &&& framed(received(s) + brought_bytes(event), data)
                &&& fds == some_fds(held_fds(s) + brought_fds(s, event))
                &&& s is Payload && creds == s->creds
                &&& event is Message
            },
            RecvStepView::Fail(_) => true,
            RecvStepView::AwaitReadable(t) => {
                &&& recv_valid(t)
                &&& received(t) == received(s) + brought_bytes(event)
                &&& s is Payload ==> t is Payload && t->creds == s->creds
                &&& s is Header && t is Header ==> t->want_creds == s->want_creds
                &&& s is Header && t is Payload ==> {
                    &&& event matches RecvEvent::Message { control, .. } && t->creds == if s->want_creds {
                        last_credentials(control_view(control@))
                    } else {
                        None
                    }
                    &&& s->want_creds ==> t->creds is Some
                }
                &&& held_fds(t) == held_fds(s) + brought_fds(s, event)
            },
            RecvStepView::RecvNow(t) => t == s && event is Interrupted,
        },
{
    match event {
        RecvEvent::Message { data, control } => {
            lemma_last_rights(control_view(control@));
            let brought = brought_bytes(event);
            match s {
                RecvView::Header { want_creds, got } => {
                    assert(held_fds(s) + brought_fds(s, event) =~= seq![]);
                    assert((got + data@) + Seq::<u8>::empty() =~= got + data@);
                },
                RecvView::Payload { header, creds, got, fds } => {
                    assert(header + (got + data@) =~= received(s) + brought);
                    assert((received(s) + brought).skip(HEADER_LEN as int) =~= got + data@);
                    assert((received(s) + brought).take(HEADER_LEN as int) =~= header);
                    assert(held_fds(s) + Seq::<i32>::empty() =~= held_fds(s));
                    assert(Seq::<i32>::empty() + brought_fds(s, event) =~= brought_fds(s, event));
                },
            }
        },
        _ => {
            assert(received(s) + brought_bytes(event) =~= received(s));
            assert(held_fds(s) + brought_fds(s, event) =~= held_fds(s));
        },
    }
}

proof fn lemma_recv_run(s: RecvView, events: Seq<RecvEvent>)
    requires
        recv_valid(s),
        recv_possible(s, events),
    ensures
        recv_run(s, events) matches RecvStepView::Complete { data, fds, creds } ==> {
            &&& framed(received(s) + consumed(s, events), data)
            &&& creds == promised_creds(s, events)
            &&& s is Header ==> creds is Some == s->want_creds
            &&& fds == some_fds(held_fds(s) + delivered_fds(s, events))
        },
    decreases events.len(),
{
    if events.len() > 0 {
        let event = events[0];
        let rest = events.drop_first();
        lemma_recv_step(s, event);
        match recv_next(s, event) {
            Some(t) => {
                if recv_step(s, event) is RecvNow {
                    assert(received(s) + brought_bytes(event) =~= received(s));
                    assert(held_fds(s) + brought_fds(s, event) =~= held_fds(s));
                }
                lemma_recv_run(t, rest);
                assert(received(s) + consumed(s, events) =~= received(t) + consumed(t, rest));
                assert(held_fds(s) + delivered_fds(s, events) =~= (held_fds(s) + brought_fds(
                    s,
                    event,
                )) + delivered_fds(t, rest));
            },
            None => {
                assert(consumed(s, events) =~= brought_bytes(event));
                assert(delivered_fds(s, events) =~= brought_fds(s, event));
            },
        }
    }
}

/// A message that was received consists of exactly the bytes that were taken from the socket: a
/// header and the payload whose length it announces.  So the next message begins where this one
/// ends.  The descriptors are all those that came with the payload, in the order in which they
/// came.  Credentials are handed out if and only if they were asked for, and they are those that
/// came with the end of the header.
pub proof fn law_received_message_is_framed(want_creds: bool, events: Seq<RecvEvent>)
    requires
        recv_possible(recv_start(want_creds), events),
    ensures
        recv_run(recv_start(want_creds), events) matches RecvStepView::Complete {
            data,
            fds,
            creds,
        } ==> {
            &&& framed(consumed(recv_start(want_creds), events), data)
            &&& fds == some_fds(delivered_fds(recv_start(want_creds), events))
            &&& creds == if want_creds {
                header_creds(recv_start(want_creds), events)
            } else {
                None
            }
            &&& creds is Some == want_creds
        },
{
    let start = recv_start(want_creds);
    lemma_recv_run(start, events);
    assert(received(start) + consumed(start, events) =~= consumed(start, events));
    assert(held_fds(start) + delivered_fds(start, events) =~= delivered_fds(start, events));
}

proof fn lemma_recv_progress(s: RecvView, events: Seq<RecvEvent>)
    requires
        recv_valid(s),
        recv_possible(s, events),
    ensures
        recv_run(s, events) matches RecvStepView::AwaitReadable(t) ==> {
            &&& recv_valid(t)
            &&& received(t) == received(s) + consumed(s, events)
            &&& s is Payload ==> t is Payload
            &&& t is Header ==> t->want_creds == s->want_creds
        },
        !(recv_run(s, events) is RecvNow),
        recv_smooth(s, events) ==> !(recv_run(s, events) is Fail),
    decreases events.len(),
{
    if events.len() == 0 {
        assert(received(s) + consumed(s, events) =~= received(s));
    } else {
        let event = events[0];
        let rest = events.drop_first();
        lemma_recv_step(s, event);
        match recv_next(s, event) {
            Some(t) => {
                if recv_step(s, event) is RecvNow {
                    assert(received(s) + brought_bytes(event) =~= received(s));
                }
                lemma_recv_progress(t, rest);
                assert(received(s) + consumed(s, events) =~= received(t) + consumed(t, rest));
            },
            None => {},
        }
    }
}

/// The state that the events `events` lead to from the state `s`, if the message is not done.
spec fn state_after(s: RecvView, events: Seq<RecvEvent>) -> RecvView {
    recv_run(s, events)->AwaitReadable_0
}

proof fn lemma_recv_run_extend(s: RecvView, events: Seq<RecvEvent>, event: RecvEvent)
    requires
        recv_run(s, events) is AwaitReadable,
    ensures
        recv_run(s, events.push(event)) == match recv_step(state_after(s, events), event) {
            RecvStepView::RecvNow(t) => RecvStepView::AwaitReadable(t),
            other => other,
        },
    decreases events.len(),
{
    reveal_with_fuel(recv_run, 2);
    if events.len() == 0 {
        assert(events.push(event).drop_first() =~= seq![]);
    } else {
        assert(events.push(event).drop_first() =~= events.drop_first().push(event));
        match recv_next(s, events[0]) {
            Some(t) => {
                lemma_recv_run_extend(t, events.drop_first(), event);
            },
            None => {},
        }
    }
}

/// A stream that ends before a message is complete ends its reception: whatever has arrived, a
/// receive call that returns no bytes leads to the error that nothing could be read, and never
/// to waiting for more.
pub proof fn law_end_of_stream_ends_the_reception(
    s: RecvView,
    events: Seq<RecvEvent>,
    end: RecvEvent,
)
    requires
        recv_run(s, events) is AwaitReadable,
        end matches RecvEvent::Message { data, .. } && data@.len() == 0,
    ensures
        recv_run(s, events.push(end)) == RecvStepView::Fail(ChannelError::CouldNotRead),
{
    lemma_recv_run_extend(s, events, end);
    law_end_of_stream_is_an_error(state_after(s, events), end);
}

/// While a message is being received, each call asks for all that is still missing: of the
/// eight bytes of the header, without descriptors, and with credentials if they are wanted; and
/// then of the payload that the header announces, with the descriptors that it announces.
pub proof fn law_receive_call_asks_for_what_is_missing(want_creds: bool, events: Seq<RecvEvent>)
    requires
        recv_possible(recv_start(want_creds), events),
    ensures
        ({
            let bytes = consumed(recv_start(want_creds), events);
            recv_run(recv_start(want_creds), events) matches RecvStepView::AwaitReadable(t) ==> {
                &&& bytes.len() < 8 ==> {
                    &&& t.wanted() == 8 - bytes.len()
                    &&& t.fd_count() == 0
                    &&& t.want_creds() == want_creds
                }
                &&& bytes.len() >= 8 ==> {
                    &&& t.wanted() == 8 + announced_len(bytes.take(8)) - bytes.len()
                    &&& t.fd_count() == announced_fds(bytes.take(8))
                    &&& !t.want_creds()
                }
            }
        }),
{
    let start = recv_start(want_creds);
    let bytes = consumed(start, events);
    lemma_recv_progress(start, events);
    assert(received(start) + bytes =~= bytes);
    match recv_run(start, events) {
        RecvStepView::AwaitReadable(RecvView::Payload { header, .. }) => {
            assert(bytes.take(8) =~= header);
        },
        _ => {},
    }
}

/// A reception fails only for a reason: if no call fails, each one brings something, and
/// credentials come with the header if they are wanted, it does not fail.
pub proof fn law_receiving_fails_only_with_a_call(want_creds: bool, events: Seq<RecvEvent>)
    requires
        recv_possible(recv_start(want_creds), events),
        recv_smooth(recv_start(want_creds), events),
    ensures
        !(recv_run(recv_start(want_creds), events) is Fail),
{
    lemma_recv_progress(recv_start(want_creds), events);
}

/// If no call fails, each one brings something, and credentials come with the header if they
/// are wanted, a message with a payload is received as soon as its last byte was taken from the
/// socket.
pub proof fn law_receiving_completes(want_creds: bool, events: Seq<RecvEvent>)
    requires
        recv_possible(recv_start(want_creds), events),
        recv_smooth(recv_start(want_creds), events),
        ({
            let bytes = consumed(recv_start(want_creds), events);
            let len = announced_len(bytes.take(HEADER_LEN as int));
            len > 0 && bytes.len() == HEADER_LEN + len
        }),
    ensures
        recv_run(recv_start(want_creds), events) is Complete,
{
    let start = recv_start(want_creds);
    if !(recv_run(start, events) is Complete) {
        lemma_recv_progress(start, events);
        let bytes = consumed(start, events);
        assert(received(start) + bytes =~= bytes);
        match recv_run(start, events) {
            RecvStepView::AwaitReadable(RecvView::Payload { header, got, .. }) => {
                assert(bytes.take(HEADER_LEN as int) =~= header);
            },
            _ => {},
        }
    }
}

proof fn lemma_message_front(data: Seq<u8>, fds: Seq<i32>, rest: Seq<u8>, bytes: Seq<u8>)
    requires
        data.len() <= u32::MAX,
        bytes.len() >= HEADER_LEN,
        bytes.is_prefix_of(message_bytes(data, fds) + rest),
    ensures
        announced_len(bytes.take(HEADER_LEN as int)) == data.len(),
        announced_fds(bytes.take(HEADER_LEN as int)) == low_u32(fds.len()),
        bytes.len() == HEADER_LEN + data.len() ==> bytes == message_bytes(data, fds),
{
    let stream = message_bytes(data, fds) + rest;
    lemma_message_header_len(data, fds);
    lemma_header_round_trip(low_u32(data.len()), low_u32(fds.len()));
    assert(bytes.take(HEADER_LEN as int) =~= message_header(data, fds)) by {
        assert forall|i: int| 0 <= i < HEADER_LEN implies bytes[i] == message_header(data, fds)[i] by {
            assert(bytes[i] == stream[i]);
        }
    }
    assert(low_u32(data.len()) == data.len());
    if bytes.len() == HEADER_LEN + data.len() {
        assert(bytes =~= message_bytes(data, fds));
    }
}

/// A receiver that reads a message off the wire asks for what is there: once it knows the
/// header, it wants the rest of the payload and leaves room for all the descriptors.
///
/// The length of the payload and the number of descriptors must fit the header.
pub proof fn law_receiver_knows_what_to_expect(
    data: Seq<u8>,
    fds: Seq<i32>,
    following: Seq<u8>,
    want_creds: bool,
    events: Seq<RecvEvent>,
)
    requires
        data.len() <= u32::MAX,
        fds.len() <= u32::MAX,
        recv_possible(recv_start(want_creds), events),
        consumed(recv_start(want_creds), events).is_prefix_of(
            message_bytes(data, fds) + following,
        ),
    ensures
        recv_run(recv_start(want_creds), events) matches RecvStepView::AwaitReadable(t) ==> (
        t is Payload ==> {
            let read = consumed(recv_start(want_creds), events).len();
            &&& t.wanted() == HEADER_LEN + data.len() - read
            &&& t.fd_count() == fds.len()
        }),
{
    let start = recv_start(want_creds);
    let bytes = consumed(start, events);
    lemma_recv_progress(start, events);
    assert(received(start) + bytes =~= bytes);
    match recv_run(start, events) {
        RecvStepView::AwaitReadable(RecvView::Payload { header, got, .. }) => {
            assert(bytes.take(HEADER_LEN as int) =~= header);
            lemma_message_front(data, fds, following, bytes);
            assert(low_u32(fds.len()) == fds.len());
        },
        _ => {},
    }
}

/// What is received is what was sent.  Take a message that was sent, in whatever pieces the
/// socket took it, and a receiver that reads the bytes off the wire, in whatever pieces it gets
/// them: the receiver hands out the payload and takes nothing of what follows on the wire.  It
/// also hands out one descriptor for each that was sent, in the same order, however often the
/// socket has nothing to receive in between.  The numbers of the descriptors are those that the
/// receiving process knows them by.
///
/// The length of the payload must fit the header.
pub proof fn law_round_trip(
    data: Seq<u8>,
    fds: Seq<i32>,
    with_creds: bool,
    send_events: Seq<SendEvent>,
    following: Seq<u8>,
    want_creds: bool,
    recv_events: Seq<RecvEvent>,
)
    requires
        data.len() <= u32::MAX,
        send_possible(SendView::start(data, fds, with_creds), send_events),
        send_run(SendView::start(data, fds, with_creds), send_events) is Complete,
        recv_possible(recv_start(want_creds), recv_events),
        recv_run(recv_start(want_creds), recv_events) is Complete,
        consumed(recv_start(want_creds), recv_events).is_prefix_of(
            wire_bytes(transmitted(SendView::start(data, fds, with_creds), send_events))
                + following,
        ),
        delivered_fds(recv_start(want_creds), recv_events).len() == wire_fds(
            transmitted(SendView::start(data, fds, with_creds), send_events),
        ).len(),
    ensures
        consumed(recv_start(want_creds), recv_events) == message_bytes(data, fds),
        recv_run(recv_start(want_creds), recv_events)->data == data,
        delivered_fds(recv_start(want_creds), recv_events).len() == fds.len(),
        recv_run(recv_start(want_creds), recv_events)->fds == some_fds(
            delivered_fds(recv_start(want_creds), recv_events),
        ),
{
    let start = recv_start(want_creds);
    let bytes = consumed(start, recv_events);
    law_sent_message_is_whole(data, fds, with_creds, send_events);
    law_received_message_is_framed(want_creds, recv_events);
    lemma_message_front(data, fds, following, bytes);
    lemma_message_header_len(data, fds);
    assert(message_bytes(data, fds).skip(HEADER_LEN as int) =~= data);
}

/// A receiver never takes more than the header and the payload that it announces.
proof fn lemma_recv_bound(s: RecvView, events: Seq<RecvEvent>)
    requires
        recv_valid(s),
        recv_possible(s, events),
    ensures
        ({
            let all = received(s) + consumed(s, events);
            all.len() > HEADER_LEN ==> all.len() <= HEADER_LEN + announced_len(
                all.take(HEADER_LEN as int),
            )
        }),
    decreases events.len(),
{
    let all = received(s) + consumed(s, events);
    if events.len() == 0 {
        assert(all =~= received(s));
    } else {
        let event = events[0];
        let rest = events.drop_first();
        lemma_recv_step(s, event);
        match recv_next(s, event) {
            Some(t) => {
                if recv_step(s, event) is RecvNow {
                    assert(received(s) + brought_bytes(event) =~= received(s));
                }
                lemma_recv_bound(t, rest);
                assert(all =~= received(t) + consumed(t, rest));
            },
            None => {
                assert(all =~= received(s) + brought_bytes(event));
            },
        }
    }
    match s {
        RecvView::Payload { header, .. } => {
            assert(all.take(HEADER_LEN as int) =~= header);
        },
        _ => {},
    }
}

/// A receiver that is done with a message leaves the stream at the next one, whatever the
/// payload then decodes to.  So the next message is received as if the first had never been
/// there.
///
/// A message with a payload is done when it is complete.  One without a payload is never
/// complete; it is done once its header was read.  The lengths of both payloads must fit the
/// header.
pub proof fn law_stream_stays_in_step(
    data: Seq<u8>,
    fds: Seq<i32>,
    want_creds: bool,
    events: Seq<RecvEvent>,
    next_data: Seq<u8>,
    next_fds: Seq<i32>,
    next_want_creds: bool,
    next_events: Seq<RecvEvent>,
    following: Seq<u8>,
)
    requires
        data.len() <= u32::MAX,
        next_data.len() <= u32::MAX,
        recv_possible(recv_start(want_creds), events),
        recv_possible(recv_start(next_want_creds), next_events),
        if data.len() > 0 {
            recv_run(recv_start(want_creds), events) is Complete
        } else {
            consumed(recv_start(want_creds), events).len() >= HEADER_LEN
        },
        recv_run(recv_start(next_want_creds), next_events) is Complete,
        ({
            let stream = message_bytes(data, fds) + message_bytes(next_data, next_fds) + following;
            let first = consumed(recv_start(want_creds), events);
            let second = consumed(recv_start(next_want_creds), next_events);
            &&& first.is_prefix_of(stream)
            &&& second.is_prefix_of(stream.skip(first.len() as int))
        }),
    ensures
        consumed(recv_start(want_creds), events) == message_bytes(data, fds),
        consumed(recv_start(next_want_creds), next_events) == message_bytes(next_data, next_fds),
        recv_run(recv_start(next_want_creds), next_events)->data == next_data,
        recv_run(recv_start(next_want_creds), next_events)->fds == some_fds(
            delivered_fds(recv_start(next_want_creds), next_events),
        ),
{
    let start = recv_start(want_creds);
    let first = consumed(start, events);
    let rest = message_bytes(next_data, next_fds) + following;
    let stream = message_bytes(data, fds) + message_bytes(next_data, next_fds) + following;
    assert(stream =~= message_bytes(data, fds) + rest);
    lemma_message_header_len(data, fds);
    law_received_message_is_framed(want_creds, events);
    lemma_recv_bound(start, events);
    assert(received(start) + first =~= first);
    lemma_message_front(data, fds, rest, first);
    assert(stream.skip(first.len() as int) =~= rest);

    let next = recv_start(next_want_creds);
    let second = consumed(next, next_events);
    lemma_message_header_len(next_data, next_fds);
    law_received_message_is_framed(next_want_creds, next_events);
    lemma_message_front(next_data, next_fds, following, second);
    assert(message_bytes(next_data, next_fds).skip(HEADER_LEN as int) =~= next_data);
}

/// A message whose header announces no payload is never received successfully.
pub proof fn law_empty_message_is_not_received(want_creds: bool, events: Seq<RecvEvent>)
    requires
        recv_possible(recv_start(want_creds), events),
        consumed(recv_start(want_creds), events).len() >= HEADER_LEN,
        announced_len(consumed(recv_start(want_creds), events).take(HEADER_LEN as int)) == 0,
    ensures
        !(recv_run(recv_start(want_creds), events) is Complete),
{
    law_received_message_is_framed(want_creds, events);
}

proof fn lemma_registered_all(outer: Seq<Seq<i32>>, before: Seq<i32>, fds: Seq<i32>)
    ensures
        registered_all(outer.push(before), fds) == outer.push(before + fds),
    decreases fds.len(),
{
    if fds.len() == 0 {
        assert(before + fds =~= before);
    } else {
        lemma_registered_all(outer, before, fds.drop_last());
        let inner = before + fds.drop_last();
        assert(outer.push(inner).drop_last() =~= outer);
        assert(inner.push(fds.last()) =~= before + fds);
    }
}

/// IPC modes nest: whatever is registered while one is entered, leaving it hands out the
/// descriptors that it was entered with followed by those that were registered, and restores
/// what was there before.
pub proof fn law_ipc_modes_nest(outer: Seq<Seq<i32>>, before: Seq<i32>, fds: Seq<i32>)
    ensures
        innermost(registered_all(outer.push(before), fds)) == before + fds,
        left(registered_all(outer.push(before), fds)) == outer,
{
    lemma_registered_all(outer, before, fds);
    assert(outer.push(before + fds).drop_last() =~= outer);
}

/// What can happen to the descriptors of the messages that are being serialized or deserialized.
pub enum IpcEvent {
    /// A call that serializes or deserializes a message begins, with these descriptors.
    Enter(Seq<i32>),
    /// A descriptor is serialized.
    Register(i32),
    /// The innermost call ends, in whatever way.
    Leave,
}

/// What `event` makes of `frames`.
pub open spec fn ipc_step(frames: Seq<Seq<i32>>, event: IpcEvent) -> Seq<Seq<i32>> {
    match event {
        IpcEvent::Enter(fds) => frames.push(fds),
        IpcEvent::Register(fd) => if serialized(frames) is Ok {
            registered(frames, fd)
        } else {
            frames
        },
        IpcEvent::Leave => left(frames),
    }
}

/// What `events`, one after the other, make of `frames`.
pub open spec fn ipc_run(frames: Seq<Seq<i32>>, events: Seq<IpcEvent>) -> Seq<Seq<i32>>
    decreases events.len(),
{
    if events.len() == 0 {
        frames
    } else {
        ipc_step(ipc_run(frames, events.drop_last()), events.last())
    }
}

/// The number of calls that have begun and not ended after `events`.
pub open spec fn in_progress(events: Seq<IpcEvent>) -> int
    decreases events.len(),
{
    if events.len() == 0 {
        0
    } else {
        in_progress(events.drop_last()) + match events.last() {
            IpcEvent::Enter(_) => 1int,
            IpcEvent::Register(_) => 0int,
            IpcEvent::Leave => -1int,
        }
    }
}

/// A thread is in IPC mode exactly while a call that serializes or deserializes a message is in
/// progress: not at first, not after the outermost call has ended, and at every moment in
/// between.
///
/// No call ends that has not begun.
pub proof fn law_ipc_mode_is_on_during_calls(events: Seq<IpcEvent>)
    requires
        forall|i: int| 0 <= i <= events.len() ==> in_progress(#[trigger] events.take(i)) >= 0,
    ensures
        ipc_run(seq![], events).len() == in_progress(events),
        ipc_run(seq![], events).len() > 0 <==> in_progress(events) > 0,
    decreases events.len(),
{
    if events.len() > 0 {
        let before = events.drop_last();
        assert forall|i: int| 0 <= i <= before.len() implies in_progress(
            #[trigger] before.take(i),
        ) >= 0 by {
            assert(before.take(i) =~= events.take(i));
        }
        law_ipc_mode_is_on_during_calls(before);
        assert(events.take(events.len() as int) =~= events);
    }
}

/// A handle that was serialized is found again: with the descriptors that serializing a message
/// hands out, the index that stands for a descriptor leads to that descriptor, in whatever
/// situation the message is deserialized.
///
/// The number of descriptors must fit an index.
pub proof fn law_handles_are_found_again(
    outer: Seq<Seq<i32>>,
    before: Seq<i32>,
    fd: i32,
    after: Seq<i32>,
    reader: Seq<Seq<i32>>,
)
    requires
        before.len() <= u32::MAX,
    ensures
        ({
            let frames = registered_all(outer.push(seq![]), before);
            let index = next_index(frames);
            let message = innermost(registered_all(registered(frames, fd), after));
            &&& index == before.len()
            &&& found(reader.push(message), index) == Some(fd)
            &&& serialized(frames) == Ok::<_, HandleError>(index)
            &&& deserialized(reader.push(message), index) == Ok::<_, HandleError>(fd)
        }),
{
    let frames = registered_all(outer.push(seq![]), before);
    lemma_registered_all(outer, seq![], before);
    assert(Seq::<i32>::empty() + before =~= before);
    assert(outer.push(before).drop_last() =~= outer);
    assert(registered(frames, fd) =~= outer.push(before.push(fd)));
    lemma_registered_all(outer, before.push(fd), after);
}

/// Handles cross a channel.  Serialize a message, send it with the descriptors that this hands
/// out, receive it, and deserialize it with the descriptors that came: the index that stands for
/// a descriptor leads to the one that arrived in its place.
///
/// The same is required as for the round trip of the message.
pub proof fn law_handles_cross_a_channel(
    outer: Seq<Seq<i32>>,
    before: Seq<i32>,
    fd: i32,
    after: Seq<i32>,
    payload: Seq<u8>,
    send_events: Seq<SendEvent>,
    following: Seq<u8>,
    recv_events: Seq<RecvEvent>,
    reader: Seq<Seq<i32>>,
)
    requires
        before.len() <= u32::MAX,
        payload.len() <= u32::MAX,
        ({
            let frames = registered_all(outer.push(seq![]), before);
            let fds = innermost(registered_all(registered(frames, fd), after));
            let start = SendView::start(payload, fds, false);
            let wire = transmitted(start, send_events);
            &&& send_possible(start, send_events)
            &&& send_run(start, send_events) is Complete
            &&& recv_possible(recv_start(false), recv_events)
            &&& recv_run(recv_start(false), recv_events) is Complete
            &&& consumed(recv_start(false), recv_events).is_prefix_of(wire_bytes(wire) + following)
            &&& delivered_fds(recv_start(false), recv_events).len() == wire_fds(wire).len()
        }),
    ensures
        ({
            let frames = registered_all(outer.push(seq![]), before);
            let fds = innermost(registered_all(registered(frames, fd), after));
            let index = next_index(frames);
            let arrived = delivered_fds(recv_start(false), recv_events);
            let received = recv_run(recv_start(false), recv_events);
            &&& index < fds.len() == arrived.len()
            &&& fds[index as int] == fd
            &&& received->data == payload
            &&& received->fds == Some(arrived)
            &&& found(reader.push(arrived), index) == Some(arrived[index as int])
            &&& serialized(frames) == Ok::<_, HandleError>(index)
            &&& deserialized(reader.push(arrived), index) == Ok::<_, HandleError>(
                arrived[index as int],
            )
        }),
{
    let frames = registered_all(outer.push(seq![]), before);
    let fds = innermost(registered_all(registered(frames, fd), after));
    law_handles_are_found_again(outer, before, fd, after, reader);
    assert(found(reader.push(fds), next_index(frames)) == Some(fd));
    law_round_trip(payload, fds, false, send_events, following, false, recv_events);
}

/// The ancillary data that a send call is given tells a receive call the same descriptors and
/// credentials.
pub proof fn law_control_round_trip(fds: Seq<i32>, creds: Option<Credentials>)
    ensures
        last_rights(send_control_view(fds, creds)) == some_fds(fds),
        last_credentials(send_control_view(fds, creds)) == creds,
{
    reveal_with_fuel(last_rights, 3);
    reveal_with_fuel(last_credentials, 3);
    let control = send_control_view(fds, creds);
    if control.len() == 2 {
        assert(control.drop_last() =~= seq![ControlView::Rights(fds)]);
    }
    if control.len() == 1 {
        assert(control.drop_last() =~= seq![]);
    }
}

/// Whether the hook saw a panic that is described by `info` among `events`.
pub open spec fn was_seen(events: Seq<SlotEvent>, info: PanicView) -> bool {
    exists|i: int| 0 <= i < events.len() && #[trigger] events[i] == SlotEvent::Seen(info)
}

proof fn lemma_slot_run(slot: Option<PanicView>, events: Seq<SlotEvent>)
    ensures
        slot_run(slot, events) matches Some(info) ==> was_seen(events, info) || slot == Some(info),
    decreases events.len(),
{
    if events.len() > 0 {
        let before = events.drop_last();
        lemma_slot_run(slot, before);
        match slot_run(slot, events) {
            Some(info) => {
                if was_seen(before, info) {
                    let i = choose|i: int|
                        0 <= i < before.len() && #[trigger] before[i] == SlotEvent::Seen(info);
                    assert(events[i] == SlotEvent::Seen(info));
                } else if events.last() is Seen {
                    assert(events[events.len() - 1] == SlotEvent::Seen(info));
                }
            },
            None => {},
        }
    }
}

/// The description of a caught panic is that panic's own.  Whatever the slot held before it was
/// reset, and whatever happens to it while the function runs, other panics that are caught
/// inside included: a function that returns hands out its result, and a function that panics is
/// described by what the hook saw since the reset, which is the last panic if the hook saw that
/// one, or else by its payload alone, with neither a location nor a backtrace.
pub proof fn law_panic_info_is_current<R>(
    earlier: Option<PanicView>,
    events: Seq<SlotEvent>,
    outcome: Result<R, PanicPayload>,
)
    ensures
        ({
            let slot = slot_run(slot_step(earlier, SlotEvent::Reset), events);
            match outcome {
                Ok(rv) => caught(slot, outcome) == Ok::<R, PanicView>(rv),
                Err(payload) => {
                    let bare = PanicView::bare(payload_text(payload));
                    &&& caught(slot, outcome) matches Err(info) && {
                        &&& was_seen(events, info) || info == bare
                        &&& events.len() > 0 ==> (events.last() matches SlotEvent::Seen(last)
                            ==> info == last)
                        &&& (forall|i: int|
                            0 <= i < events.len() ==> !(#[trigger] events[i] is Seen)) ==> info
                            == bare
                    }
                },
            }
        }),
{
    lemma_slot_run(None, events);
}

} // verus!
