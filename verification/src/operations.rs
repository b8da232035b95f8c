//! What single operations come to, each said of what goes in and what comes out.
use vstd::endian::{endianness, Endian};
use vstd::prelude::*;

use crate::bootstrap::{
    bootstrap_view, decimal, entry_path, made, socket_name, BootstrapView, Bootstrapper,
};
use crate::control::{
    all_credentials, all_rights, control_view, fds_view, join_fds, last_credentials, last_rights,
    send_control_view, ControlMessage, ControlView, Credentials,
};
use crate::error::ChannelError;
use crate::header::{
    announced_fds, announced_len, header_bytes, lemma_digits, lemma_header_round_trip, low_u32,
};
use crate::panic::{
    caught, location_view, payload_text, slot_step, taken, Location, LocationView, PanicPayload,
    PanicView, SlotEvent,
};
use crate::recv::{recv_step, Received, RecvEvent, RecvMessage, RecvStep, RecvStepView, RecvView};
use crate::send::{
    message_bytes, message_header, send_step, SendEvent, SendMessage, SendStep, SendStepView,
    SendView,
};
use crate::serde::{
    deserialized, found, innermost, left, next_index, registered, serialized, HandleError,
};

verus! {

// ---------------------------------------------------------------------------------------------
// Headers
// ---------------------------------------------------------------------------------------------

/// A length field keeps the low 32 bits of a length: what is lost is a multiple of 2^32.
pub proof fn law_length_field_keeps_the_low_bits(n: nat)
    ensures
        n == low_u32(n) + 0x1_0000_0000 * (n / 0x1_0000_0000),
        n <= u32::MAX ==> low_u32(n) == n,
{
}

/// The first four bytes of a header are the length of the payload and the other four the number
/// of descriptors, each least significant byte first on a little-endian machine and last on a
/// big-endian one.
pub proof fn law_header_layout(payload_len: u32, fd_count: u32)
    ensures
        ({
            let h = header_bytes(payload_len, fd_count);
            &&& h.len() == 8
            &&& endianness() == Endian::Little ==> {
                &&& payload_len == h[0] + h[1] * 0x100 + h[2] * 0x1_0000 + h[3] * 0x100_0000
                &&& fd_count == h[4] + h[5] * 0x100 + h[6] * 0x1_0000 + h[7] * 0x100_0000
            }
            &&& endianness() == Endian::Big ==> {
                &&& payload_len == h[3] + h[2] * 0x100 + h[1] * 0x1_0000 + h[0] * 0x100_0000
                &&& fd_count == h[7] + h[6] * 0x100 + h[5] * 0x1_0000 + h[4] * 0x100_0000
            }
        }),
{
    lemma_header_round_trip(payload_len, fd_count);
    law_header_is_read_as_it_is_laid_out(header_bytes(payload_len, fd_count));
}

/// Whatever eight bytes arrive as a header, they announce the two numbers whose bytes they are.
pub proof fn law_header_is_read_as_it_is_laid_out(h: Seq<u8>)
    requires
        h.len() == 8,
    ensures
        endianness() == Endian::Little ==> {
            &&& announced_len(h) == h[0] + h[1] * 0x100 + h[2] * 0x1_0000 + h[3] * 0x100_0000
            &&& announced_fds(h) == h[4] + h[5] * 0x100 + h[6] * 0x1_0000 + h[7] * 0x100_0000
        },
        endianness() == Endian::Big ==> {
            &&& announced_len(h) == h[3] + h[2] * 0x100 + h[1] * 0x1_0000 + h[0] * 0x100_0000
            &&& announced_fds(h) == h[7] + h[6] * 0x100 + h[5] * 0x1_0000 + h[4] * 0x100_0000
        },
{
    lemma_digits(h[0] as int, h[1] as int, h[2] as int, h[3] as int);
    lemma_digits(h[4] as int, h[5] as int, h[6] as int, h[7] as int);
    lemma_digits(h[3] as int, h[2] as int, h[1] as int, h[0] as int);
    lemma_digits(h[7] as int, h[6] as int, h[5] as int, h[4] as int);
}

/// A message is a header of eight bytes and the payload behind it.  The header announces the
/// length of the payload and the number of descriptors, as far as 32 bits go.
pub proof fn law_message_is_header_and_payload(data: Seq<u8>, fds: Seq<i32>)
    ensures
        message_header(data, fds) == message_bytes(data, fds).take(8),
        message_bytes(data, fds).len() == 8 + data.len(),
        message_bytes(data, fds).skip(8) == data,
        announced_len(message_header(data, fds)) == data.len() % 0x1_0000_0000,
        announced_fds(message_header(data, fds)) == fds.len() % 0x1_0000_0000,
{
    lemma_header_round_trip(low_u32(data.len()), low_u32(fds.len()));
    assert(message_bytes(data, fds).take(8) =~= message_header(data, fds));
    assert(message_bytes(data, fds).skip(8) =~= data);
}

// ---------------------------------------------------------------------------------------------
// Ancillary data
// ---------------------------------------------------------------------------------------------

/// A piece of ancillary data holds the very descriptors or credentials that it was made of.
pub proof fn law_control_message_holds_its_contents(message: ControlMessage)
    ensures
        message matches ControlMessage::Rights(fds) ==> message@ == ControlView::Rights(fds@),
        message matches ControlMessage::Credentials(c) ==> message@ == ControlView::Credentials(c),
        message is Other <==> message@ is Other,
{
}

/// A list of ancillary data holds what its pieces hold, each in its place.
pub proof fn law_control_view_is_piecewise(control: Seq<ControlMessage>)
    ensures
        control_view(control).len() == control.len(),
        forall|i: int| 0 <= i < control.len() ==> #[trigger] control_view(control)[i]
            == control[i]@,
{
}

/// An optional list of descriptors holds the very descriptors of the list.
pub proof fn law_fds_view_holds_the_list(fds: Option<Vec<i32>>)
    ensures
        fds is None <==> fds_view(fds) is None,
        fds matches Some(v) ==> fds_view(fds) == Some(v@),
{
}

/// Whether a piece of ancillary data brings at least one descriptor.
pub open spec fn brings_fds(c: ControlView) -> bool {
    c matches ControlView::Rights(fds) && fds.len() > 0
}

/// The descriptors that a receive call yields are those of one of its descriptor messages,
/// behind which no other brings any.  It yields none only if no message brings any.
pub proof fn law_last_rights_count(control: Seq<ControlView>)
    ensures
        match last_rights(control) {
            None => forall|i: int| 0 <= i < control.len() ==> !brings_fds(#[trigger] control[i]),
            Some(fds) => fds.len() > 0 && exists|i: int|
                {
                    &&& 0 <= i < control.len()
                    &&& #[trigger] control[i] == ControlView::Rights(fds)
                    &&& forall|j: int| i < j < control.len() ==> !brings_fds(#[trigger] control[j])
                },
        },
    decreases control.len(),
{
    if control.len() > 0 {
        let front = control.drop_last();
        law_last_rights_count(front);
        if brings_fds(control.last()) {
            assert(control[control.len() - 1] == ControlView::Rights(last_rights(control)->0));
        } else {
            match last_rights(front) {
                None => {
                    assert forall|i: int| 0 <= i < control.len() implies !brings_fds(
                        #[trigger] control[i],
                    ) by {
                        if i < front.len() {
                            assert(front[i] == control[i]);
                        }
                    }
                },
                Some(fds) => {
                    let i = choose|i: int|
                        {
                            &&& 0 <= i < front.len()
                            &&& #[trigger] front[i] == ControlView::Rights(fds)
                            &&& forall|j: int|
                                i < j < front.len() ==> !brings_fds(#[trigger] front[j])
                        };
                    assert(control[i] == ControlView::Rights(fds));
                    assert forall|j: int| i < j < control.len() implies !brings_fds(
                        #[trigger] control[j],
                    ) by {
                        if j < front.len() {
                            assert(front[j] == control[j]);
                        }
                    }
                },
            }
        }
    }
}

/// The credentials that a receive call yields are those of its last credentials message.  It
/// yields none only if there is no such message.
pub proof fn law_last_credentials_count(control: Seq<ControlView>)
    ensures
        match last_credentials(control) {
            None => forall|i: int|
                0 <= i < control.len() ==> !(#[trigger] control[i] is Credentials),
            Some(c) => exists|i: int|
                {
                    &&& 0 <= i < control.len()
                    &&& #[trigger] control[i] == ControlView::Credentials(c)
                    &&& forall|j: int|
                        i < j < control.len() ==> !(#[trigger] control[j] is Credentials)
                },
        },
    decreases control.len(),
{
    if control.len() > 0 {
        let front = control.drop_last();
        law_last_credentials_count(front);
        if control.last() is Credentials {
            assert(control[control.len() - 1] == ControlView::Credentials(
                last_credentials(control)->0,
            ));
        } else {
            match last_credentials(front) {
                None => {
                    assert forall|i: int| 0 <= i < control.len() implies !(
                    #[trigger] control[i] is Credentials) by {
                        if i < front.len() {
                            assert(front[i] == control[i]);
                        }
                    }
                },
                Some(c) => {
                    let i = choose|i: int|
                        {
                            &&& 0 <= i < front.len()
                            &&& #[trigger] front[i] == ControlView::Credentials(c)
                            &&& forall|j: int|
                                i < j < front.len() ==> !(#[trigger] front[j] is Credentials)
                        };
                    assert(control[i] == ControlView::Credentials(c));
                    assert forall|j: int| i < j < control.len() implies !(
                    #[trigger] control[j] is Credentials) by {
                        if j < front.len() {
                            assert(front[j] == control[j]);
                        }
                    }
                },
            }
        }
    }
}

/// The descriptors in an optional list; none if there is no list.
pub open spec fn listed(fds: Option<Seq<i32>>) -> Seq<i32> {
    match fds {
        Some(fds) => fds,
        None => seq![],
    }
}

/// New descriptors join the held ones behind them; nothing is lost, added or made up.
pub proof fn law_descriptors_join_in_order(held: Option<Seq<i32>>, new: Option<Seq<i32>>)
    ensures
        listed(join_fds(held, new)) == listed(held) + listed(new),
        join_fds(held, new) is None <==> held is None && new is None,
{
    assert(listed(join_fds(held, new)) =~= listed(held) + listed(new));
}

/// Listing the descriptors of two lists of ancillary data lists those of the one and then those
/// of the other, and so it is with the credentials.
pub proof fn law_listing_is_additive(a: Seq<ControlView>, b: Seq<ControlView>)
    ensures
        all_rights(a + b) == all_rights(a) + all_rights(b),
        all_credentials(a + b) == all_credentials(a) + all_credentials(b),
    decreases b.len(),
{
    if b.len() == 0 {
        assert(a + b =~= a);
        assert(all_rights(a) + all_rights(b) =~= all_rights(a));
        assert(all_credentials(a) + all_credentials(b) =~= all_credentials(a));
    } else {
        law_listing_is_additive(a, b.drop_last());
        assert((a + b).drop_last() =~= a + b.drop_last());
        assert((a + b).last() == b.last());
        assert(all_rights(a + b) =~= all_rights(a) + all_rights(b));
        assert(all_credentials(a + b) =~= all_credentials(a) + all_credentials(b));
    }
}

/// A send call is handed each descriptor once and in order, in one message, and the credentials
/// once, behind the descriptors; nothing else, and no empty list of descriptors.
pub proof fn law_send_control_hands_over_each_once(fds: Seq<i32>, creds: Option<Credentials>)
    ensures
        ({
            let control = send_control_view(fds, creds);
            &&& all_rights(control) == fds
            &&& all_credentials(control) == match creds {
                Some(c) => seq![c],
                None => seq![],
            }
            &&& control.len() == (if fds.len() > 0 {
                1int
            } else {
                0
            }) + (if creds is Some {
                1int
            } else {
                0
            })
            &&& fds.len() > 0 ==> control[0] == ControlView::Rights(fds)
            &&& creds matches Some(c) ==> control.last() == ControlView::Credentials(c)
        }),
{
    reveal_with_fuel(all_rights, 3);
    reveal_with_fuel(all_credentials, 3);
    let control = send_control_view(fds, creds);
    if control.len() == 2 {
        assert(control.drop_last() =~= seq![ControlView::Rights(fds)]);
        assert(control.drop_last().drop_last() =~= seq![]);
    }
    if control.len() == 1 {
        assert(control.drop_last() =~= seq![]);
    }
    assert(all_rights(control) =~= fds);
    assert(all_credentials(control) =~= match creds {
        Some(c) => seq![c],
        None => seq![],
    });
}

// ---------------------------------------------------------------------------------------------
// One step of a reception
// ---------------------------------------------------------------------------------------------

/// The bytes of the current part of a message, header or payload, that have been received.
pub open spec fn part_received(s: RecvView) -> Seq<u8> {
    match s {
        RecvView::Header { got, .. } => got,
        RecvView::Payload { got, .. } => got,
    }
}

/// What is asked of the next receive call: the rest of an eight-byte header without descriptors
/// and with credentials if they are wanted, or the rest of the announced payload with the
/// announced descriptors and without credentials.
pub proof fn law_receive_call_asks_for_the_rest(s: RecvView)
    ensures
        match s {
            RecvView::Header { want_creds, got } => {
                &&& s.wanted() + got.len() == 8
                &&& s.fd_count() == 0
                &&& s.want_creds() == want_creds
            },
            RecvView::Payload { header, got, .. } => {
                &&& s.wanted() + got.len() == announced_len(header)
                &&& s.fd_count() == announced_fds(header)
                &&& !s.want_creds()
            },
        },
{
}

/// A receive call that returns no bytes ends the reception with the error that nothing could be
/// read, whatever state it is in, header or payload.  No other event leads to that error.
pub proof fn law_end_of_stream_is_an_error(s: RecvView, event: RecvEvent)
    ensures
        recv_step(s, event) == RecvStepView::Fail(ChannelError::CouldNotRead) <==> (
        event matches RecvEvent::Message { data, .. } && data@.len() == 0),
{
}

/// A receive call that did not succeed leaves the reception as it is, and it is repeated at once
/// after an interruption, or when the socket is readable again; any other error ends it.
pub proof fn law_receive_call_without_result(s: RecvView, event: RecvEvent)
    ensures
        event is Interrupted <==> recv_step(s, event) is RecvNow,
        event is Interrupted ==> recv_step(s, event) == RecvStepView::RecvNow(s),
        event is WouldBlock ==> recv_step(s, event) == RecvStepView::AwaitReadable(s),
        event matches RecvEvent::Failed(code) ==> recv_step(s, event) == RecvStepView::Fail(
            ChannelError::Os(code),
        ),
        recv_step(s, event) matches RecvStepView::Fail(ChannelError::Os(code)) ==> event
            == RecvEvent::Failed(code),
{
}

/// A receive call that returns bytes, but not all that were asked for, adds them behind what is
/// there, and its descriptors behind those that are held if it is the payload that arrives.
/// Nothing else changes, and the call is repeated when the socket is readable.
pub proof fn law_partial_piece_is_added(
    s: RecvView,
    data: Vec<u8>,
    control: Vec<ControlMessage>,
)
    requires
        0 < data@.len() < s.wanted(),
    ensures
        recv_step(s, RecvEvent::Message { data, control }) matches RecvStepView::AwaitReadable(t)
            && {
            &&& part_received(t) == part_received(s) + data@
            &&& s is Header ==> t is Header && t.want_creds() == s.want_creds()
            &&& s is Payload ==> {
                &&& t is Payload
                &&& t->header == s->header
                &&& t->creds == s->creds
                &&& listed(t->fds) == listed(s->fds) + listed(
                    last_rights(control_view(control@)),
                )
            }
        },
{
    law_descriptors_join_in_order(
        match s {
            RecvView::Payload { fds, .. } => fds,
            _ => None,
        },
        last_rights(control_view(control@)),
    );
}

/// When the header is complete, the reception goes on with the payload that it announces.
/// Credentials that were asked for are those that came with this last piece; if none came, the
/// reception fails, and that is the only reason for this error.
pub proof fn law_complete_header_leads_to_the_payload(
    want_creds: bool,
    got: Seq<u8>,
    data: Vec<u8>,
    control: Vec<ControlMessage>,
)
    requires
        got.len() < 8,
        got.len() + data@.len() == 8,
    ensures
        ({
            let s = RecvView::Header { want_creds, got };
            let sender = last_credentials(control_view(control@));
            let r = recv_step(s, RecvEvent::Message { data, control });
            if want_creds && sender is None {
                r == RecvStepView::Fail(ChannelError::MissingCredentials)
            } else {
                r matches RecvStepView::AwaitReadable(t) && t is Payload && {
                    &&& t->header == got + data@
                    &&& t.wanted() == announced_len(got + data@)
                    &&& t.fd_count() == announced_fds(got + data@)
                    &&& t->creds is Some <==> want_creds
                    &&& want_creds ==> t->creds == sender
                    &&& listed(t->fds).len() == 0
                    &&& t->fds is None
                }
            }
        }),
{
}

/// The error that credentials are missing comes only with the last piece of a header for which
/// they were asked.
pub proof fn law_missing_credentials_need_a_header(s: RecvView, event: RecvEvent)
    requires
        recv_step(s, event) == RecvStepView::Fail(ChannelError::MissingCredentials),
    ensures
        s is Header,
        s.want_creds(),
        event matches RecvEvent::Message { data, control } && data@.len() >= s.wanted()
            && last_credentials(control_view(control@)) is None,
{
}

/// When the payload is complete, the message is handed out: all of the payload, all of the
/// descriptors, and the credentials.  That happens at no other time.
pub proof fn law_complete_payload_is_handed_out(s: RecvView, event: RecvEvent)
    ensures
        recv_step(s, event) is Complete <==> s is Payload && (event matches RecvEvent::Message {
            data,
            ..
        } && 0 < data@.len() && s.wanted() <= data@.len()),
        recv_step(s, event) matches RecvStepView::Complete { data: all, fds, creds } ==> (
        event matches RecvEvent::Message { data, control } && {
            &&& all == part_received(s) + data@
            &&& listed(fds) == listed(s->fds) + listed(last_rights(control_view(control@)))
            &&& fds is None <==> s->fds is None && last_rights(control_view(control@)) is None
            &&& creds == s->creds
        }),
{
    match event {
        RecvEvent::Message { data, control } => {
            law_descriptors_join_in_order(
                match s {
                    RecvView::Payload { fds, .. } => fds,
                    _ => None,
                },
                last_rights(control_view(control@)),
            );
        },
        _ => {},
    }
}

/// A step shows the very message, descriptors, credentials, state or error that it holds.
pub proof fn law_receive_step_shows_what_it_holds(
    received: Received,
    next: RecvMessage,
    error: ChannelError,
)
    ensures
        RecvStep::Complete(received)@ == (RecvStepView::Complete {
            data: received.data@,
            fds: match received.fds {
                Some(v) => Some(v@),
                None => None,
            },
            creds: received.creds,
        }),
        RecvStep::AwaitReadable(next)@ == RecvStepView::AwaitReadable(next@),
        RecvStep::RecvNow(next)@ == RecvStepView::RecvNow(next@),
        RecvStep::Fail(error)@ == RecvStepView::Fail(error),
{
}

// ---------------------------------------------------------------------------------------------
// One step of a transmission
// ---------------------------------------------------------------------------------------------

/// A message of which nothing has been sent offers its whole header, without descriptors, and
/// with credentials if they are to be sent.
pub proof fn law_transmission_starts_with_the_header(
    data: Seq<u8>,
    fds: Seq<i32>,
    with_creds: bool,
)
    ensures
        ({
            let s = SendView::start(data, fds, with_creds);
            &&& s.remaining() == message_header(data, fds)
            &&& s.remaining().len() == 8
            &&& s.attached_fds().len() == 0
            &&& s.attached_creds() == with_creds
        }),
{
    lemma_header_round_trip(low_u32(data.len()), low_u32(fds.len()));
    assert(message_header(data, fds).skip(0) =~= message_header(data, fds));
}

/// A send call that takes no bytes ends the transmission with the error that nothing could be
/// sent, whatever state it is in.  No other event leads to that error.
pub proof fn law_nothing_sent_is_an_error(s: SendView, event: SendEvent)
    ensures
        send_step(s, event) == SendStepView::Fail(ChannelError::CouldNotSend) <==> event
            == SendEvent::Sent(0),
        send_step(s, event) != SendStepView::Fail(ChannelError::CouldNotRead),
        send_step(s, event) != SendStepView::Fail(ChannelError::MissingCredentials),
{
}

/// A send call that did not succeed leaves the transmission as it is, and it is repeated at once
/// after an interruption, or when the socket is writable again; any other error ends it.
pub proof fn law_send_call_without_result(s: SendView, event: SendEvent)
    ensures
        event is Interrupted <==> send_step(s, event) is SendNow,
        event is Interrupted ==> send_step(s, event) == SendStepView::SendNow(s),
        event is WouldBlock ==> send_step(s, event) == SendStepView::AwaitWritable(s),
        event matches SendEvent::Failed(code) ==> send_step(s, event) == SendStepView::Fail(
            ChannelError::Os(code),
        ),
        send_step(s, event) matches SendStepView::Fail(ChannelError::Os(code)) ==> event
            == SendEvent::Failed(code),
{
}

/// A send call that takes a part of what it is offered leaves the rest to be offered next, with
/// no descriptors any more; the credentials go with each piece of the header.
pub proof fn law_rest_is_offered_next(s: SendView, n: usize)
    requires
        0 <= s.pos <= s.part().len(),
        0 < n < s.remaining().len(),
    ensures
        send_step(s, SendEvent::Sent(n)) matches SendStepView::AwaitWritable(t) && {
            &&& t.remaining() == s.remaining().skip(n as int)
            &&& t.attached_fds().len() == 0
            &&& t.attached_creds() == s.attached_creds()
            &&& t.data == s.data && t.fds == s.fds
        },
{
    let t = SendView { pos: s.pos + n, ..s };
    lemma_header_round_trip(low_u32(s.data.len()), low_u32(s.fds.len()));
    assert(t.remaining() =~= s.remaining().skip(n as int));
}

/// When all of the header was taken, all of the payload is offered, with all the descriptors and
/// without credentials.
pub proof fn law_payload_follows_the_header(s: SendView, n: usize)
    requires
        s.in_header,
        0 < n,
        n == s.remaining().len(),
    ensures
        send_step(s, SendEvent::Sent(n)) matches SendStepView::AwaitWritable(t) && {
            &&& t.remaining() == s.data
            &&& t.attached_fds() == s.fds
            &&& !t.attached_creds()
            &&& !t.in_header
        },
{
    assert(s.data.skip(0) =~= s.data);
}

/// When all of the payload was taken, the transmission is complete, and the length of the
/// payload is its result.  That happens at no other time.
pub proof fn law_transmission_completes_with_the_payload(s: SendView, event: SendEvent)
    requires
        0 <= s.pos <= s.part().len(),
        event matches SendEvent::Sent(n) ==> n <= s.remaining().len(),
    ensures
        send_step(s, event) is Complete <==> !s.in_header && (event matches SendEvent::Sent(n) && 0
            < n && n == s.remaining().len()),
        send_step(s, event) is Complete ==> send_step(s, event) == SendStepView::Complete(
            s.data.len() as int,
        ),
{
}

/// A step shows the very state, length or error that it holds.
pub proof fn law_send_step_shows_what_it_holds<'a>(
    next: SendMessage<'a>,
    sent: usize,
    error: ChannelError,
)
    ensures
        SendStep::AwaitWritable(next)@ == SendStepView::AwaitWritable(next@),
        SendStep::SendNow(next)@ == SendStepView::SendNow(next@),
        SendStep::Complete(sent)@ == SendStepView::Complete(sent as int),
        SendStep::Fail(error)@ == SendStepView::Fail(error),
{
}

// ---------------------------------------------------------------------------------------------
// Handles
// ---------------------------------------------------------------------------------------------

/// Serializing a descriptor succeeds exactly in IPC mode.  It yields the number of descriptors
/// that the innermost message held before, and at that very place the message holds the
/// descriptor afterwards; the other descriptors and the outer messages stay as they are.
///
/// The number of descriptors must fit an index; beyond that the low 32 bits of it are yielded.
pub proof fn law_serialized_index_is_the_place(frames: Seq<Seq<i32>>, fd: i32)
    ensures
        frames.len() == 0 ==> serialized(frames) == Err::<u32, _>(HandleError::SerializeOutsideIpc),
        frames.len() > 0 ==> {
            let held = frames.last().len();
            let after = registered(frames, fd);
            &&& serialized(frames) matches Ok(i) && i == next_index(frames) && i == held
                % 0x1_0000_0000 && (held <= u32::MAX ==> i == held && after.last()[i as int] == fd)
            &&& after.len() == frames.len()
            &&& after.drop_last() == frames.drop_last()
            &&& after.last().len() == held + 1
            &&& after.last().take(held as int) == frames.last()
            &&& after.last()[held as int] == fd
            &&& innermost(after) == after.last()
        },
{
    if frames.len() > 0 {
        let after = registered(frames, fd);
        assert(after.drop_last() =~= frames.drop_last());
        assert(after.last().take(frames.last().len() as int) =~= frames.last());
    }
}

/// Deserializing an index succeeds exactly in IPC mode and for the places of the innermost
/// message's descriptors, and yields the descriptor at that place.  Outside IPC mode and for any
/// other index it is an error, each with its own kind.
pub proof fn law_deserialized_index_is_the_place(frames: Seq<Seq<i32>>, idx: u32)
    ensures
        frames.len() == 0 ==> deserialized(frames, idx) == Err::<i32, _>(
            HandleError::DeserializeOutsideIpc,
        ),
        frames.len() > 0 && idx < frames.last().len() ==> deserialized(frames, idx) == Ok::<
            _,
            HandleError,
        >(frames.last()[idx as int]),
        frames.len() > 0 && idx >= frames.last().len() ==> deserialized(frames, idx) == Err::<
            i32,
            _,
        >(HandleError::FdNotFound),
        found(frames, idx) == match deserialized(frames, idx) {
            Ok(fd) => Some(fd),
            Err(_) => None,
        },
{
}

/// Two descriptors of one message never share an index: whatever the message holds and whatever
/// is serialized in between, serializing two descriptors yields two different indices.
///
/// The number of descriptors must fit an index.
pub proof fn law_indices_are_distinct(frames: Seq<Seq<i32>>, fd: i32, later: Seq<Seq<i32>>)
    requires
        frames.len() > 0,
        later.len() > 0,
        later.last().len() <= u32::MAX,
        registered(frames, fd).last().is_prefix_of(later.last()),
    ensures
        serialized(frames) is Ok,
        serialized(later) is Ok,
        serialized(frames) != serialized(later),
        deserialized(later, serialized(frames)->Ok_0) == Ok::<_, HandleError>(fd),
{
    let after = registered(frames, fd).last();
    assert(after[frames.last().len() as int] == fd);
    assert(later.last()[frames.last().len() as int] == after[frames.last().len() as int]);
}

/// Leaving IPC mode hands out the descriptors of the innermost message and restores the rest;
/// outside IPC mode it hands out nothing and changes nothing.
pub proof fn law_leaving_hands_out_the_innermost(outer: Seq<Seq<i32>>, fds: Seq<i32>)
    ensures
        innermost(outer.push(fds)) == fds,
        left(outer.push(fds)) == outer,
        innermost(Seq::empty()) == Seq::<i32>::empty(),
        left(Seq::empty()) == Seq::<Seq<i32>>::empty(),
{
    assert(outer.push(fds).drop_last() =~= outer);
}

// ---------------------------------------------------------------------------------------------
// Panics
// ---------------------------------------------------------------------------------------------

/// A panic that was raised with a text, as a literal or as a formatted message, is described by
/// exactly the characters of that text if the hook did not see it, and so is a description that
/// the hook leaves.  Any other payload has one fixed text.
pub proof fn law_panic_keeps_its_text<R>(s: &str)
    ensures
        payload_text(PanicPayload::Str(s)) == s@,
        payload_text(PanicPayload::Message(s)) == s@,
        payload_text(PanicPayload::Other) == "Box<Any>"@,
        taken(None, PanicPayload::Str(s)).message == s@,
        taken(None, PanicPayload::Message(s)).message == s@,
        taken(None, PanicPayload::Other).message == "Box<Any>"@,
        caught::<R>(None, Err(PanicPayload::Str(s))) matches Err(info) && info.message == s@,
        caught::<R>(None, Err(PanicPayload::Message(s))) matches Err(info) && info.message == s@,
{
}

/// A panic of which only a text is known is described by that text, without a location and
/// without a backtrace.
pub proof fn law_bare_panic_has_only_a_text(message: Seq<char>)
    ensures
        PanicView::bare(message).message == message,
        PanicView::bare(message).location is None,
        PanicView::bare(message).backtrace is None,
{
}

/// What the hook left in the slot is what the catcher gets, all of it, and the slot holds what
/// came last.
pub proof fn law_slot_hands_on_what_the_hook_left<R>(
    slot: Option<PanicView>,
    info: PanicView,
    payload: PanicPayload,
    rv: R,
)
    ensures
        slot_step(slot, SlotEvent::Seen(info)) == Some(info),
        slot_step(slot, SlotEvent::Reset) is None,
        slot_step(slot, SlotEvent::Taken) is None,
        taken(Some(info), payload) == info,
        caught::<R>(Some(info), Err(payload)) == Err::<R, _>(info),
        caught::<R>(slot, Ok(rv)) == Ok::<R, PanicView>(rv),
{
}

/// An optional location holds the very location.
pub proof fn law_location_view_holds_the_location(location: Option<Location>)
    ensures
        location is None <==> location_view(location) is None,
        location matches Some(l) ==> location_view(location) == Some(l@),
{
}

// ---------------------------------------------------------------------------------------------
// Bootstrapping
// ---------------------------------------------------------------------------------------------

/// The number that decimal digits denote.
pub open spec fn number(digits: Seq<u8>) -> int
    decreases digits.len(),
{
    if digits.len() == 0 {
        0
    } else {
        number(digits.drop_last()) * 10 + (digits.last() - 0x30)
    }
}

/// Whether `digits` is how `n` is usually written: decimal digits that denote it, of which the
/// first is no zero unless it is the only one.
pub open spec fn writes(digits: Seq<u8>, n: int) -> bool {
    &&& digits.len() > 0
    &&& forall|i: int| 0 <= i < digits.len() ==> 0x30 <= #[trigger] digits[i] <= 0x39
    &&& digits.len() > 1 ==> digits[0] != 0x30
    &&& number(digits) == n
}

/// A number is written with its decimal digits.
pub proof fn law_decimal_writes_the_number(n: nat)
    ensures
        writes(decimal(n), n as int),
        n > 0 ==> decimal(n)[0] != 0x30,
    decreases n,
{
    let digits = decimal(n);
    if n < 10 {
        assert(digits.drop_last() =~= seq![]);
        assert(number(digits.drop_last()) == 0);
    } else {
        law_decimal_writes_the_number(n / 10);
        assert(digits.drop_last() =~= decimal(n / 10));
        assert(digits[0] == decimal(n / 10)[0]);
    }
}

/// The name of a socket is `.rust-unix-ipc.`, the second, a dash, the random number and
/// `.sock`, in ASCII.
pub proof fn law_socket_name_is_spelled_out(secs: u64, nonce: u64)
    ensures
        exists|a: Seq<u8>, b: Seq<u8>|
            #![trigger writes(a, secs as int), writes(b, nonce as int)]
            {
                &&& writes(a, secs as int)
                &&& writes(b, nonce as int)
                &&& socket_name(secs, nonce) == seq![
                    0x2eu8, 0x72, 0x75, 0x73, 0x74, 0x2d, 0x75, 0x6e, 0x69, 0x78, 0x2d, 0x69, 0x70,
                    0x63, 0x2e,
                ] + a + seq![0x2du8] + b + seq![0x2eu8, 0x73, 0x6f, 0x63, 0x6b]
            },
{
    reveal_strlit(".rust-unix-ipc.");
    reveal_strlit("-");
    reveal_strlit(".sock");
    law_decimal_writes_the_number(secs as nat);
    law_decimal_writes_the_number(nonce as nat);
    let a = decimal(secs as nat);
    let b = decimal(nonce as nat);
    assert(writes(a, secs as int) && writes(b, nonce as int));
    assert(socket_name(secs, nonce) =~= seq![
        0x2eu8, 0x72, 0x75, 0x73, 0x74, 0x2d, 0x75, 0x6e, 0x69, 0x78, 0x2d, 0x69, 0x70, 0x63, 0x2e,
    ] + a + seq![0x2du8] + b + seq![0x2eu8, 0x73, 0x6f, 0x63, 0x6b]);
}

/// The path of an entry is the directory, a slash if the directory does not end in one already,
/// and the name.  In the empty directory it is the name alone.
pub proof fn law_entry_path_joins_with_one_slash(dir: Seq<u8>, name: Seq<u8>)
    ensures
        ({
            let path = entry_path(dir, name);
            let front = path.take(path.len() - name.len());
            &&& path == front + name
            &&& dir.is_prefix_of(front)
            &&& dir.len() == 0 ==> front.len() == 0
            &&& dir.len() > 0 ==> front.last() == 0x2f
            &&& dir.len() > 0 && dir.last() == 0x2f ==> front == dir
            &&& dir.len() > 0 && dir.last() != 0x2f ==> front.len() == dir.len() + 1
        }),
{
    let path = entry_path(dir, name);
    let front = path.take(path.len() - name.len());
    assert(path =~= front + name);
    if dir.len() == 0 || dir.last() == 0x2f {
        assert(front =~= dir);
    } else {
        assert(front =~= dir.push(0x2f));
    }
}

/// A bootstrapper is made exactly if the clock shows a time since 1970; then it is at the path
/// of the name for that second and that random number, in the directory, and nothing is
/// connected to it.
pub proof fn law_bootstrapper_is_made_at_its_path<S>(dir: Seq<u8>, secs: Option<u64>, nonce: u64)
    ensures
        made::<S>(dir, secs, nonce) is Some <==> secs is Some,
        secs matches Some(at) ==> made::<S>(dir, secs, nonce) == Some(
            BootstrapView { path: entry_path(dir, socket_name(at, nonce)), sender: None::<S> },
        ),
{
}

/// An optional bootstrapper holds the very bootstrapper.
pub proof fn law_bootstrap_view_holds_the_bootstrapper<S>(b: Option<Bootstrapper<S>>)
    ensures
        b is None <==> bootstrap_view(b) is None,
        b matches Some(it) ==> bootstrap_view(b) == Some(it@),
{
}

} // verus!
