//! Support for cross-process panic handling.
//!
//! This module provides a description of a panic ([`PanicInfo`]) that can be sent across
//! processes, and the slot ([`PanicSlot`]) in which a panic hook leaves it for the code that
//! catches the panic.
use vstd::prelude::*;

verus! {

/// `backtrace::Backtrace`, which is carried along and not looked into.
#[verifier::external_type_specification]
#[verifier::external_body]
pub struct ExBacktrace(backtrace::Backtrace);

/// Calls `backtrace::Backtrace::new`, which captures the stack of the calling thread.  What it
/// finds there depends on the running program, so nothing is claimed of the result.
#[verifier::external_body]
fn capture() -> backtrace::Backtrace {
    backtrace::Backtrace::new()
}

/// What a panic was raised with.
#[derive(Clone, Copy, Debug)]
pub enum PanicPayload<'a> {
    /// A string literal.
    Str(&'a str),
    /// A formatted message.
    Message(&'a str),
    /// Some other value.
    Other,
}

/// The text that describes a payload.
pub open spec fn payload_text(payload: PanicPayload) -> Seq<char> {
    match payload {
        PanicPayload::Str(s) => s@,
        PanicPayload::Message(s) => s@,
        PanicPayload::Other => "Box<Any>"@,
    }
}

/// Location of a panic.
///
/// This is similar to `std::panic::Location` but can cross process boundaries.
#[derive(Debug)]
pub struct Location {
    file: String,
    line: u32,
    column: u32,
}

/// What a [`Location`] holds.
pub struct LocationView {
    pub file: Seq<char>,
    pub line: u32,
    pub column: u32,
}

impl View for Location {
    type V = LocationView;

    closed spec fn view(&self) -> LocationView {
        LocationView { file: self.file@, line: self.line, column: self.column }
    }
}

impl Location {
    /// The location at `line` and `column` of `file`.
    pub fn from_std(file: &str, line: u32, column: u32) -> (r: Location)
        ensures
            r@ == (LocationView { file: file@, line, column }),
    {
        Location { file: file.to_owned(), line, column }
    }

    /// Returns the name of the source file from which the panic originated.
    pub fn file(&self) -> (r: &str)
        ensures
            r@ == self@.file,
    {
        self.file.as_str()
    }

    /// Returns the line number from which the panic originated.
    pub fn line(&self) -> (r: u32)
        ensures
            r == self@.line,
    {
        self.line
    }

    /// Returns the column from which the panic originated.
    pub fn column(&self) -> (r: u32)
        ensures
            r == self@.column,
    {
        self.column
    }
}

/// Represents a panic caught across processes.
///
/// This contains the marshalled panic information so that it can be used for other purposes.
pub struct PanicInfo {
    msg: String,
    location: Option<Location>,
    backtrace: Option<backtrace::Backtrace>,
}

/// What a [`PanicInfo`] holds.
pub struct PanicView {
    pub message: Seq<char>,
    pub location: Option<LocationView>,
    pub backtrace: Option<backtrace::Backtrace>,
}

/// What an optional location holds.
pub open spec fn location_view(location: Option<Location>) -> Option<LocationView> {
    match location {
        Some(l) => Some(l@),
        None => None,
    }
}

impl View for PanicInfo {
    type V = PanicView;

    closed spec fn view(&self) -> PanicView {
        PanicView {
            message: self.msg@,
            location: location_view(self.location),
            backtrace: self.backtrace,
        }
    }
}

impl PanicView {
    /// The panic of which only the text `message` is known.
    pub open spec fn bare(message: Seq<char>) -> PanicView {
        PanicView { message, location: None, backtrace: None }
    }
}

/// The description of a panic of which only the payload is known.
pub fn serialize_panic(payload: PanicPayload) -> (r: PanicInfo)
    ensures
        r@ == PanicView::bare(payload_text(payload)),
        r@.message == match payload {
            PanicPayload::Str(s) => s@,
            PanicPayload::Message(s) => s@,
            PanicPayload::Other => "Box<Any>"@,
        },
        r@.location is None,
        r@.backtrace is None,
{
    PanicInfo::new(
        match payload {
            PanicPayload::Str(s) => s,
            PanicPayload::Message(s) => s,
            PanicPayload::Other => "Box<Any>",
        },
    )
}

impl PanicInfo {
    /// Creates a new panic object.
    pub fn new(s: &str) -> (r: PanicInfo)
        ensures
            r@ == PanicView::bare(s@),
    {
        PanicInfo { msg: s.to_owned(), location: None, backtrace: None }
    }

    /// Creates a panic info from its parts.
    pub fn from_parts(
        msg: String,
        location: Option<Location>,
        backtrace: Option<backtrace::Backtrace>,
    ) -> (r: PanicInfo)
        ensures
            r@ == (PanicView { message: msg@, location: location_view(location), backtrace }),
    {
        PanicInfo { msg, location, backtrace }
    }

    /// Creates a panic info from what a panic hook is told.
    ///
    /// If `capture_backtrace` is set to `true` it will also capture a backtrace at the current
    /// location and assign it to the panic info object.  The function is not inlined, so that it
    /// has a frame of its own there.
    #[inline(never)]
    pub fn from_std(
        payload: PanicPayload,
        location: Option<Location>,
        capture_backtrace: bool,
    ) -> (r: PanicInfo)
        ensures
            r@.message == payload_text(payload),
            payload matches PanicPayload::Str(s) ==> r@.message == s@,
            payload matches PanicPayload::Message(s) ==> r@.message == s@,
            r@.location == location_view(location),
            r@.backtrace is Some == capture_backtrace,
    {
        let mut panic = serialize_panic(payload);
        if capture_backtrace {
            panic.backtrace = Some(capture());
        }
        panic.location = location;
        panic
    }

    /// Returns the message of the panic.
    pub fn message(&self) -> (r: &str)
        ensures
            r@ == self@.message,
    {
        self.msg.as_str()
    }

    /// Returns the panic location.
    pub fn location(&self) -> (r: Option<&Location>)
        ensures
            match r {
                Some(l) => self@.location == Some(l@),
                None => self@.location is None,
            },
    {
        self.location.as_ref()
    }

    /// Returns a reference to the backtrace.
    pub fn backtrace(&self) -> (r: Option<&backtrace::Backtrace>)
        ensures
            match r {
                Some(b) => self@.backtrace == Some(*b),
                None => self@.backtrace is None,
            },
    {
        self.backtrace.as_ref()
    }

    /// Takes the panic info apart into its message, location and backtrace.
    pub fn into_parts(self) -> (r: (String, Option<Location>, Option<backtrace::Backtrace>))
        ensures
            self@ == (PanicView {
                message: r.0@,
                location: location_view(r.1),
                backtrace: r.2,
            }),
    {
        (self.msg, self.location, self.backtrace)
    }
}

/// The panic that the hook saw last and nobody has taken yet.
pub struct PanicSlot {
    info: Option<PanicInfo>,
}

impl View for PanicSlot {
    type V = Option<PanicView>;

    closed spec fn view(&self) -> Option<PanicView> {
        match self.info {
            Some(info) => Some(info@),
            None => None,
        }
    }
}

/// The description of a caught panic: what the hook left in the slot, or, if the hook saw
/// nothing, what the payload tells.
pub open spec fn taken(slot: Option<PanicView>, payload: PanicPayload) -> PanicView {
    match slot {
        Some(info) => info,
        None => PanicView::bare(payload_text(payload)),
    }
}

/// What a function that came to `outcome` hands out, if the slot then holds `slot`: its result,
/// or the description of its panic.
pub open spec fn caught<R>(slot: Option<PanicView>, outcome: Result<R, PanicPayload>) -> Result<
    R,
    PanicView,
> {
    match outcome {
        Ok(rv) => Ok(rv),
        Err(payload) => Err(taken(slot, payload)),
    }
}

/// What can happen to a slot.
pub enum SlotEvent {
    /// It is emptied.
    Reset,
    /// The hook sees a panic and leaves this description of it.
    Seen(PanicView),
    /// The description is taken out.
    Taken,
}

/// What is in the slot after `event`.
pub open spec fn slot_step(slot: Option<PanicView>, event: SlotEvent) -> Option<PanicView> {
    match event {
        SlotEvent::Reset => None,
        SlotEvent::Seen(info) => Some(info),
        SlotEvent::Taken => None,
    }
}

/// What is in the slot after `events`, one after the other.
pub open spec fn slot_run(slot: Option<PanicView>, events: Seq<SlotEvent>) -> Option<PanicView>
    decreases events.len(),
{
    if events.len() == 0 {
        slot
    } else {
        slot_step(slot_run(slot, events.drop_last()), events.last())
    }
}

impl PanicSlot {
    /// An empty slot.
    pub fn new() -> (r: PanicSlot)
        ensures
            r@ is None,
    {
        PanicSlot { info: None }
    }
}

/// Empties the slot.
pub fn reset_panic_info(slot: &mut PanicSlot)
    ensures
        final(slot)@ is None,
        final(slot)@ == slot_step(old(slot)@, SlotEvent::Reset),
{
    slot.info = None;
}

/// Takes the description of the panic that was caught with `payload` out of the slot.
pub fn take_panic_info(slot: &mut PanicSlot, payload: PanicPayload) -> (r: PanicInfo)
    ensures
        r@ == taken(old(slot)@, payload),
        old(slot)@ matches Some(seen) ==> r@ == seen,
        old(slot)@ is None ==> {
            &&& payload matches PanicPayload::Str(s) ==> r@.message == s@
            &&& payload matches PanicPayload::Message(s) ==> r@.message == s@
            &&& r@.location is None
            &&& r@.backtrace is None
        },
        final(slot)@ is None,
        final(slot)@ == slot_step(old(slot)@, SlotEvent::Taken),
{
    match slot.info.take() {
        Some(info) => info,
        None => serialize_panic(payload),
    }
}

/// Leaves the description of a panic in the slot, where it replaces any earlier one.
pub fn panic_handler(
    slot: &mut PanicSlot,
    payload: PanicPayload,
    location: Option<Location>,
    capture_backtrace: bool,
)
    ensures
        final(slot)@ matches Some(info) && {
            &&& info.message == payload_text(payload)
            &&& payload matches PanicPayload::Str(s) ==> info.message == s@
            &&& payload matches PanicPayload::Message(s) ==> info.message == s@
            &&& info.location == location_view(location)
            &&& info.backtrace is Some == capture_backtrace
            &&& final(slot)@ == slot_step(old(slot)@, SlotEvent::Seen(info))
        },
{
    slot.info = Some(PanicInfo::from_std(payload, location, capture_backtrace));
}

/// Evaluates the call of a function that may have panicked, before which the slot was reset.
///
/// The panic info will only be fully filled if the panic hook has been installed.
pub fn catch_panic<R>(slot: &mut PanicSlot, outcome: Result<R, PanicPayload>) -> (r: Result<
    R,
    PanicInfo,
>)
    ensures
        match caught(old(slot)@, outcome) {
            Ok(rv) => r == Ok::<R, PanicInfo>(rv) && final(slot)@ == old(slot)@,
            Err(view) => r matches Err(info) && info@ == view && final(slot)@ == slot_step(
                old(slot)@,
                SlotEvent::Taken,
            ),
        },
        outcome matches Err(payload) ==> (r matches Err(info) && {
            &&& old(slot)@ matches Some(seen) ==> info@ == seen
            &&& old(slot)@ is None ==> {
                &&& payload matches PanicPayload::Str(s) ==> info@.message == s@
                &&& payload matches PanicPayload::Message(s) ==> info@.message == s@
                &&& info@.location is None
                &&& info@.backtrace is None
            }
        }),
{
    match outcome {
        Ok(rv) => Ok(rv),
        Err(payload) => Err(take_panic_info(slot, payload)),
    }
}

} // verus!
