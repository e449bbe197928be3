//! Server-sent events: the event format and the channel between a handler
//! and the connection that streams its events.
use vstd::prelude::*;
use crate::text::{push_str, to_owned_string};

verus! {

/// One server-sent event.
#[derive(Debug)]
pub struct SseEvent {
    pub event: Option<String>,
    pub data: String,
    pub id: Option<String>,
}

/// The optional text of an optional string.
pub open spec fn opt_view(o: Option<String>) -> Option<Seq<char>> {
    match o {
        Some(s) => Some(s@),
        None => None,
    }
}

/// The wire form of an event: `id:` and `event:` lines when present, then the
/// `data:` line and a blank line.
pub open spec fn sse_text(id: Option<Seq<char>>, event: Option<Seq<char>>, data: Seq<char>) -> Seq<
    char,
> {
    (match id {
        Some(i) => "id: "@ + i + "\n"@,
        None => Seq::empty(),
    }) + (match event {
        Some(e) => "event: "@ + e + "\n"@,
        None => Seq::empty(),
    }) + "data: "@ + data + "\n\n"@
}

impl SseEvent {
    /// An event that carries only data.
    pub fn data(data: &str) -> (r: Self)
        ensures
            r.data@ == data@,
            r.event is None,
            r.id is None,
    {
        SseEvent { event: None, data: to_owned_string(data), id: None }
    }

    /// Names the event.
    pub fn event(self, event: &str) -> (r: Self)
        ensures
            r.data@ == self.data@,
            opt_view(r.event) == Some(event@),
            opt_view(r.id) == opt_view(self.id),
    {
        SseEvent { event: Some(to_owned_string(event)), data: self.data, id: self.id }
    }

    /// Gives the event an id.
    pub fn id(self, id: &str) -> (r: Self)
        ensures
            r.data@ == self.data@,
            opt_view(r.event) == opt_view(self.event),
            opt_view(r.id) == Some(id@),
    {
        SseEvent { event: self.event, data: self.data, id: Some(to_owned_string(id)) }
    }

    /// The event in wire form.
    pub fn format(&self) -> (r: String)
        ensures
            r@ == sse_text(opt_view(self.id), opt_view(self.event), self.data@),
    {
        let mut s = String::new();
        match &self.id {
            Some(id) => {
                push_str(&mut s, "id: ");
                push_str(&mut s, id.as_str());
                push_str(&mut s, "\n");
            },
            None => {},
        }
        let ghost after_id = s@;
        match &self.event {
            Some(ev) => {
                push_str(&mut s, "event: ");
                push_str(&mut s, ev.as_str());
                push_str(&mut s, "\n");
            },
            None => {},
        }
        push_str(&mut s, "data: ");
        push_str(&mut s, self.data.as_str());
        push_str(&mut s, "\n\n");
        assert(s@ =~= sse_text(opt_view(self.id), opt_view(self.event), self.data@));
        s
    }
}

#[verifier::external_type_specification]
#[verifier::external_body]
#[verifier::reject_recursive_types(T)]
pub struct ExMpscSender<T>(tokio::sync::mpsc::Sender<T>);

#[verifier::external_type_specification]
#[verifier::external_body]
#[verifier::reject_recursive_types(T)]
pub struct ExMpscReceiver<T>(tokio::sync::mpsc::Receiver<T>);

/// The bound of a receiver's channel (`Receiver::max_capacity`).
pub uninterp spec fn sse_receiver_bound(r: tokio::sync::mpsc::Receiver<SseEvent>) -> nat;

/// The bound of a sender's channel (`Sender::max_capacity`).
pub uninterp spec fn sse_sender_bound(s: tokio::sync::mpsc::Sender<SseEvent>) -> nat;

/// `tokio::sync::mpsc::channel`: a bounded channel holding up to `cap`
/// events; both ends report `cap` as their `max_capacity`, which stays
/// fixed for the channel's life. Tokio panics on a capacity of 0 or above
/// `usize::MAX >> 3`, so the capacity is kept within what a 32-bit target
/// allows. That the two ends belong to one channel, and what waits in it,
/// is not stated.
#[verifier::external_body]
fn event_channel(cap: usize) -> (r: (
    tokio::sync::mpsc::Sender<SseEvent>,
    tokio::sync::mpsc::Receiver<SseEvent>,
))
    requires
        0 < cap <= 0x1fff_ffff,
    ensures
        sse_receiver_bound(r.1) == cap,
        sse_sender_bound(r.0) == cap,
{
    tokio::sync::mpsc::channel(cap)
}

/// The sending side, held by a handler.
#[derive(Debug)]
pub struct SseStream {
    pub sender: tokio::sync::mpsc::Sender<SseEvent>,
}

/// The receiving side, held by the connection.
#[derive(Debug)]
pub struct SseReceiver {
    pub rx: tokio::sync::mpsc::Receiver<SseEvent>,
}

/// How many events may wait in a channel before the sender waits.
pub const SSE_CHANNEL_CAPACITY: usize = 128;

/// A new event channel: the receiver for the response, the stream for the
/// handler; it holds up to `SSE_CHANNEL_CAPACITY` events.
pub fn sse_channel() -> (r: (SseReceiver, SseStream))
    ensures
        sse_receiver_bound(r.0.rx) == SSE_CHANNEL_CAPACITY,
        sse_sender_bound(r.1.sender) == SSE_CHANNEL_CAPACITY,
{
    let (tx, rx) = event_channel(SSE_CHANNEL_CAPACITY);
    (SseReceiver { rx }, SseStream { sender: tx })
}

} // verus!
