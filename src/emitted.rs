//! What a command handler hands back: events to emit and a response.
use crate::aggregate::AggregateContext;
use crate::error::WorkerError;
use crate::messages::SerializedObject;
use crate::sourcing::pending_view;
use vstd::prelude::*;

verus! {

/// The events to emit, already serialized, and the response to the caller.
#[derive(Clone, Debug)]
pub struct EmitEventsAndResponse {
    events: Vec<SerializedObject>,
    response: Option<SerializedObject>,
}

impl EmitEventsAndResponse {
    pub closed spec fn events_len(&self) -> nat {
        self.events@.len()
    }

    pub closed spec fn response_view(&self) -> Option<SerializedObject> {
        self.response
    }

    /// A result that carries only `response`.
    pub fn with_response(response: Option<SerializedObject>) -> (r: Self)
        ensures
            r.events_len() == 0,
            r.response_view() == response,
    {
        EmitEventsAndResponse { events: Vec::new(), response }
    }

    /// The response, handing the result over.
    pub fn into_response(self) -> (r: Option<SerializedObject>)
        ensures
            r == self.response_view(),
    {
        self.response
    }
}

/// The events to emit, each a type name and its encoded data, in order, and the
/// response to the caller.
#[derive(Clone, Debug)]
pub struct EmitApplicableEventsAndResponse {
    events: Vec<(String, Vec<u8>)>,
    response: Option<SerializedObject>,
}

impl EmitApplicableEventsAndResponse {
    /// The events `(type, data)`, in the order of emission.
    pub closed spec fn events_view(&self) -> Seq<(Seq<char>, Seq<u8>)> {
        pending_view(self.events@)
    }

    pub closed spec fn response_view(&self) -> Option<SerializedObject> {
        self.response
    }

    /// The number of events.
    pub fn len(&self) -> (r: usize)
        ensures
            r == self.events_view().len(),
    {
        self.events.len()
    }
}

/// A holder without events and without a response, for a handler to add events to.
pub fn emit_events() -> (r: EmitApplicableEventsAndResponse)
    ensures
        r.events_view() == Seq::<(Seq<char>, Seq<u8>)>::empty(),
        r.response_view() is None,
{
    let r = EmitApplicableEventsAndResponse { events: Vec::new(), response: None };
    assert(r.events_view() =~= Seq::<(Seq<char>, Seq<u8>)>::empty());
    r
}

/// A holder without events whose response is `data`, encoded, of type `response_type`.
pub fn emit_events_and_response(response_type: &str, data: Vec<u8>) -> (r: Result<
    EmitApplicableEventsAndResponse,
    WorkerError,
>)
    ensures
        r matches Ok(h) && h.events_view() == Seq::<(Seq<char>, Seq<u8>)>::empty() && (h.response_view() matches Some(
            p,
        ) && p.payload_type@ == response_type@ && p.revision@ == Seq::<char>::empty() && p.data@ == data@),
{
    let response = SerializedObject { payload_type: response_type.to_owned(), revision: String::new(), data };
    let r = EmitApplicableEventsAndResponse { events: Vec::new(), response: Some(response) };
    assert(r.events_view() =~= Seq::<(Seq<char>, Seq<u8>)>::empty());
    Ok(r)
}

/// Adds an event to be emitted to `holder`. Never fails.
pub fn emit(holder: &mut EmitApplicableEventsAndResponse, event_type: &str, event: Vec<u8>) -> (r: Result<
    (),
    WorkerError,
>)
    ensures
        r is Ok,
        final(holder).events_view() == old(holder).events_view().push((event_type@, event@)),
        final(holder).response_view() == old(holder).response_view(),
{
    let ghost before = holder.events@;
    holder.events.push((event_type.to_owned(), event));
    assert(pending_view(holder.events@) =~= pending_view(before).push((event_type@, event@)));
    Ok(())
}

impl AggregateContext {
    /// Emits, in order, the events of `holder` and hands back its response.
    pub fn emit_all(&mut self, holder: EmitApplicableEventsAndResponse) -> (r: Option<SerializedObject>)
        requires
            old(self).wf(),
        ensures
            final(self).wf(),
            final(self).pending() == old(self).pending() + holder.events_view(),
            final(self).aggregate_id() == old(self).aggregate_id(),
            final(self).projection() == old(self).projection(),
            final(self).seq() == old(self).seq(),
            r == holder.response_view(),
    {
        let EmitApplicableEventsAndResponse { events, response } = holder;
        let ghost all = pending_view(events@);
        let mut i: usize = 0;
        while i < events.len()
            invariant
                self.wf(),
                i <= events@.len(),
                all == pending_view(events@),
                self.pending() == old(self).pending() + all.subrange(0, i as int),
                self.aggregate_id() == old(self).aggregate_id(),
                self.projection() == old(self).projection(),
                self.seq() == old(self).seq(),
            decreases events@.len() - i,
        {
            let _ = self.emit(events[i].0.as_str(), crate::messages::copy_bytes(&events[i].1));
            assert(all.subrange(0, i as int + 1) =~= all.subrange(0, i as int).push(all[i as int]));
            i += 1;
        }
        assert(all.subrange(0, events@.len() as int) =~= all);
        response
    }
}

} // verus!
