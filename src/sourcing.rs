//! Folding events into a projection through the sourcing handlers.
use crate::error::WorkerError;
use crate::handler_registry::{HandlerOutcome, OutputMapping, SubscriptionHandle, TheHandlerRegistry};
use crate::messages::{copy_bytes, Event};
use vstd::prelude::*;

verus! {

/// The projection after a sourcing handler returned `r`: the new projection, or the
/// one before where the handler left it unchanged.
pub open spec fn sourced(r: Option<Vec<u8>>, before: Seq<u8>) -> Seq<u8> {
    match r {
        Some(q) => q@,
        None => before,
    }
}

/// The projection after a sourcing handler registered with `output` returned `r`: a
/// handler whose result is ignored leaves the projection as it was.
pub open spec fn sourced_by(output: OutputMapping, r: Option<Vec<u8>>, before: Seq<u8>) -> Seq<u8> {
    match output {
        OutputMapping::Ignore => before,
        _ => sourced(r, before),
    }
}

/// One event `(type, data)` taken into a projection: a sourcing handler is registered
/// for the event's type, and applied to the data and the projection `before` it
/// returned what gives `after`, as the handler's output mapping hands it back.
pub open spec fn source_step<H, F: Fn(&H, &Vec<u8>, &Vec<u8>) -> Result<Option<Vec<u8>>, String>>(
    apply: F,
    handlers: Map<Seq<char>, SubscriptionHandle<H>>,
    event: (Seq<char>, Seq<u8>),
    before: Seq<u8>,
    after: Seq<u8>,
) -> bool {
    &&& handlers.contains_key(event.0)
    &&& exists|data: Vec<u8>, p: Vec<u8>, r: Option<Vec<u8>>|
        data@ == event.1 && p@ == before && #[trigger] apply.ensures((&handlers[event.0].handler, &data, &p), Ok(r))
            && after == sourced_by(handlers[event.0].output, r, before)
}

/// Folding `events`, in order, into the projection `start` gives `end`.
pub open spec fn sources_to<H, F: Fn(&H, &Vec<u8>, &Vec<u8>) -> Result<Option<Vec<u8>>, String>>(
    apply: F,
    handlers: Map<Seq<char>, SubscriptionHandle<H>>,
    events: Seq<(Seq<char>, Seq<u8>)>,
    start: Seq<u8>,
    end: Seq<u8>,
) -> bool
    decreases events.len(),
{
    if events.len() == 0 {
        end == start
    } else {
        exists|mid: Seq<u8>|
            sources_to(apply, handlers, events.drop_last(), start, mid) && #[trigger] source_step(
                apply,
                handlers,
                events.last(),
                mid,
                end,
            )
    }
}

/// Folding the events of one stream in two parts is folding the whole stream: the
/// projection reached from the events persisted so far, taken further through the
/// events persisted next, is a projection that the whole history folds to.
pub proof fn lemma_replay_determinism<H, F: Fn(&H, &Vec<u8>, &Vec<u8>) -> Result<Option<Vec<u8>>, String>>(
    apply: F,
    handlers: Map<Seq<char>, SubscriptionHandle<H>>,
    persisted: Seq<(Seq<char>, Seq<u8>)>,
    appended: Seq<(Seq<char>, Seq<u8>)>,
    start: Seq<u8>,
    mid: Seq<u8>,
    end: Seq<u8>,
)
    requires
        sources_to(apply, handlers, persisted, start, mid),
        sources_to(apply, handlers, appended, mid, end),
    ensures
        sources_to(apply, handlers, persisted + appended, start, end),
    decreases appended.len(),
{
    if appended.len() == 0 {
        assert(persisted + appended =~= persisted);
    } else {
        let m2 = choose|m2: Seq<u8>|
            sources_to(apply, handlers, appended.drop_last(), mid, m2) && #[trigger] source_step(
                apply,
                handlers,
                appended.last(),
                m2,
                end,
            );
        lemma_replay_determinism(apply, handlers, persisted, appended.drop_last(), start, mid, m2);
        let all = persisted + appended;
        assert(all.drop_last() =~= persisted + appended.drop_last());
        assert(all.last() == appended.last());
    }
}

/// The `(type, data)` pairs of emitted events.
pub open spec fn pending_view(s: Seq<(String, Vec<u8>)>) -> Seq<(Seq<char>, Seq<u8>)> {
    s.map_values(|e: (String, Vec<u8>)| (e.0@, e.1@))
}

/// The `(type, data)` pairs of the events of a history that carry a payload, in order.
pub open spec fn history_view(h: Seq<Event>) -> Seq<(Seq<char>, Seq<u8>)>
    decreases h.len(),
{
    if h.len() == 0 {
        Seq::empty()
    } else {
        match h.last().payload {
            Some(p) => history_view(h.drop_last()).push((p.payload_type@, p.data@)),
            None => history_view(h.drop_last()),
        }
    }
}

/// The sourcing handlers never fail.
pub open spec fn never_fails<H, F: Fn(&H, &Vec<u8>, &Vec<u8>) -> Result<Option<Vec<u8>>, String>>(apply: F) -> bool {
    forall|h: &H, d: &Vec<u8>, p: &Vec<u8>, r: Result<Option<Vec<u8>>, String>|
        #[trigger] apply.ensures((h, d, p), r) ==> r is Ok
}

/// Every event type that occurs in `events` has a sourcing handler.
pub open spec fn all_sourced<H>(handlers: Map<Seq<char>, SubscriptionHandle<H>>, events: Seq<(Seq<char>, Seq<u8>)>) -> bool {
    forall|i: int| 0 <= i < events.len() ==> handlers.contains_key(#[trigger] events[i].0)
}

/// What an error of a fold tells: a missing sourcing handler names a type that occurs
/// and has none; the only other error is the handler error that carries the text a
/// sourcing handler failed with.
pub open spec fn fold_error<H, F: Fn(&H, &Vec<u8>, &Vec<u8>) -> Result<Option<Vec<u8>>, String>>(
    apply: F,
    handlers: Map<Seq<char>, SubscriptionHandle<H>>,
    events: Seq<(Seq<char>, Seq<u8>)>,
    e: WorkerError,
) -> bool {
    match e {
        WorkerError::MissingSourcingHandler { event_type } => {
            &&& !handlers.contains_key(event_type@)
            &&& exists|i: int| 0 <= i < events.len() && (#[trigger] events[i]).0 == event_type@
        },
        WorkerError::HandlerError { message } => exists|h: &H, d: &Vec<u8>, p: &Vec<u8>|
            #[trigger] apply.ensures((h, d, p), Err::<Option<Vec<u8>>, String>(message)),
        _ => false,
    }
}

/// A call that failed with `message` is a witness that the handlers can fail so.
proof fn lemma_failed_call<H, F: Fn(&H, &Vec<u8>, &Vec<u8>) -> Result<Option<Vec<u8>>, String>>(
    apply: F,
    h: &H,
    d: &Vec<u8>,
    p: &Vec<u8>,
    message: String,
)
    requires
        apply.ensures((h, d, p), Err::<Option<Vec<u8>>, String>(message)),
    ensures
        exists|h2: &H, d2: &Vec<u8>, p2: &Vec<u8>|
            #[trigger] apply.ensures((h2, d2, p2), Err::<Option<Vec<u8>>, String>(message)),
{
}

/// Takes one event into `current` through the sourcing handler of its type.
pub fn source_one<H, F: Fn(&H, &Vec<u8>, &Vec<u8>) -> Result<Option<Vec<u8>>, String>>(
    handlers: &TheHandlerRegistry<H>,
    event_type: &String,
    data: &Vec<u8>,
    current: Vec<u8>,
    apply: &F,
) -> (r: Result<Vec<u8>, WorkerError>)
    requires
        handlers.wf(),
        forall|h: &H, d: &Vec<u8>, p: &Vec<u8>| #[trigger] apply.requires((h, d, p)),
    ensures
        r matches Ok(q) ==> source_step(*apply, handlers@, (event_type@, data@), current@, q@),
        r matches Err(e) ==> fold_error(*apply, handlers@, seq![(event_type@, data@)], e),
        handlers@.contains_key(event_type@) ==> !(r matches Err(WorkerError::MissingSourcingHandler { .. })),
        handlers@.contains_key(event_type@) && never_fails(*apply) ==> r is Ok,
{
    match handlers.get(event_type.as_str()) {
        None => {
            let t = event_type.clone();
            let ghost events = seq![(event_type@, data@)];
            assert(events[0].0 == t@);
            assert(fold_error(*apply, handlers@, events, WorkerError::MissingSourcingHandler { event_type: t }));
            Err(WorkerError::MissingSourcingHandler { event_type: t })
        },
        Some(handle) => {
            let out = apply(&handle.handler, data, &current);
            match out {
                Ok(out) => match handle.resolve(out) {
                    HandlerOutcome::NoOutput => Ok(current),
                    HandlerOutcome::Output(q) => Ok(q),
                    HandlerOutcome::Convert { value, .. } => Ok(value),
                },
                Err(message) => {
                    proof {
                        lemma_failed_call(*apply, &handle.handler, data, &current, message);
                        let e = WorkerError::HandlerError { message };
                        assert(e matches WorkerError::HandlerError { message: m } && m == message);
                        assert(fold_error(*apply, handlers@, seq![(event_type@, data@)], e));
                    }
                    Err(WorkerError::HandlerError { message })
                },
            }
        },
    }
}

/// Folds emitted events `(type, data)`, in order, into `start`.
pub fn source_events<H, F: Fn(&H, &Vec<u8>, &Vec<u8>) -> Result<Option<Vec<u8>>, String>>(
    handlers: &TheHandlerRegistry<H>,
    events: &Vec<(String, Vec<u8>)>,
    start: Vec<u8>,
    apply: &F,
) -> (r: Result<Vec<u8>, WorkerError>)
    requires
        handlers.wf(),
        forall|h: &H, d: &Vec<u8>, p: &Vec<u8>| #[trigger] apply.requires((h, d, p)),
    ensures
        r matches Ok(q) ==> sources_to(*apply, handlers@, pending_view(events@), start@, q@),
        r matches Err(e) ==> fold_error(*apply, handlers@, pending_view(events@), e),
        all_sourced(handlers@, pending_view(events@)) ==> !(r matches Err(
            WorkerError::MissingSourcingHandler { .. },
        )),
        all_sourced(handlers@, pending_view(events@)) && never_fails(*apply) ==> r is Ok,
{
    let ghost all = pending_view(events@);
    let ghost start_view = start@;
    let mut current = start;
    let mut i: usize = 0;
    assert(all.subrange(0, 0) =~= Seq::<(Seq<char>, Seq<u8>)>::empty());
    while i < events.len()
        invariant
            handlers.wf(),
            forall|h: &H, d: &Vec<u8>, p: &Vec<u8>| #[trigger] apply.requires((h, d, p)),
            all == pending_view(events@),
            i <= events@.len(),
            sources_to(*apply, handlers@, all.subrange(0, i as int), start_view, current@),
        decreases events@.len() - i,
    {
        let ghost before = current@;
        match source_one(handlers, &events[i].0, &events[i].1, current, apply) {
            Ok(q) => {
                proof {
                    let pre = all.subrange(0, i as int + 1);
                    assert(pre.drop_last() =~= all.subrange(0, i as int));
                    assert(pre.last() == all[i as int]);
                    assert(source_step(*apply, handlers@, pre.last(), before, q@));
                }
                current = q;
            },
            Err(e) => {
                proof {
                    assert(all[i as int] == (events@[i as int].0@, events@[i as int].1@));
                    let one = seq![(events@[i as int].0@, events@[i as int].1@)];
                    assert(one[0] == all[i as int]);
                }
                return Err(e);
            },
        }
        i += 1;
    }
    assert(all.subrange(0, events@.len() as int) =~= all);
    Ok(current)
}

/// The sequence number after a history: that of its last event, or -1 for none.
pub open spec fn last_sequence(h: Seq<Event>) -> i64 {
    if h.len() == 0 {
        -1i64
    } else {
        h.last().aggregate_sequence_number
    }
}

/// Folds the payloads of a history, in order, into `start`; events without a payload
/// change nothing. Gives the last sequence number and the projection.
pub fn replay_history<H, F: Fn(&H, &Vec<u8>, &Vec<u8>) -> Result<Option<Vec<u8>>, String>>(
    handlers: &TheHandlerRegistry<H>,
    history: &Vec<Event>,
    start: Vec<u8>,
    apply: &F,
) -> (r: Result<(i64, Vec<u8>), WorkerError>)
    requires
        handlers.wf(),
        forall|h: &H, d: &Vec<u8>, p: &Vec<u8>| #[trigger] apply.requires((h, d, p)),
    ensures
        r matches Ok((s, q)) ==> s == last_sequence(history@) && sources_to(
            *apply,
            handlers@,
            history_view(history@),
            start@,
            q@,
        ),
        r matches Err(e) ==> fold_error(*apply, handlers@, history_view(history@), e),
        all_sourced(handlers@, history_view(history@)) ==> !(r matches Err(
            WorkerError::MissingSourcingHandler { .. },
        )),
        all_sourced(handlers@, history_view(history@)) && never_fails(*apply) ==> r is Ok,
{
    let ghost start_view = start@;
    let mut current = start;
    let mut seq: i64 = -1;
    let mut i: usize = 0;
    assert(history@.subrange(0, 0) =~= Seq::<Event>::empty());
    while i < history.len()
        invariant
            handlers.wf(),
            forall|h: &H, d: &Vec<u8>, p: &Vec<u8>| #[trigger] apply.requires((h, d, p)),
            i <= history@.len(),
            seq == last_sequence(history@.subrange(0, i as int)),
            sources_to(*apply, handlers@, history_view(history@.subrange(0, i as int)), start_view, current@),
            forall|k: int| 0 <= k < history_view(history@.subrange(0, i as int)).len() ==>
                #[trigger] history_view(history@.subrange(0, i as int))[k] == history_view(history@)[k],
            history_view(history@.subrange(0, i as int)).len() <= history_view(history@).len(),
        decreases history@.len() - i,
    {
        let ghost prefix = history@.subrange(0, i as int);
        let ghost next = history@.subrange(0, i as int + 1);
        proof {
            assert(next.drop_last() =~= prefix);
            assert(next.last() == history@[i as int]);
            lemma_history_view_prefix(history@, i as int + 1);
        }
        let event = &history[i];
        match &event.payload {
            Some(payload) => {
                let ghost before = current@;
                match source_one(handlers, &payload.payload_type, &payload.data, current, apply) {
                    Ok(q) => {
                        proof {
                            let v = history_view(next);
                            assert(v.drop_last() =~= history_view(prefix));
                            assert(source_step(*apply, handlers@, v.last(), before, q@));
                        }
                        current = q;
                    },
                    Err(e) => {
                        proof {
                            let k = history_view(prefix).len() as int;
                            assert(history_view(next)[k] == history_view(history@)[k]);
                        }
                        return Err(e);
                    },
                }
            },
            None => {
                assert(history_view(next) =~= history_view(prefix));
            },
        }
        seq = event.aggregate_sequence_number;
        i += 1;
    }
    assert(history@.subrange(0, history@.len() as int) =~= history@);
    Ok((seq, current))
}

/// The view of a prefix of a history is a prefix of the view of the history.
proof fn lemma_history_view_prefix(h: Seq<Event>, n: int)
    requires
        0 <= n <= h.len(),
    ensures
        history_view(h.subrange(0, n)).len() <= history_view(h).len(),
        forall|k: int| 0 <= k < history_view(h.subrange(0, n)).len() ==>
            #[trigger] history_view(h.subrange(0, n))[k] == history_view(h)[k],
    decreases h.len() - n,
{
    if n < h.len() {
        lemma_history_view_prefix(h, n + 1);
        let a = h.subrange(0, n);
        let b = h.subrange(0, n + 1);
        assert(b.drop_last() =~= a);
        assert forall|k: int| 0 <= k < history_view(a).len() implies #[trigger] history_view(a)[k]
            == history_view(b)[k] by {
            match b.last().payload {
                Some(p) => assert(history_view(b) == history_view(a).push((p.payload_type@, p.data@))),
                None => assert(history_view(b) == history_view(a)),
            }
        }
    } else {
        assert(h.subrange(0, n) =~= h);
    }
}

} // verus!
