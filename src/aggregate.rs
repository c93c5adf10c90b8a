//! Aggregate definitions, the per-command context in which a handler runs, and the
//! handling of one command around that handler.
use crate::cache::{value_view, ProjectionCache};
use crate::error::WorkerError;
use crate::handler_registry::{SubscriptionHandle, TheHandlerRegistry};
use crate::messages::{copy_bytes, is_canonical_uuid_v4, new_message_id, Command, Event, SerializedObject};
use crate::sourcing::{
    all_sourced, fold_error, history_view, never_fails, last_sequence, pending_view, replay_history, source_events, sources_to, lemma_replay_determinism,
};
use vstd::prelude::*;

verus! {

/// How many aggregates of one type the projection cache holds.
pub const CACHE_CAPACITY: usize = 1024;

/// The complete definition of an aggregate type: its name, its empty projection, the
/// handlers of its commands and of its events, and its projection cache.
pub struct AggregateDefinition<H> {
    projection_name: String,
    empty_projection: Vec<u8>,
    command_handler_registry: TheHandlerRegistry<H>,
    sourcing_handler_registry: TheHandlerRegistry<H>,
    cache: ProjectionCache,
}

/// Creates an aggregate definition with an empty cache.
pub fn create_aggregate_definition<H>(
    projection_name: String,
    empty_projection: Vec<u8>,
    command_handler_registry: TheHandlerRegistry<H>,
    sourcing_handler_registry: TheHandlerRegistry<H>,
) -> (r: AggregateDefinition<H>)
    requires
        command_handler_registry.wf(),
        sourcing_handler_registry.wf(),
    ensures
        r.wf(),
        r.name_view() == projection_name@,
        r.empty_view() == empty_projection@,
        r.command_handlers() == command_handler_registry,
        r.sourcing_handlers() == sourcing_handler_registry,
        forall|id: Seq<char>| #[trigger] r.cache().cached(id) is None,
        r.cache().capacity() == CACHE_CAPACITY,
{
    create_aggregate_definition_with_cache_capacity(
        projection_name,
        empty_projection,
        command_handler_registry,
        sourcing_handler_registry,
        CACHE_CAPACITY,
    )
}

/// Creates an aggregate definition whose empty cache holds at most `cache_capacity`
/// aggregates.
pub fn create_aggregate_definition_with_cache_capacity<H>(
    projection_name: String,
    empty_projection: Vec<u8>,
    command_handler_registry: TheHandlerRegistry<H>,
    sourcing_handler_registry: TheHandlerRegistry<H>,
    cache_capacity: usize,
) -> (r: AggregateDefinition<H>)
    requires
        command_handler_registry.wf(),
        sourcing_handler_registry.wf(),
        cache_capacity > 0,
    ensures
        r.wf(),
        r.name_view() == projection_name@,
        r.empty_view() == empty_projection@,
        r.command_handlers() == command_handler_registry,
        r.sourcing_handlers() == sourcing_handler_registry,
        forall|id: Seq<char>| #[trigger] r.cache().cached(id) is None,
        r.cache().capacity() == cache_capacity,
{
    AggregateDefinition {
        projection_name,
        empty_projection,
        command_handler_registry,
        sourcing_handler_registry,
        cache: ProjectionCache::new(cache_capacity),
    }
}

impl<H> AggregateDefinition<H> {
    pub closed spec fn wf(&self) -> bool {
        &&& self.command_handler_registry.wf()
        &&& self.sourcing_handler_registry.wf()
        &&& self.cache.wf()
        &&& self.cache.capacity() > 0
    }

    pub closed spec fn name_view(&self) -> Seq<char> {
        self.projection_name@
    }

    pub closed spec fn empty_view(&self) -> Seq<u8> {
        self.empty_projection@
    }

    pub closed spec fn command_handlers(&self) -> TheHandlerRegistry<H> {
        self.command_handler_registry
    }

    pub closed spec fn sourcing_handlers(&self) -> TheHandlerRegistry<H> {
        self.sourcing_handler_registry
    }

    pub closed spec fn cache(&self) -> ProjectionCache {
        self.cache
    }

    pub proof fn lemma_wf(&self)
        requires
            self.wf(),
        ensures
            self.command_handlers().wf(),
            self.sourcing_handlers().wf(),
    {
    }

    /// Everything but the cache is as in `other`.
    pub open spec fn same_but_cache(&self, other: &Self) -> bool {
        &&& self.name_view() == other.name_view()
        &&& self.empty_view() == other.empty_view()
        &&& self.command_handlers() == other.command_handlers()
        &&& self.sourcing_handlers() == other.sourcing_handlers()
    }

    /// The name of the aggregate type.
    pub fn name(&self) -> (r: String)
        ensures
            r@ == self.name_view(),
    {
        self.projection_name.clone()
    }

    /// The names of the commands this aggregate handles, in the order of registration.
    pub fn command_names(&self) -> (r: Vec<String>)
        ensures
            r@.len() == self.command_handlers().names().len(),
            forall|i: int| 0 <= i < r@.len() ==> #[trigger] r@[i]@ == self.command_handlers().names()[i],
    {
        self.command_handler_registry.names_in_order()
    }

    /// The registry of the sourcing handlers.
    pub fn sourcing_handler_registry(&self) -> (r: &TheHandlerRegistry<H>)
        ensures
            *r == self.sourcing_handlers(),
    {
        &self.sourcing_handler_registry
    }

    /// The handler of command `name`.
    pub fn command_handler(&self, name: &str) -> (r: Option<&SubscriptionHandle<H>>)
        requires
            self.wf(),
        ensures
            r matches Some(h) ==> self.command_handlers()@.contains_key(name@) && *h
                == self.command_handlers()@[name@],
            r is None <==> !self.command_handlers()@.contains_key(name@),
    {
        self.command_handler_registry.get(name)
    }

    /// A fresh context for one command: nothing emitted, no aggregate chosen, the empty
    /// projection, sequence number -1.
    pub fn new_context(&self) -> (r: AggregateContext)
        ensures
            r.wf(),
            r.pending() == Seq::<(Seq<char>, Seq<u8>)>::empty(),
            r.aggregate_id() is None,
            r.projection() == self.empty_view(),
            r.seq() == -1,
    {
        let r = AggregateContext {
            events: Vec::new(),
            aggregate_id: None,
            projection: copy_bytes(&self.empty_projection),
            seq: -1,
        };
        assert(pending_view(r.events@) =~= Seq::<(Seq<char>, Seq<u8>)>::empty());
        r
    }
}

/// The scratch space of one command: the events emitted so far, the aggregate they
/// belong to once the handler has asked for its projection, that projection and the
/// sequence number of the last event it includes.
#[derive(Clone, Debug)]
pub struct AggregateContext {
    events: Vec<(String, Vec<u8>)>,
    aggregate_id: Option<String>,
    projection: Vec<u8>,
    seq: i64,
}

impl AggregateContext {
    /// No aggregate chosen yet means nothing loaded yet.
    pub open spec fn wf(&self) -> bool {
        self.aggregate_id() is None ==> self.seq() == -1
    }

    /// The emitted events `(type, data)`, in order.
    pub closed spec fn pending(&self) -> Seq<(Seq<char>, Seq<u8>)> {
        pending_view(self.events@)
    }

    pub closed spec fn aggregate_id(&self) -> Option<Seq<char>> {
        match self.aggregate_id {
            Some(id) => Some(id@),
            None => None,
        }
    }

    pub closed spec fn projection(&self) -> Seq<u8> {
        self.projection@
    }

    pub closed spec fn seq(&self) -> i64 {
        self.seq
    }

    /// Records an event to be emitted. Never fails.
    pub fn emit(&mut self, event_type: &str, event: Vec<u8>) -> (r: Result<(), WorkerError>)
        requires
            old(self).wf(),
        ensures
            r is Ok,
            final(self).wf(),
            final(self).pending() == old(self).pending().push((event_type@, event@)),
            final(self).aggregate_id() == old(self).aggregate_id(),
            final(self).projection() == old(self).projection(),
            final(self).seq() == old(self).seq(),
    {
        let ghost before = self.events@;
        self.events.push((event_type.to_owned(), event));
        assert(pending_view(self.events@) =~= pending_view(before).push((event_type@, event@)));
        Ok(())
    }

    /// A copy of the context: the same events, aggregate, projection and sequence number.
    pub fn duplicate(&self) -> (r: AggregateContext)
        ensures
            r.pending() == self.pending(),
            r.aggregate_id() == self.aggregate_id(),
            r.projection() == self.projection(),
            r.seq() == self.seq(),
    {
        let mut events: Vec<(String, Vec<u8>)> = Vec::new();
        let mut i: usize = 0;
        while i < self.events.len()
            invariant
                i <= self.events@.len(),
                pending_view(events@) == pending_view(self.events@).subrange(0, i as int),
            decreases self.events@.len() - i,
        {
            let ghost before = events@;
            events.push((self.events[i].0.clone(), copy_bytes(&self.events[i].1)));
            assert(pending_view(events@) =~= pending_view(before).push(pending_view(self.events@)[i as int]));
            assert(pending_view(self.events@).subrange(0, i as int + 1) =~= pending_view(self.events@).subrange(
                0,
                i as int,
            ).push(pending_view(self.events@)[i as int]));
            i += 1;
        }
        assert(pending_view(self.events@).subrange(0, self.events@.len() as int) =~= pending_view(self.events@));
        let aggregate_id = match &self.aggregate_id {
            Some(id) => Some(id.clone()),
            None => None,
        };
        AggregateContext { events, aggregate_id, projection: copy_bytes(&self.projection), seq: self.seq }
    }

    /// The number of emitted events.
    pub fn pending_len(&self) -> (r: usize)
        ensures
            r == self.pending().len(),
    {
        self.events.len()
    }

    /// The sequence number of the last event in the projection, -1 for none.
    pub fn last_seq(&self) -> (r: i64)
        ensures
            r == self.seq(),
    {
        self.seq
    }

    /// The aggregate the handler asked for, if any.
    pub fn get_aggregate_id(&self) -> (r: Option<String>)
        ensures
            r matches Some(s) ==> self.aggregate_id() == Some(s@),
            r is None <==> self.aggregate_id() is None,
    {
        match &self.aggregate_id {
            Some(id) => Some(id.clone()),
            None => None,
        }
    }
}

/// The aggregate, projection and sequence number of two contexts agree.
pub open spec fn same_materialisation(a: AggregateContext, b: AggregateContext) -> bool {
    &&& a.aggregate_id() == b.aggregate_id()
    &&& a.projection() == b.projection()
    &&& a.seq() == b.seq()
}

impl AggregateContext {
    /// Fails with `InconsistentAggregateId` where the context already belongs to an
    /// aggregate other than `aggregate_id`.
    fn check_aggregate_id(&self, aggregate_id: &str) -> (r: Result<(), WorkerError>)
        ensures
            match self.aggregate_id() {
                Some(current) => if current == aggregate_id@ {
                    r is Ok
                } else {
                    r matches Err(WorkerError::InconsistentAggregateId { current: c, requested: q }) && c@ == current
                        && q@ == aggregate_id@
                },
                None => r is Ok,
            },
    {
        match &self.aggregate_id {
            Some(current) => {
                if crate::named_map::same_text(current.as_str(), aggregate_id) {
                    Ok(())
                } else {
                    Err(
                        WorkerError::InconsistentAggregateId {
                            current: current.clone(),
                            requested: aggregate_id.to_owned(),
                        },
                    )
                }
            },
            None => Ok(()),
        }
    }

    /// Materialises the projection of `aggregate_id` without the server: the one this
    /// context already holds, or the cached one. `Ok(None)` asks for the aggregate's
    /// history, to be handed to `get_projection_from_history`.
    pub fn get_projection_cached<H>(&mut self, definition: &mut AggregateDefinition<H>, aggregate_id: &str) -> (r:
        Result<Option<Vec<u8>>, WorkerError>)
        requires
            old(self).wf(),
            old(definition).wf(),
        ensures
            final(self).wf(),
            final(definition).wf(),
            final(definition).same_but_cache(&*old(definition)),
            forall|k: Seq<char>| #[trigger] final(definition).cache().cached(k) == old(definition).cache().cached(k),
            final(self).pending() == old(self).pending(),
            match old(self).aggregate_id() {
                Some(current) => {
                    &&& same_materialisation(*final(self), *old(self))
                    &&& if current == aggregate_id@ {
                        r matches Ok(Some(p)) && p@ == old(self).projection()
                    } else {
                        r matches Err(WorkerError::InconsistentAggregateId { current: c, requested: q }) && c@
                            == current && q@ == aggregate_id@
                    }
                },
                None => match old(definition).cache().cached(aggregate_id@) {
                    Some(line) => {
                        &&& r matches Ok(Some(p)) && p@ == line.1
                        &&& final(self).aggregate_id() == Some(aggregate_id@)
                        &&& final(self).seq() == line.0
                        &&& final(self).projection() == line.1
                    },
                    None => r matches Ok(None) && same_materialisation(*final(self), *old(self)),
                },
            },
    {
        if self.aggregate_id.is_some() {
            self.check_aggregate_id(aggregate_id)?;
            return Ok(Some(copy_bytes(&self.projection)));
        }
        let id = aggregate_id.to_owned();
        match definition.cache.lookup(&id) {
            Some((seq, projection)) => {
                let r = copy_bytes(&projection);
                self.aggregate_id = Some(id);
                self.seq = seq;
                self.projection = projection;
                Ok(Some(r))
            },
            None => Ok(None),
        }
    }

    /// Materialises the projection of `aggregate_id` from its history as the server
    /// returned it, in ascending sequence: the payloads are folded, in order, into the
    /// empty projection through the sourcing handlers, and a non-empty history is
    /// cached. A context that already holds the aggregate keeps what it holds.
    pub fn get_projection_from_history<H, F: Fn(&H, &Vec<u8>, &Vec<u8>) -> Result<Option<Vec<u8>>, String>>(
        &mut self,
        definition: &mut AggregateDefinition<H>,
        aggregate_id: &str,
        history: &Vec<Event>,
        apply: &F,
    ) -> (r: Result<Vec<u8>, WorkerError>)
        requires
            old(self).wf(),
            old(definition).wf(),
            forall|h: &H, d: &Vec<u8>, p: &Vec<u8>| #[trigger] apply.requires((h, d, p)),
        ensures
            final(self).wf(),
            final(definition).wf(),
            final(definition).same_but_cache(&*old(definition)),
            final(self).pending() == old(self).pending(),
            match old(self).aggregate_id() {
                Some(current) => {
                    &&& same_materialisation(*final(self), *old(self))
                    &&& *final(definition) == *old(definition)
                    &&& if current == aggregate_id@ {
                        r matches Ok(p) && p@ == old(self).projection()
                    } else {
                        r matches Err(WorkerError::InconsistentAggregateId { current: c, requested: q }) && c@
                            == current && q@ == aggregate_id@
                    }
                },
                None => {
                    &&& r matches Ok(p) ==> {
                        &&& final(self).aggregate_id() == Some(aggregate_id@)
                        &&& final(self).seq() == last_sequence(history@)
                        &&& final(self).projection() == p@
                        &&& sources_to(
                            *apply,
                            old(definition).sourcing_handlers()@,
                            history_view(history@),
                            old(definition).empty_view(),
                            p@,
                        )
                        &&& history@.len() > 0 ==> final(definition).cache().cached(aggregate_id@) == Some(
                            (last_sequence(history@), p@),
                        )
                        &&& history@.len() == 0 ==> *final(definition) == *old(definition)
                    }
                    &&& r matches Err(e) ==> {
                        &&& fold_error(*apply, old(definition).sourcing_handlers()@, history_view(history@), e)
                        &&& same_materialisation(*final(self), *old(self))
                        &&& *final(definition) == *old(definition)
                    }
                    &&& all_sourced(old(definition).sourcing_handlers()@, history_view(history@)) ==> !(r matches Err(
                        WorkerError::MissingSourcingHandler { .. },
                    ))
                    &&& all_sourced(old(definition).sourcing_handlers()@, history_view(history@)) && never_fails(*apply)
                        ==> r is Ok
                },
            },
    {
        if self.aggregate_id.is_some() {
            self.check_aggregate_id(aggregate_id)?;
            return Ok(copy_bytes(&self.projection));
        }
        let start = copy_bytes(&definition.empty_projection);
        let (seq, projection) = replay_history(&definition.sourcing_handler_registry, history, start, apply)?;
        if history.len() > 0 {
            definition.cache.store(aggregate_id.to_owned(), seq, copy_bytes(&projection));
        }
        let r = copy_bytes(&projection);
        self.aggregate_id = Some(aggregate_id.to_owned());
        self.seq = seq;
        self.projection = projection;
        Ok(r)
    }
}



/// Event `e` is the emitted event `emitted`, stored for aggregate `aggregate_id` of
/// type `aggregate_type` under sequence number `seq` at `timestamp`.
pub open spec fn is_stored_event(
    e: Event,
    aggregate_id: Seq<char>,
    aggregate_type: Seq<char>,
    seq: int,
    timestamp: i64,
    emitted: (Seq<char>, Seq<u8>),
) -> bool {
    &&& e.aggregate_identifier@ == aggregate_id
    &&& e.aggregate_type@ == aggregate_type
    &&& e.aggregate_sequence_number == seq
    &&& e.timestamp == timestamp
    &&& !e.snapshot
    &&& e.meta_data@.len() == 0
    &&& is_canonical_uuid_v4(e.message_identifier@)
    &&& e.payload matches Some(p) && p.payload_type@ == emitted.0 && p.data@ == emitted.1 && p.revision@
        == Seq::<char>::empty()
}

/// The events of one append: the emitted events in the order of emission, with the
/// sequence numbers that follow `last_seq`, without gaps.
pub open spec fn is_append_batch(
    events: Seq<Event>,
    aggregate_id: Seq<char>,
    aggregate_type: Seq<char>,
    last_seq: int,
    timestamp: i64,
    emitted: Seq<(Seq<char>, Seq<u8>)>,
) -> bool {
    &&& events.len() == emitted.len()
    &&& forall|i: int|
        0 <= i < events.len() ==> is_stored_event(
            #[trigger] events[i],
            aggregate_id,
            aggregate_type,
            last_seq + 1 + i,
            timestamp,
            emitted[i],
        )
}

/// The events to append for the emitted events `emitted` of aggregate `aggregate_id`,
/// numbered from `next_seq` on.
pub fn events_to_store(
    aggregate_id: &String,
    aggregate_type: &String,
    emitted: &Vec<(String, Vec<u8>)>,
    next_seq: i64,
    timestamp: i64,
) -> (r: Vec<Event>)
    requires
        next_seq + emitted@.len() <= i64::MAX + 1,
        emitted@.len() <= i64::MAX,
    ensures
        is_append_batch(r@, aggregate_id@, aggregate_type@, next_seq - 1, timestamp, pending_view(emitted@)),
{
    let mut r: Vec<Event> = Vec::new();
    let mut i: usize = 0;
    while i < emitted.len()
        invariant
            i <= emitted@.len(),
            next_seq + emitted@.len() <= i64::MAX + 1,
            emitted@.len() <= i64::MAX,
            r@.len() == i,
            forall|j: int|
                0 <= j < i ==> is_stored_event(
                    #[trigger] r@[j],
                    aggregate_id@,
                    aggregate_type@,
                    next_seq + j,
                    timestamp,
                    pending_view(emitted@)[j],
                ),
        decreases emitted@.len() - i,
    {
        let payload = SerializedObject {
            payload_type: emitted[i].0.clone(),
            revision: String::new(),
            data: copy_bytes(&emitted[i].1),
        };
        let event = Event {
            message_identifier: new_message_id(),
            timestamp,
            aggregate_identifier: aggregate_id.clone(),
            aggregate_sequence_number: next_seq + i as i64,
            aggregate_type: aggregate_type.clone(),
            payload: Some(payload),
            meta_data: Vec::new(),
            snapshot: false,
        };
        r.push(event);
        i += 1;
    }
    r
}

/// The events of one command waiting to be appended, with what the cache held for
/// their aggregate before they were cached, so that a failed append can be undone.
#[derive(Debug)]
pub struct PendingAppend {
    pub aggregate_id: String,
    pub events: Vec<Event>,
    pub previous: Option<(i64, Vec<u8>)>,
}

impl<H> AggregateDefinition<H> {
    /// Starts the handling of `command`: finds its handler and its payload data, and
    /// makes a fresh context. Fails with `MissingHandler`, then `MissingPayload`.
    pub fn begin_command(&self, command: &Command) -> (r: Result<(Vec<u8>, AggregateContext), WorkerError>)
        requires
            self.wf(),
        ensures
            !self.command_handlers()@.contains_key(command.name@) ==> (r matches Err(
                WorkerError::MissingHandler { command: c },
            ) && c@ == command.name@),
            self.command_handlers()@.contains_key(command.name@) && command.payload is None ==> (r matches Err(
                WorkerError::MissingPayload { command: c },
            ) && c@ == command.name@),
            self.command_handlers()@.contains_key(command.name@) && command.payload is Some ==> (r matches Ok(
                (data, context),
            ) && data@ == command.payload->Some_0.data@ && context.wf() && context.pending() == Seq::<
                (Seq<char>, Seq<u8>),
            >::empty() && context.aggregate_id() is None && context.projection() == self.empty_view()
                && context.seq() == -1),
    {
        if self.command_handler(command.name.as_str()).is_none() {
            return Err(WorkerError::MissingHandler { command: command.name.clone() });
        }
        match &command.payload {
            None => Err(WorkerError::MissingPayload { command: command.name.clone() }),
            Some(payload) => Ok((copy_bytes(&payload.data), self.new_context())),
        }
    }

    /// After the handler returned: folds the events it emitted, in order, into the
    /// context's projection, caches the result under the aggregate with the sequence
    /// numbers that follow the context's, and hands back the events to append.
    /// Nothing emitted gives `None`; events without an aggregate give `MissingAggregateId`.
    pub fn apply_emitted<F: Fn(&H, &Vec<u8>, &Vec<u8>) -> Result<Option<Vec<u8>>, String>>(
        &mut self,
        context: &AggregateContext,
        timestamp: i64,
        apply: &F,
    ) -> (r: Result<Option<PendingAppend>, WorkerError>)
        requires
            old(self).wf(),
            context.wf(),
            context.seq() + context.pending().len() <= i64::MAX,
            context.pending().len() <= i64::MAX,
            forall|h: &H, d: &Vec<u8>, p: &Vec<u8>| #[trigger] apply.requires((h, d, p)),
        ensures
            final(self).wf(),
            final(self).same_but_cache(&*old(self)),
            context.pending().len() == 0 ==> (r matches Ok(None) && *final(self) == *old(self)),
            context.pending().len() > 0 && context.aggregate_id() is None ==> (r matches Err(
                WorkerError::MissingAggregateId,
            ) && *final(self) == *old(self)),
            context.aggregate_id() is Some ==> (r matches Err(e) ==> fold_error(
                *apply,
                old(self).sourcing_handlers()@,
                context.pending(),
                e,
            ) && *final(self) == *old(self)),
            all_sourced(old(self).sourcing_handlers()@, context.pending()) ==> !(r matches Err(
                WorkerError::MissingSourcingHandler { .. },
            )),
            context.pending().len() > 0 && context.aggregate_id() is Some && all_sourced(
                old(self).sourcing_handlers()@,
                context.pending(),
            ) && never_fails(*apply) ==> r matches Ok(Some(_)),
            r matches Ok(Some(append)) ==> {
                let id = context.aggregate_id()->Some_0;
                let last = context.seq() + context.pending().len();
                &&& context.pending().len() > 0
                &&& append.aggregate_id@ == id
                &&& is_append_batch(
                    append.events@,
                    id,
                    old(self).name_view(),
                    context.seq() as int,
                    timestamp,
                    context.pending(),
                )
                &&& match append.previous {
                    Some(v) => old(self).cache().cached(id) == Some(value_view(v)),
                    None => old(self).cache().cached(id) is None,
                }
                &&& final(self).cache().cached(id) matches Some(line) && line.0 == last && sources_to(
                    *apply,
                    old(self).sourcing_handlers()@,
                    context.pending(),
                    context.projection(),
                    line.1,
                ) && forall|persisted: Seq<(Seq<char>, Seq<u8>)>|
                    #[trigger] sources_to(
                        *apply,
                        old(self).sourcing_handlers()@,
                        persisted,
                        old(self).empty_view(),
                        context.projection(),
                    ) ==> sources_to(
                        *apply,
                        old(self).sourcing_handlers()@,
                        persisted + context.pending(),
                        old(self).empty_view(),
                        line.1,
                    )
            },
    {
        if context.events.len() == 0 {
            return Ok(None);
        }
        let aggregate_id = match &context.aggregate_id {
            Some(id) => id.clone(),
            None => {
                return Err(WorkerError::MissingAggregateId);
            },
        };
        let projection = source_events(
            &self.sourcing_handler_registry,
            &context.events,
            copy_bytes(&context.projection),
            apply,
        )?;
        let last = context.seq + context.events.len() as i64;
        let events = events_to_store(&aggregate_id, &self.projection_name, &context.events, context.seq + 1, timestamp);
        proof {
            assert forall|persisted: Seq<(Seq<char>, Seq<u8>)>|
                #[trigger] sources_to(
                    *apply,
                    self.sourcing_handlers()@,
                    persisted,
                    self.empty_view(),
                    context.projection(),
                ) implies sources_to(
                    *apply,
                    self.sourcing_handlers()@,
                    persisted + context.pending(),
                    self.empty_view(),
                    projection@,
                ) by {
                lemma_replay_determinism(
                    *apply,
                    self.sourcing_handlers()@,
                    persisted,
                    context.pending(),
                    self.empty_view(),
                    context.projection(),
                    projection@,
                );
            }
        }
        let previous = self.cache.lookup(&aggregate_id);
        self.cache.store(aggregate_id.clone(), last, projection);
        Ok(Some(PendingAppend { aggregate_id, events, previous }))
    }

    /// After the append was tried: a failure puts back what the cache held before the
    /// command and gives `PersistFailure` with the store's text.
    pub fn complete_append(&mut self, append: &PendingAppend, stored: Result<(), String>) -> (r: Result<(), WorkerError>)
        requires
            old(self).wf(),
        ensures
            final(self).wf(),
            final(self).same_but_cache(&*old(self)),
            stored is Ok ==> r is Ok && *final(self) == *old(self),
            stored matches Err(m) ==> {
                &&& r matches Err(WorkerError::PersistFailure { message }) && message == m
                &&& final(self).cache().cached(append.aggregate_id@) == match append.previous {
                    Some(v) => Some(value_view(v)),
                    None => None::<(i64, Seq<u8>)>,
                }
            },
    {
        match stored {
            Ok(()) => Ok(()),
            Err(message) => {
                let previous = match &append.previous {
                    Some(v) => Some((v.0, copy_bytes(&v.1))),
                    None => None,
                };
                self.cache.restore(&append.aggregate_id, previous);
                Err(WorkerError::PersistFailure { message })
            },
        }
    }
}

/// An append batch concerns one aggregate, and its sequence numbers follow the last
/// stored one without gaps.
pub proof fn lemma_one_aggregate_per_append(
    events: Seq<Event>,
    aggregate_id: Seq<char>,
    aggregate_type: Seq<char>,
    last_seq: int,
    timestamp: i64,
    emitted: Seq<(Seq<char>, Seq<u8>)>,
)
    requires
        is_append_batch(events, aggregate_id, aggregate_type, last_seq, timestamp, emitted),
    ensures
        forall|i: int, j: int|
            0 <= i < events.len() && 0 <= j < events.len() ==> (#[trigger] events[i]).aggregate_identifier@
                == (#[trigger] events[j]).aggregate_identifier@,
        forall|i: int|
            0 <= i < events.len() ==> (#[trigger] events[i]).aggregate_sequence_number == last_seq + 1 + i,
        forall|i: int|
            0 < i < events.len() ==> (#[trigger] events[i]).aggregate_sequence_number == events[i - 1].aggregate_sequence_number + 1,
{
    assert forall|i: int| 0 < i < events.len() implies (#[trigger] events[i]).aggregate_sequence_number
        == events[i - 1].aggregate_sequence_number + 1 by {
        assert(is_stored_event(events[i - 1], aggregate_id, aggregate_type, last_seq + i, timestamp, emitted[i - 1]));
    }
}

} // verus!
