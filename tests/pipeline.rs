use axon_command_worker::aggregate::{
    create_aggregate_definition, create_aggregate_definition_with_cache_capacity, events_to_store, AggregateDefinition,
};
use axon_command_worker::cache::ProjectionCache;
use axon_command_worker::emitted::{emit, emit_events, emit_events_and_response, EmitEventsAndResponse};
use axon_command_worker::error::WorkerError;
use axon_command_worker::handler_registry::empty_handler_registry;
use axon_command_worker::messages::{Command, Event, SerializedObject};
use axon_command_worker::sourcing::{replay_history, source_events};
use axon_command_worker::stream_driver::{
    command_response, AxonCommandResult, OutboundRequest, OutboundStream, INITIAL_PERMITS, LOAD_FACTOR,
};

const APPEND: u8 = 1;
const FAIL: u8 = 2;
const KEEP: u8 = 3;

fn apply(handler: &u8, data: &Vec<u8>, projection: &Vec<u8>) -> Result<Option<Vec<u8>>, String> {
    match *handler {
        APPEND => {
            let mut next = projection.clone();
            next.extend_from_slice(data);
            Ok(Some(next))
        }
        KEEP => Ok(None),
        _ => Err("cannot apply".to_string()),
    }
}

fn definition() -> AggregateDefinition<u8> {
    let mut commands = empty_handler_registry();
    commands.insert("Greet", 0).unwrap();
    let mut sourcing = empty_handler_registry();
    sourcing.insert_with_output("Greeted", APPEND).unwrap();
    sourcing.insert_with_output("Broken", FAIL).unwrap();
    sourcing.insert_with_output("Noted", KEEP).unwrap();
    sourcing.insert_with_mapped_output("Renamed", APPEND, "Projection").unwrap();
    sourcing.insert("Ignored", APPEND).unwrap();
    create_aggregate_definition("Greeting".to_string(), b"<".to_vec(), commands, sourcing)
}

fn event(seq: i64, payload_type: &str, data: &str) -> Event {
    Event {
        message_identifier: format!("e-{}", seq),
        timestamp: 5,
        aggregate_identifier: "g-1".to_string(),
        aggregate_sequence_number: seq,
        aggregate_type: "Greeting".to_string(),
        payload: Some(SerializedObject {
            payload_type: payload_type.to_string(),
            revision: String::new(),
            data: data.as_bytes().to_vec(),
        }),
        meta_data: Vec::new(),
        snapshot: false,
    }
}

fn command(name: &str, payload: Option<&str>) -> Command {
    Command {
        message_identifier: "c-1".to_string(),
        name: name.to_string(),
        payload: payload.map(|p| SerializedObject {
            payload_type: name.to_string(),
            revision: String::new(),
            data: p.as_bytes().to_vec(),
        }),
        meta_data: Vec::new(),
    }
}

fn is_canonical_uuid(s: &str) -> bool {
    let chars: Vec<char> = s.chars().collect();
    chars.len() == 36
        && chars.iter().enumerate().all(|(i, c)| {
            if i == 8 || i == 13 || i == 18 || i == 23 {
                *c == '-'
            } else {
                c.is_ascii_hexdigit() && !c.is_ascii_uppercase()
            }
        })
        && chars[14] == '4'
}

#[test]
fn cache_evicts_least_recently_used() {
    let mut cache = ProjectionCache::new(2);
    cache.store("a".to_string(), 0, b"A".to_vec());
    cache.store("b".to_string(), 1, b"B".to_vec());
    assert_eq!(cache.lookup(&"a".to_string()), Some((0, b"A".to_vec())));
    cache.store("c".to_string(), 2, b"C".to_vec());
    assert_eq!(cache.lookup(&"b".to_string()), None);
    assert_eq!(cache.lookup(&"a".to_string()), Some((0, b"A".to_vec())));
    assert_eq!(cache.lookup(&"c".to_string()), Some((2, b"C".to_vec())));
    cache.store("a".to_string(), 5, b"AA".to_vec());
    assert_eq!(cache.lookup(&"a".to_string()), Some((5, b"AA".to_vec())));
    cache.restore(&"a".to_string(), Some((0, b"A".to_vec())));
    assert_eq!(cache.lookup(&"a".to_string()), Some((0, b"A".to_vec())));
    cache.restore(&"c".to_string(), None);
    assert_eq!(cache.lookup(&"c".to_string()), None);
}

#[test]
fn a_full_cache_loses_its_least_recently_used_entry() {
    let mut cache = ProjectionCache::new(3);
    cache.store("a".to_string(), 0, b"A".to_vec());
    cache.store("b".to_string(), 0, b"B".to_vec());
    cache.store("c".to_string(), 0, b"C".to_vec());
    cache.lookup(&"a".to_string());
    cache.store("d".to_string(), 0, b"D".to_vec());
    assert_eq!(cache.lookup(&"b".to_string()), None);
    assert!(cache.lookup(&"a".to_string()).is_some());
    assert!(cache.lookup(&"c".to_string()).is_some());
    assert!(cache.lookup(&"d".to_string()).is_some());
}

#[test]
fn cache_capacity_can_be_chosen() {
    let mut commands = empty_handler_registry();
    commands.insert("Greet", 0u8).unwrap();
    let mut sourcing = empty_handler_registry();
    sourcing.insert_with_output("Greeted", APPEND).unwrap();
    let mut def = create_aggregate_definition_with_cache_capacity("Greeting".to_string(), Vec::new(), commands, sourcing, 1);
    for id in ["g-1", "g-2"] {
        let (_, mut context) = def.begin_command(&command("Greet", Some("x"))).unwrap();
        context.get_projection_from_history(&mut def, id, &vec![event(0, "Greeted", "a")], &apply).unwrap();
    }
    let (_, mut context) = def.begin_command(&command("Greet", Some("x"))).unwrap();
    assert_eq!(context.get_projection_cached(&mut def, "g-1"), Ok(None));
    assert_eq!(context.get_projection_cached(&mut def, "g-2"), Ok(Some(b"a".to_vec())));
}

#[test]
fn a_context_copy_is_equal() {
    let mut def = definition();
    let (_, mut context) = def.begin_command(&command("Greet", Some("x"))).unwrap();
    context.get_projection_from_history(&mut def, "g-1", &vec![event(0, "Greeted", "a")], &apply).unwrap();
    context.emit("Greeted", b"b".to_vec()).unwrap();
    let copy = context.duplicate();
    assert_eq!(copy.pending_len(), 1);
    assert_eq!(copy.last_seq(), 0);
    assert_eq!(copy.get_aggregate_id(), Some("g-1".to_string()));
    let a = def.apply_emitted(&context, 1, &apply).unwrap().unwrap();
    let b = def.apply_emitted(&copy, 1, &apply).unwrap().unwrap();
    assert_eq!(a.events[0].payload, b.events[0].payload);
    assert_eq!(a.events[0].aggregate_sequence_number, b.events[0].aggregate_sequence_number);
}

#[test]
fn replay_folds_in_order_and_skips_empty_payloads() {
    let def = definition();
    let mut history = vec![event(0, "Greeted", "a"), event(1, "Noted", "x"), event(2, "Greeted", "b")];
    history.push(Event { payload: None, ..event(3, "Greeted", "") });
    let handlers = def_sourcing(&def);
    assert_eq!(replay_history(handlers, &history, b"<".to_vec(), &apply), Ok((3, b"<ab".to_vec())));
    assert_eq!(replay_history(handlers, &Vec::new(), b"<".to_vec(), &apply), Ok((-1, b"<".to_vec())));
}

fn def_sourcing(def: &AggregateDefinition<u8>) -> &axon_command_worker::handler_registry::TheHandlerRegistry<u8> {
    def.sourcing_handler_registry()
}

#[test]
fn ignored_results_leave_the_projection() {
    let def = definition();
    let handlers = def_sourcing(&def);
    let history = vec![event(0, "Greeted", "a"), event(1, "Ignored", "x"), event(2, "Renamed", "b")];
    assert_eq!(replay_history(handlers, &history, b"<".to_vec(), &apply), Ok((2, b"<ab".to_vec())));
}

#[test]
fn replay_reports_missing_and_failing_handlers() {
    let def = definition();
    let handlers = def_sourcing(&def);
    let unknown = vec![event(0, "Greeted", "a"), event(1, "Vanished", "x")];
    assert_eq!(
        replay_history(handlers, &unknown, Vec::new(), &apply),
        Err(WorkerError::MissingSourcingHandler { event_type: "Vanished".to_string() })
    );
    let failing = vec![event(0, "Broken", "a")];
    assert_eq!(
        replay_history(handlers, &failing, Vec::new(), &apply),
        Err(WorkerError::HandlerError { message: "cannot apply".to_string() })
    );
}

#[test]
fn replaying_in_two_parts_equals_replaying_the_whole() {
    let def = definition();
    let handlers = def_sourcing(&def);
    let whole = vec![event(0, "Greeted", "a"), event(1, "Greeted", "b"), event(2, "Greeted", "c")];
    let (_, all_at_once) = replay_history(handlers, &whole, b"<".to_vec(), &apply).unwrap();
    let (_, first) = replay_history(handlers, &whole[..1].to_vec(), b"<".to_vec(), &apply).unwrap();
    let rest = vec![("Greeted".to_string(), b"b".to_vec()), ("Greeted".to_string(), b"c".to_vec())];
    assert_eq!(source_events(handlers, &rest, first, &apply), Ok(all_at_once));
}

#[test]
fn begin_command_errors() {
    let def = definition();
    assert_eq!(
        def.begin_command(&command("Unknown", Some("x"))).unwrap_err(),
        WorkerError::MissingHandler { command: "Unknown".to_string() }
    );
    assert_eq!(
        def.begin_command(&command("Greet", None)).unwrap_err(),
        WorkerError::MissingPayload { command: "Greet".to_string() }
    );
    let (data, context) = def.begin_command(&command("Greet", Some("world"))).unwrap();
    assert_eq!(data, b"world".to_vec());
    assert_eq!(context.last_seq(), -1);
    assert_eq!(context.get_aggregate_id(), None);
    assert_eq!(context.pending_len(), 0);
}

#[test]
fn a_command_touches_one_aggregate() {
    let mut def = definition();
    let (_, mut context) = def.begin_command(&command("Greet", Some("x"))).unwrap();
    assert_eq!(context.get_projection_from_history(&mut def, "g-1", &vec![event(0, "Greeted", "a")], &apply), Ok(b"<a".to_vec()));
    assert_eq!(
        context.get_projection_cached(&mut def, "g-2"),
        Err(WorkerError::InconsistentAggregateId { current: "g-1".to_string(), requested: "g-2".to_string() })
    );
    assert_eq!(context.get_projection_cached(&mut def, "g-1"), Ok(Some(b"<a".to_vec())));
    assert_eq!(context.get_aggregate_id(), Some("g-1".to_string()));
}

#[test]
fn nothing_emitted_appends_nothing() {
    let mut def = definition();
    let (_, context) = def.begin_command(&command("Greet", Some("x"))).unwrap();
    assert!(def.apply_emitted(&context, 1, &apply).unwrap().is_none());
}

#[test]
fn emitted_events_are_numbered_without_gaps() {
    let mut def = definition();
    let history = vec![event(0, "Greeted", "a"), event(1, "Greeted", "b")];
    let (_, mut context) = def.begin_command(&command("Greet", Some("x"))).unwrap();
    context.get_projection_from_history(&mut def, "g-1", &history, &apply).unwrap();
    context.emit("Greeted", b"c".to_vec()).unwrap();
    context.emit("Noted", b"n".to_vec()).unwrap();
    context.emit("Greeted", b"d".to_vec()).unwrap();
    let append = def.apply_emitted(&context, 77, &apply).unwrap().unwrap();
    let seqs: Vec<i64> = append.events.iter().map(|e| e.aggregate_sequence_number).collect();
    assert_eq!(seqs, vec![2, 3, 4]);
    for e in &append.events {
        assert_eq!(e.aggregate_identifier, "g-1");
        assert_eq!(e.aggregate_type, "Greeting");
        assert_eq!(e.timestamp, 77);
        assert!(!e.snapshot);
        assert!(is_canonical_uuid(&e.message_identifier));
    }
    assert_ne!(append.events[0].message_identifier, append.events[1].message_identifier);
    assert_eq!(append.events[1].payload.as_ref().unwrap().payload_type, "Noted");
    assert_eq!(append.previous, Some((1, b"<ab".to_vec())));
    let (_, mut next) = def.begin_command(&command("Greet", Some("y"))).unwrap();
    assert_eq!(next.get_projection_cached(&mut def, "g-1"), Ok(Some(b"<abcd".to_vec())));
    assert_eq!(next.last_seq(), 4);
}

#[test]
fn failed_append_rolls_the_cache_back() {
    let mut def = definition();
    let (_, mut context) = def.begin_command(&command("Greet", Some("x"))).unwrap();
    context.get_projection_from_history(&mut def, "g-1", &vec![event(0, "Greeted", "a")], &apply).unwrap();
    context.emit("Greeted", b"b".to_vec()).unwrap();
    let append = def.apply_emitted(&context, 1, &apply).unwrap().unwrap();
    assert_eq!(
        def.complete_append(&append, Err("wrong sequence".to_string())),
        Err(WorkerError::PersistFailure { message: "wrong sequence".to_string() })
    );
    let (_, mut next) = def.begin_command(&command("Greet", Some("y"))).unwrap();
    assert_eq!(next.get_projection_cached(&mut def, "g-1"), Ok(Some(b"<a".to_vec())));
    assert_eq!(next.last_seq(), 0);
}

#[test]
fn failed_first_append_leaves_no_cache_entry() {
    let mut def = definition();
    let (_, mut context) = def.begin_command(&command("Greet", Some("x"))).unwrap();
    context.get_projection_from_history(&mut def, "g-9", &Vec::new(), &apply).unwrap();
    context.emit("Greeted", b"b".to_vec()).unwrap();
    let append = def.apply_emitted(&context, 1, &apply).unwrap().unwrap();
    assert_eq!(append.events[0].aggregate_sequence_number, 0);
    assert!(def.complete_append(&append, Err("down".to_string())).is_err());
    let (_, mut next) = def.begin_command(&command("Greet", Some("y"))).unwrap();
    assert_eq!(next.get_projection_cached(&mut def, "g-9"), Ok(None));
}

#[test]
fn emitted_event_without_handler_fails() {
    let mut def = definition();
    let (_, mut context) = def.begin_command(&command("Greet", Some("x"))).unwrap();
    context.get_projection_from_history(&mut def, "g-1", &Vec::new(), &apply).unwrap();
    context.emit("Unheard", b"b".to_vec()).unwrap();
    assert_eq!(
        def.apply_emitted(&context, 1, &apply).unwrap_err(),
        WorkerError::MissingSourcingHandler { event_type: "Unheard".to_string() }
    );
}

#[test]
fn events_to_store_numbers_from_next_seq() {
    let emitted = vec![("A".to_string(), vec![1u8]), ("B".to_string(), vec![2u8])];
    let events = events_to_store(&"id".to_string(), &"Type".to_string(), &emitted, 10, 3);
    assert_eq!(events.len(), 2);
    assert_eq!(events[0].aggregate_sequence_number, 10);
    assert_eq!(events[1].aggregate_sequence_number, 11);
    assert_eq!(events[1].payload, Some(SerializedObject { payload_type: "B".to_string(), revision: String::new(), data: vec![2] }));
}

#[test]
fn holders_collect_events_and_response() {
    let mut holder = emit_events();
    assert_eq!(holder.len(), 0);
    emit(&mut holder, "Greeted", b"a".to_vec()).unwrap();
    emit(&mut holder, "Greeted", b"b".to_vec()).unwrap();
    assert_eq!(holder.len(), 2);
    let with_response = emit_events_and_response("GreetResponse", b"ok".to_vec()).unwrap();
    assert_eq!(with_response.len(), 0);

    let def = definition();
    let (_, mut context) = def.begin_command(&command("Greet", Some("x"))).unwrap();
    assert_eq!(context.emit_all(holder), None);
    assert_eq!(context.pending_len(), 2);
    let response = context.emit_all(with_response).unwrap();
    assert_eq!(response.payload_type, "GreetResponse");
    assert_eq!(response.data, b"ok".to_vec());
    assert_eq!(context.pending_len(), 2);
}

#[test]
fn opening_subscribes_then_grants() {
    let commands = vec!["Greet".to_string(), "Leave".to_string()];
    let (_, opening) = OutboundStream::open("client-7".to_string(), &commands);
    assert_eq!(opening.len(), 3);
    for (m, name) in opening.iter().zip(commands.iter()) {
        match &m.request {
            OutboundRequest::Subscribe(s) => {
                assert_eq!(&s.command, name);
                assert_eq!(s.client_id, "client-7");
                assert_eq!(s.component_name, "client-7");
                assert_eq!(s.load_factor, LOAD_FACTOR);
                assert!(is_canonical_uuid(&s.message_id));
            }
            _ => panic!("expected a subscription"),
        }
        assert!(is_canonical_uuid(&m.instruction_id));
    }
    match &opening[2].request {
        OutboundRequest::FlowControl(f) => {
            assert_eq!(f.permits, INITIAL_PERMITS);
            assert_eq!(f.permits, 6);
            assert_eq!(f.client_id, "client-7");
        }
        _ => panic!("expected a grant"),
    }
}

#[test]
fn responses_carry_payload_or_error() {
    let payload = SerializedObject { payload_type: "GreetResponse".to_string(), revision: String::new(), data: vec![1] };
    let ok = command_response(AxonCommandResult {
        message_identifier: "c-1".to_string(),
        result: Ok(Some(EmitEventsAndResponse::with_response(Some(payload.clone())))),
    });
    assert_eq!(ok.request_identifier, "c-1");
    assert_eq!(ok.payload, Some(payload));
    assert_eq!(ok.error_code, "");
    assert!(is_canonical_uuid(&ok.message_identifier));
    let failed = command_response(AxonCommandResult {
        message_identifier: "c-2".to_string(),
        result: Err(WorkerError::MissingAggregateId),
    });
    assert_eq!(failed.request_identifier, "c-2");
    assert_eq!(failed.payload, None);
    assert_eq!(failed.error_code, "ERROR");
    let message = failed.error_message.unwrap();
    assert_eq!(message.message, "Missing aggregate id");
    assert_eq!(message.location, "");
    assert!(message.details.is_empty());
    assert_eq!(message.error_code, "ERROR");
}

#[test]
fn grants_can_be_chosen() {
    let (mut stream, opening) = OutboundStream::open_with_permits("c".to_string(), &Vec::new(), 2, 10);
    match &opening[0].request {
        OutboundRequest::FlowControl(f) => assert_eq!(f.permits, 10),
        _ => panic!("expected a grant"),
    }
    let mut sizes = Vec::new();
    for i in 0..12 {
        sizes.push(stream.respond(AxonCommandResult { message_identifier: format!("{}", i), result: Ok(None) }).len());
    }
    // 10 permits: the eighth response leaves 2, one batch, and 2 more are granted;
    // from then on every other response brings a grant.
    assert_eq!(sizes, vec![1, 1, 1, 1, 1, 1, 1, 2, 1, 2, 1, 2]);
}

#[test]
fn permits_stay_between_one_batch_and_the_first_grant() {
    let (mut stream, _) = OutboundStream::open("c".to_string(), &Vec::new());
    let mut granted: i64 = 6;
    for i in 0..20 {
        let out = stream.respond(AxonCommandResult { message_identifier: format!("{}", i), result: Ok(None) });
        if out.len() == 2 {
            granted += 3;
        }
        let outstanding = granted - (i + 1);
        assert!(outstanding > 3 && outstanding <= 6);
    }
}
