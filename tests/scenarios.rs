use axon_command_worker::aggregate::{create_aggregate_definition, AggregateDefinition, PendingAppend};
use axon_command_worker::aggregate_registry::{empty_aggregate_registry, find_aggregate};
use axon_command_worker::emitted::EmitEventsAndResponse;
use axon_command_worker::error::WorkerError;
use axon_command_worker::handler_registry::empty_handler_registry;
use axon_command_worker::messages::{Command, Event, SerializedObject};
use axon_command_worker::named_map::NamedMap;
use axon_command_worker::stream_driver::{
    AxonCommandResult, CommandProviderOutbound, OutboundRequest, OutboundStream,
};

const GREETED: u8 = 1;

/// The sourcing handler of the tests: a `Greeted` event appends its data to the
/// projection.
fn apply(handler: &u8, data: &Vec<u8>, projection: &Vec<u8>) -> Result<Option<Vec<u8>>, String> {
    if *handler == GREETED {
        let mut next = projection.clone();
        next.extend_from_slice(data);
        Ok(Some(next))
    } else {
        Err("unknown handler".to_string())
    }
}

fn greeting() -> AggregateDefinition<u8> {
    let mut commands = empty_handler_registry();
    commands.insert_with_output("Greet", 0).unwrap();
    let mut sourcing = empty_handler_registry();
    sourcing.insert_with_output("Greeted", GREETED).unwrap();
    create_aggregate_definition("Greeting".to_string(), Vec::new(), commands, sourcing)
}

fn greet(id: &str, name: &str) -> Command {
    Command {
        message_identifier: id.to_string(),
        name: "Greet".to_string(),
        payload: Some(SerializedObject {
            payload_type: "Greet".to_string(),
            revision: String::new(),
            data: name.as_bytes().to_vec(),
        }),
        meta_data: Vec::new(),
    }
}

fn stored(seq: i64, data: &str) -> Event {
    Event {
        message_identifier: format!("m-{}", seq),
        timestamp: 1,
        aggregate_identifier: "g-1".to_string(),
        aggregate_sequence_number: seq,
        aggregate_type: "Greeting".to_string(),
        payload: Some(SerializedObject {
            payload_type: "Greeted".to_string(),
            revision: String::new(),
            data: data.as_bytes().to_vec(),
        }),
        meta_data: Vec::new(),
        snapshot: false,
    }
}

/// Runs the `Greet` handler for aggregate `g-1`: it asks for the projection (from the
/// server's `history` on a cache miss) and emits one `Greeted` event with the name.
/// Returns the append and whether the history was queried.
fn run_greet(
    def: &mut AggregateDefinition<u8>,
    command: &Command,
    history: &Vec<Event>,
) -> (Result<Option<PendingAppend>, WorkerError>, bool) {
    let mut queried = false;
    let (data, mut context) = match def.begin_command(command) {
        Ok(started) => started,
        Err(e) => return (Err(e), queried),
    };
    match context.get_projection_cached(def, "g-1") {
        Ok(Some(_)) => {}
        Ok(None) => {
            queried = true;
            if let Err(e) = context.get_projection_from_history(def, "g-1", history, &apply) {
                return (Err(e), queried);
            }
        }
        Err(e) => return (Err(e), queried),
    }
    context.emit("Greeted", data).unwrap();
    (def.apply_emitted(&context, 1000, &apply), queried)
}

fn response_of(m: &CommandProviderOutbound) -> Option<&axon_command_worker::stream_driver::CommandResponse> {
    match &m.request {
        OutboundRequest::CommandResponse(r) => Some(r),
        _ => None,
    }
}

#[test]
fn first_command_creates_aggregate() {
    let mut def = greeting();
    let (result, queried) = run_greet(&mut def, &greet("c-1", "world"), &Vec::new());
    assert!(queried);
    let append = result.unwrap().unwrap();
    assert_eq!(append.events.len(), 1);
    let event = &append.events[0];
    assert_eq!(event.aggregate_sequence_number, 0);
    assert_eq!(event.aggregate_identifier, "g-1");
    assert_eq!(event.aggregate_type, "Greeting");
    assert_eq!(event.payload.as_ref().unwrap().payload_type, "Greeted");
    assert_eq!(event.payload.as_ref().unwrap().data, b"world".to_vec());
    assert_eq!(def.complete_append(&append, Ok(())), Ok(()));

    let (mut stream, _) = OutboundStream::open("client".to_string(), &vec!["Greet".to_string()]);
    let out = stream.respond(AxonCommandResult {
        message_identifier: "c-1".to_string(),
        result: Ok(Some(EmitEventsAndResponse::with_response(None))),
    });
    let responses: Vec<_> = out.iter().filter_map(response_of).collect();
    assert_eq!(responses.len(), 1);
    assert_eq!(responses[0].request_identifier, "c-1");
    assert_eq!(responses[0].error_code, "");
    assert!(responses[0].error_message.is_none());
}

#[test]
fn subsequent_command_hits_cache() {
    let mut def = greeting();
    let (first, _) = run_greet(&mut def, &greet("c-1", "world"), &Vec::new());
    def.complete_append(&first.unwrap().unwrap(), Ok(())).unwrap();
    // The server would now hold the event; a query here would be a mistake.
    let (second, queried) = run_greet(&mut def, &greet("c-2", "again"), &Vec::new());
    assert!(!queried);
    let append = second.unwrap().unwrap();
    assert_eq!(append.events.len(), 1);
    assert_eq!(append.events[0].aggregate_sequence_number, 1);
    assert_eq!(append.previous, Some((0, b"world".to_vec())));
    assert_eq!(def.complete_append(&append, Ok(())), Ok(()));
}

#[test]
fn cold_start_with_history_on_server() {
    let mut def = greeting();
    let history = vec![stored(0, "a"), stored(1, "b"), stored(2, "c")];
    let (result, queried) = run_greet(&mut def, &greet("c-1", "d"), &history);
    assert!(queried);
    let append = result.unwrap().unwrap();
    assert_eq!(append.events.len(), 1);
    assert_eq!(append.events[0].aggregate_sequence_number, 3);
    assert_eq!(append.previous, Some((2, b"abc".to_vec())));
    def.complete_append(&append, Ok(())).unwrap();
    // The cache now holds sequence 3 and the fold of all four events.
    let (_, mut context) = def.begin_command(&greet("c-2", "e")).unwrap();
    assert_eq!(context.get_projection_cached(&mut def, "g-1"), Ok(Some(b"abcd".to_vec())));
    assert_eq!(context.last_seq(), 3);
}

#[test]
fn missing_handler_is_answered_with_an_error() {
    let mut registry = empty_aggregate_registry();
    registry.insert(greeting()).unwrap();
    let mut commands = Vec::new();
    let mut mapping = NamedMap::new();
    registry.register_commands(&mut commands, &mut mapping);
    let result = find_aggregate(&mapping, &registry, "Unknown");
    assert_eq!(result, Err(WorkerError::CouldNotFindAggregateHandler));

    let (mut stream, _) = OutboundStream::open("client".to_string(), &commands);
    let out = stream.respond(AxonCommandResult {
        message_identifier: "c-9".to_string(),
        result: result.map(|_| None),
    });
    let response = response_of(&out[0]).unwrap();
    assert_eq!(response.request_identifier, "c-9");
    assert_eq!(response.error_code, "ERROR");
    let message = response.error_message.as_ref().unwrap();
    assert!(message.message.contains("Could not find aggregate handler"));
    assert_eq!(message.error_code, "ERROR");
    // The worker keeps going: the next command is answered too.
    let next = stream.respond(AxonCommandResult {
        message_identifier: "c-10".to_string(),
        result: Ok(None),
    });
    assert_eq!(response_of(&next[0]).unwrap().request_identifier, "c-10");
}

#[test]
fn handler_emits_but_never_sets_id() {
    let mut def = greeting();
    let (data, mut context) = def.begin_command(&greet("c-1", "world")).unwrap();
    context.emit("Greeted", data).unwrap();
    assert_eq!(def.apply_emitted(&context, 1000, &apply).unwrap_err(), WorkerError::MissingAggregateId);
    // Nothing was cached, so nothing is there to persist or to find.
    let (_, mut fresh) = def.begin_command(&greet("c-2", "x")).unwrap();
    assert_eq!(fresh.get_projection_cached(&mut def, "g-1"), Ok(None));
}

#[test]
fn permit_top_up() {
    let (mut stream, opening) = OutboundStream::open("client".to_string(), &vec!["Greet".to_string()]);
    let mut outbound = opening;
    for i in 0..5 {
        outbound.extend(stream.respond(AxonCommandResult {
            message_identifier: format!("c-{}", i),
            result: Ok(None),
        }));
    }
    let grants: Vec<i64> = outbound
        .iter()
        .filter_map(|m| match &m.request {
            OutboundRequest::FlowControl(f) => Some(f.permits),
            _ => None,
        })
        .collect();
    assert_eq!(grants[0], 6);
    assert!(grants[1..].iter().any(|p| *p == 3));
    let responses = outbound.iter().filter(|m| response_of(m).is_some()).count();
    assert_eq!(responses, 5);
    // The batch is granted once no more than a batch of permits is left: after the
    // third response, which leaves three.
    let kinds: Vec<&str> = outbound
        .iter()
        .map(|m| match &m.request {
            OutboundRequest::Subscribe(_) => "subscribe",
            OutboundRequest::FlowControl(_) => "grant",
            OutboundRequest::CommandResponse(_) => "response",
        })
        .collect();
    assert_eq!(
        kinds,
        vec!["subscribe", "grant", "response", "response", "response", "grant", "response", "response"]
    );
}
