//! The decisions of the bidirectional command stream: subscriptions, credit-based
//! flow control, and the responses that acknowledge each command.
use crate::emitted::EmitEventsAndResponse;
use crate::error::{error_text, WorkerError};
use crate::messages::{is_canonical_uuid_v4, new_message_id, SerializedObject};
use vstd::arithmetic::div_mod::{lemma_fundamental_div_mod, lemma_fundamental_div_mod_converse, lemma_mod_pos_bound};
use vstd::prelude::*;

verus! {

/// The unit in which permits are granted after the first grant.
pub const PERMITS_BATCH_SIZE: i64 = 3;

/// The first grant of permits: two batches.
pub const INITIAL_PERMITS: i64 = 6;

/// How much work this worker accepts per command type, out of 100.
pub const LOAD_FACTOR: i32 = 100;

/// How many command results may wait for the outbound stream.
pub const OUTBOUND_QUEUE_DEPTH: usize = 10;

/// A subscription to commands of one name.
#[derive(Clone, Debug, PartialEq, Eq)]
pub struct CommandSubscription {
    pub message_id: String,
    pub command: String,
    pub client_id: String,
    pub component_name: String,
    pub load_factor: i32,
}

/// A grant of `permits` more commands.
#[derive(Clone, Debug, PartialEq, Eq)]
pub struct FlowControl {
    pub client_id: String,
    pub permits: i64,
}

/// The description of a failed command.
#[derive(Clone, Debug, PartialEq, Eq)]
pub struct ErrorMessage {
    pub message: String,
    pub location: String,
    pub details: Vec<String>,
    pub error_code: String,
}

/// The answer to one command.
#[derive(Clone, Debug, PartialEq, Eq)]
pub struct CommandResponse {
    pub message_identifier: String,
    pub request_identifier: String,
    pub payload: Option<SerializedObject>,
    pub error_code: String,
    pub error_message: Option<ErrorMessage>,
    /// Meta data as `(key, value)` pairs.
    pub meta_data: Vec<(String, String)>,
    /// Processing instructions as `(key, value)` pairs.
    pub processing_instructions: Vec<(String, String)>,
}

/// What the worker sends to the server.
#[derive(Clone, Debug, PartialEq, Eq)]
pub enum OutboundRequest {
    Subscribe(CommandSubscription),
    FlowControl(FlowControl),
    CommandResponse(CommandResponse),
}

/// One outbound message with its instruction id.
#[derive(Clone, Debug, PartialEq, Eq)]
pub struct CommandProviderOutbound {
    pub instruction_id: String,
    pub request: OutboundRequest,
}

/// The outcome of one command, to be answered.
#[derive(Debug)]
pub struct AxonCommandResult {
    pub message_identifier: String,
    pub result: Result<Option<EmitEventsAndResponse>, WorkerError>,
}

/// `m` subscribes client `client_id` to command `command`.
pub open spec fn is_subscription(m: CommandProviderOutbound, client_id: Seq<char>, command: Seq<char>) -> bool {
    &&& is_canonical_uuid_v4(m.instruction_id@)
    &&& m.request matches OutboundRequest::Subscribe(s) && s.command@ == command && s.client_id@ == client_id
        && s.component_name@ == client_id && s.load_factor == LOAD_FACTOR && is_canonical_uuid_v4(s.message_id@)
}

/// `m` grants client `client_id` `permits` permits.
pub open spec fn is_flow_control(m: CommandProviderOutbound, client_id: Seq<char>, permits: i64) -> bool {
    &&& is_canonical_uuid_v4(m.instruction_id@)
    &&& m.request matches OutboundRequest::FlowControl(f) && f.client_id@ == client_id && f.permits == permits
}

/// `resp` answers the command `request` with outcome `result`: the payload of a
/// success, or the code `ERROR` with the error's text.
pub open spec fn answers(resp: CommandResponse, request: Seq<char>, result: Result<Option<EmitEventsAndResponse>, WorkerError>) -> bool {
    &&& is_canonical_uuid_v4(resp.message_identifier@)
    &&& resp.request_identifier@ == request
    &&& resp.meta_data@.len() == 0
    &&& resp.processing_instructions@.len() == 0
    &&& match result {
        Ok(r) => {
            &&& resp.error_code@ == Seq::<char>::empty()
            &&& resp.error_message is None
            &&& resp.payload == match r {
                Some(e) => e.response_view(),
                None => None,
            }
        },
        Err(e) => {
            &&& resp.error_code@ == "ERROR"@
            &&& resp.payload is None
            &&& resp.error_message matches Some(m) && m.message@ == error_text(e) && m.location@ == Seq::<
                char,
            >::empty() && m.details@.len() == 0 && m.error_code@ == "ERROR"@
        },
    }
}

/// The response to a command's outcome.
pub fn command_response(result: AxonCommandResult) -> (r: CommandResponse)
    ensures
        answers(r, result.message_identifier@, result.result),
{
    let AxonCommandResult { message_identifier, result } = result;
    match result {
        Ok(r) => CommandResponse {
            message_identifier: new_message_id(),
            request_identifier: message_identifier,
            payload: match r {
                Some(e) => e.into_response(),
                None => None,
            },
            error_code: String::new(),
            error_message: None,
            meta_data: Vec::new(),
            processing_instructions: Vec::new(),
        },
        Err(e) => CommandResponse {
            message_identifier: new_message_id(),
            request_identifier: message_identifier,
            payload: None,
            error_code: String::from_str("ERROR"),
            error_message: Some(
                ErrorMessage {
                    message: e.message(),
                    location: String::new(),
                    details: Vec::new(),
                    error_code: String::from_str("ERROR"),
                },
            ),
            meta_data: Vec::new(),
            processing_instructions: Vec::new(),
        },
    }
}

fn flow_control(client_id: &String, permits: i64) -> (r: CommandProviderOutbound)
    ensures
        is_flow_control(r, client_id@, permits),
{
    CommandProviderOutbound {
        instruction_id: new_message_id(),
        request: OutboundRequest::FlowControl(FlowControl { client_id: client_id.clone(), permits }),
    }
}

/// The outbound side of the command stream of one client. It tracks the permits the
/// server still holds for this client: every response uses one, and whenever no more
/// than one batch is left, another batch is granted.
pub struct OutboundStream {
    client_id: String,
    batch: i64,
    initial: i64,
    permits: i64,
    granted: Ghost<int>,
    sent: Ghost<int>,
}

proof fn lemma_mod_step(s: int, b: int)
    requires
        s >= 0,
        b > 0,
    ensures
        0 <= s % b < b,
        (s + 1) % b == if s % b == b - 1 {
            0
        } else {
            s % b + 1
        },
{
    lemma_mod_pos_bound(s, b);
    lemma_fundamental_div_mod(s, b);
    let q = s / b;
    let r = s % b;
    assert(q * b == b * q) by (nonlinear_arith);
    if r == b - 1 {
        assert((q + 1) * b == q * b + b) by (nonlinear_arith);
        lemma_fundamental_div_mod_converse(s + 1, b, q + 1, 0);
    } else {
        lemma_fundamental_div_mod_converse(s + 1, b, q, r + 1);
    }
}

impl OutboundStream {
    /// Permits are what was granted less what was used. More than a batch and at most
    /// the first grant or two batches are outstanding; where the first grant is two
    /// batches, it is that grant less the responses sent since the last top-up.
    pub closed spec fn wf(&self) -> bool {
        &&& self.sent@ >= 0
        &&& 0 < self.batch < self.initial
        &&& 2 * self.batch <= i64::MAX
        &&& self.permits == self.granted@ - self.sent@
        &&& self.batch < self.permits
        &&& self.permits <= self.initial || self.permits <= 2 * self.batch
        &&& self.initial == 2 * self.batch ==> self.permits == self.initial - self.sent@ % (self.batch as int)
    }

    pub closed spec fn client_id_view(&self) -> Seq<char> {
        self.client_id@
    }

    /// The unit of every grant after the first.
    pub closed spec fn batch(&self) -> i64 {
        self.batch
    }

    /// The first grant.
    pub closed spec fn initial(&self) -> i64 {
        self.initial
    }

    /// All permits granted so far.
    pub closed spec fn granted(&self) -> int {
        self.granted@
    }

    /// All responses sent so far.
    pub closed spec fn sent(&self) -> int {
        self.sent@
    }

    /// The permits the server still holds for this client.
    pub closed spec fn permits(&self) -> i64 {
        self.permits
    }

    /// Opens the stream for client `client_id` with the default grants: a first
    /// grant of two batches of three.
    pub fn open(client_id: String, commands: &Vec<String>) -> (r: (Self, Vec<CommandProviderOutbound>))
        ensures
            r.0.wf(),
            r.0.client_id_view() == client_id@,
            r.0.batch() == PERMITS_BATCH_SIZE,
            r.0.initial() == INITIAL_PERMITS,
            r.0.permits() == INITIAL_PERMITS,
            r.0.granted() == INITIAL_PERMITS,
            r.0.sent() == 0,
            r.1@.len() == commands@.len() + 1,
            forall|i: int| 0 <= i < commands@.len() ==> is_subscription(#[trigger] r.1@[i], client_id@, commands@[i]@),
            is_flow_control(r.1@[commands@.len() as int], client_id@, INITIAL_PERMITS),
    {
        Self::open_with_permits(client_id, commands, PERMITS_BATCH_SIZE, INITIAL_PERMITS)
    }

    /// Opens the stream for client `client_id`: one subscription per command name, in
    /// order, then the first grant, `initial_permits`. Later grants are of
    /// `permit_batch_size`.
    pub fn open_with_permits(
        client_id: String,
        commands: &Vec<String>,
        permit_batch_size: i64,
        initial_permits: i64,
    ) -> (r: (Self, Vec<CommandProviderOutbound>))
        requires
            0 < permit_batch_size < initial_permits,
            2 * permit_batch_size <= i64::MAX,
        ensures
            r.0.wf(),
            r.0.client_id_view() == client_id@,
            r.0.batch() == permit_batch_size,
            r.0.initial() == initial_permits,
            r.0.permits() == initial_permits,
            r.0.granted() == initial_permits,
            r.0.sent() == 0,
            r.1@.len() == commands@.len() + 1,
            forall|i: int| 0 <= i < commands@.len() ==> is_subscription(#[trigger] r.1@[i], client_id@, commands@[i]@),
            is_flow_control(r.1@[commands@.len() as int], client_id@, initial_permits),
    {
        let mut out: Vec<CommandProviderOutbound> = Vec::new();
        let mut i: usize = 0;
        while i < commands.len()
            invariant
                i <= commands@.len(),
                out@.len() == i,
                forall|j: int| 0 <= j < i ==> is_subscription(#[trigger] out@[j], client_id@, commands@[j]@),
            decreases commands@.len() - i,
        {
            let subscription = CommandSubscription {
                message_id: new_message_id(),
                command: commands[i].clone(),
                client_id: client_id.clone(),
                component_name: client_id.clone(),
                load_factor: LOAD_FACTOR,
            };
            out.push(
                CommandProviderOutbound {
                    instruction_id: new_message_id(),
                    request: OutboundRequest::Subscribe(subscription),
                },
            );
            i += 1;
        }
        out.push(flow_control(&client_id, initial_permits));
        let stream = OutboundStream {
            client_id,
            batch: permit_batch_size,
            initial: initial_permits,
            permits: initial_permits,
            granted: Ghost(initial_permits as int),
            sent: Ghost(0),
        };
        proof {
            assert(0int % (permit_batch_size as int) == 0) by (nonlinear_arith)
                requires permit_batch_size > 0;
        }
        (stream, out)
    }

    /// Answers one command: its response, then a grant of one more batch where the
    /// response leaves no more than a batch of permits.
    pub fn respond(&mut self, result: AxonCommandResult) -> (r: Vec<CommandProviderOutbound>)
        requires
            old(self).wf(),
        ensures
            final(self).wf(),
            final(self).client_id_view() == old(self).client_id_view(),
            final(self).batch() == old(self).batch(),
            final(self).initial() == old(self).initial(),
            final(self).sent() == old(self).sent() + 1,
            is_canonical_uuid_v4(r@[0].instruction_id@),
            r@[0].request matches OutboundRequest::CommandResponse(resp) && answers(
                resp,
                result.message_identifier@,
                result.result,
            ),
            old(self).permits() - 1 <= old(self).batch() ==> {
                &&& r@.len() == 2
                &&& is_flow_control(r@[1], old(self).client_id_view(), old(self).batch())
                &&& final(self).granted() == old(self).granted() + old(self).batch()
                &&& final(self).permits() == old(self).permits() - 1 + old(self).batch()
                &&& final(self).granted() - final(self).sent() == 2 * old(self).batch()
            },
            old(self).permits() - 1 > old(self).batch() ==> {
                &&& r@.len() == 1
                &&& final(self).granted() == old(self).granted()
                &&& final(self).permits() == old(self).permits() - 1
            },
    {
        let response = command_response(result);
        let mut out: Vec<CommandProviderOutbound> = Vec::new();
        out.push(
            CommandProviderOutbound {
                instruction_id: new_message_id(),
                request: OutboundRequest::CommandResponse(response),
            },
        );
        proof {
            lemma_mod_step(self.sent@, self.batch as int);
        }
        self.permits = self.permits - 1;
        self.sent = Ghost(self.sent@ + 1);
        if self.permits <= self.batch {
            out.push(flow_control(&self.client_id, self.batch));
            self.permits = self.permits + self.batch;
            self.granted = Ghost(self.granted@ + self.batch);
        }
        out
    }
}

/// Flow control stays solvent: the permits the server holds for the client are
/// always all the permits granted less the responses sent, and never fewer than a
/// batch and one. With the first grant at two batches, after every batch of responses
/// the permits granted less the responses sent are the first grant again.
pub proof fn lemma_flow_control_solvency(stream: OutboundStream)
    requires
        stream.wf(),
    ensures
        stream.granted() - stream.sent() == stream.permits(),
        0 < stream.batch() < stream.permits(),
        stream.permits() <= stream.initial() || stream.permits() <= 2 * stream.batch(),
        stream.initial() == 2 * stream.batch() && stream.sent() % (stream.batch() as int) == 0 ==> stream.granted()
            - stream.sent() == stream.initial(),
{
}

} // verus!
