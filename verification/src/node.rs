//! Node orchestrator: the lifecycle state machine and the routing of
//! network events.
//!
//! The node moves through `Starting -> Running -> Draining -> Stopped`. In
//! `Running` it takes each raw message delivered by the transport, decodes
//! and verifies it, and routes it: task announcements go through eligibility
//! and admission, results and heartbeats are forwarded to observers. An
//! envelope that fails decoding or verification is discarded and counted,
//! and never reaches eligibility or dispatch. When the process-wide
//! cancellation signal fires the node drains: nothing new is admitted,
//! in-flight slots get a bounded grace period, and at its end every
//! remaining slot is abandoned and the node stops.
//!
//! The surrounding process owns the sockets, the timers and the cancellation
//! primitive; it feeds events into these functions and performs the returned
//! actions (publishing bytes, starting executors, closing the transport).

use vstd::prelude::*;

use crate::codec::decode;
use crate::codec::decode_request;
use crate::codec::encode;
use crate::codec::encode_result;
use crate::codec::lemma_encode_injective;
use crate::codec::lemma_encode_request_injective;
use crate::codec::spec_decodable;
use crate::codec::spec_encode;
use crate::codec::spec_encode_result;
use crate::codec::spec_envelope_of;
use crate::codec::spec_request_decodable;
use crate::codec::spec_request_of;
use crate::codec::FailureReason;
use crate::codec::MessageKind;
use crate::codec::TaskRequest;
use crate::codec::TaskRequestView;
use crate::codec::TaskResult;
use crate::codec::TaskResultView;
use crate::codec::TaskStatus;
use crate::codec::EnvelopeView;
use crate::codec::RESULT_HEADER_LEN;
use crate::codec::PROTOCOL_VERSION;
use crate::coordinator::admit_model;
use crate::coordinator::complete_model;
use crate::coordinator::drain_model;
use crate::coordinator::force_abandon_model;
use crate::coordinator::sat_add64;
use crate::coordinator::scan_model;
use crate::coordinator::AdmitOutcome;
use crate::coordinator::CoordModel;
use crate::coordinator::Coordinator;
use crate::identity::auth_tag;
use crate::identity::result_tag;
use crate::identity::verify;
use crate::identity::NodeIdentity;
use crate::registry::eligible;
use crate::registry::is_eligible;
use crate::registry::TaskRegistry;

verus! {

/// The node's lifecycle phase.
#[derive(Clone, Copy, PartialEq, Eq, Structural, Debug)]
pub enum Phase {
    Starting,
    Running,
    Draining,
    Stopped,
}

/// The fixed publish/subscribe channels of the overlay.
#[derive(Clone, Copy, PartialEq, Eq, Structural, Debug)]
pub enum Topic {
    Tasks,
    Results,
    Heartbeats,
}

/// What the surrounding process must do after an event was handled.
pub enum Action {
    /// Send these bytes on this topic (best-effort).
    Publish(Topic, Vec<u8>),
    /// Hand this admitted request to a worker, with a cancellation handle
    /// for its slot.
    StartExecutor(TaskRequest),
    /// Close the transport; the node has stopped.
    CloseTransport,
}

impl Action {
    pub open spec fn is_publish(self) -> bool {
        self matches Action::Publish(_, _)
    }

    pub open spec fn publish_topic(self) -> Topic
        recommends
            self.is_publish(),
    {
        match self {
            Action::Publish(t, _) => t,
            _ => Topic::Results,
        }
    }

    pub open spec fn publish_bytes(self) -> Seq<u8>
        recommends
            self.is_publish(),
    {
        match self {
            Action::Publish(_, b) => b@,
            _ => Seq::empty(),
        }
    }

    pub open spec fn is_start_executor(self) -> bool {
        self matches Action::StartExecutor(_)
    }

    pub open spec fn start_request(self) -> TaskRequestView
        recommends
            self.is_start_executor(),
    {
        match self {
            Action::StartExecutor(r) => r@,
            _ => TaskRequestView { task_id: 0, kind: 0, deadline: 0, requirements: 0, body: Seq::empty() },
        }
    }

    pub open spec fn is_close(self) -> bool {
        self matches Action::CloseTransport
    }
}

/// How a delivered message was routed.
#[derive(Clone, Copy, PartialEq, Eq, Structural, Debug)]
pub enum RouteOutcome {
    /// The node is not in `Running`; the message is ignored.
    NotRunning,
    /// The envelope did not decode; discarded and counted.
    DecodeFailed,
    /// The envelope's tag did not verify; discarded and counted.
    VerificationFailed,
    /// A task announcement whose payload did not decode; discarded.
    BadTaskPayload,
    /// The request's requirements are not among this node's capabilities;
    /// silently dropped, not an error.
    Ineligible,
    /// Admitted into a slot and handed to a worker.
    TaskAdmitted,
    /// Admitted, but no executor is registered for its kind: a failure
    /// result is published at once.
    TaskUnsupported,
    /// Already seen; dropped without action.
    TaskDeduplicated,
    /// All slots occupied; the announcement is not taken.
    TaskRejectedBusy,
    /// A result envelope, forwarded to observers.
    ResultForwarded,
    /// A heartbeat envelope, forwarded to observers.
    HeartbeatObserved,
}

/// The wire bytes of the signed envelope this node publishes for a result.
pub open spec fn result_envelope_bytes(producer: u64, res: TaskResultView, now: u64) -> Seq<u8> {
    spec_encode(
        EnvelopeView {
            version: PROTOCOL_VERSION,
            kind: MessageKind::TaskResult,
            payload: spec_encode_result(res),
            signature: auth_tag(
                producer,
                PROTOCOL_VERSION,
                MessageKind::TaskResult,
                now,
                spec_encode_result(res),
            ),
            publisher: producer,
            timestamp: now,
        },
    )
}

/// The result this node publishes for a task that failed without output.
pub open spec fn failure_result_view(task_id: u64, producer: u64, reason: FailureReason) -> TaskResultView {
    TaskResultView {
        task_id,
        producer,
        status: TaskStatus::Failure(reason),
        body: Seq::empty(),
        signature: result_tag(task_id, producer, TaskStatus::Failure(reason), Seq::empty()),
    }
}

/// The delay before the next bootstrap or reconnect attempt: exponential in
/// the attempts already made, capped, or nothing once the configured number
/// of attempts is exhausted.
pub open spec fn spec_backoff_ms(base_ms: u64, attempt: u64) -> u64 {
    if attempt < 6 {
        sat_add64(base_ms << attempt, 0)
    } else {
        sat_add64(base_ms << 6, 0)
    }
}

/// Decides whether to retry a failed connection attempt, and after how
/// long. `attempt` counts the attempts already made.
pub fn reconnect_delay(attempt: u64, max_attempts: u64, base_ms: u64) -> (r: Option<u64>)
    ensures
        r is Some <==> attempt < max_attempts,
        r matches Some(d) ==> d == spec_backoff_ms(base_ms, attempt),
{
    if attempt < max_attempts {
        let shift: u64 = if attempt < 6 {
            attempt
        } else {
            6
        };
        Some(base_ms << shift)
    } else {
        None
    }
}

/// The node: identity, registry, coordinator and lifecycle state. The event
/// loop around it feeds it one event at a time; no operation here blocks.
pub struct Node {
    pub identity: NodeIdentity,
    pub registry: TaskRegistry,
    pub coordinator: Coordinator,
    /// The capability bits this node advertises.
    pub capabilities: u64,
    pub phase: Phase,
    /// Topics joined so far; joining is idempotent.
    pub topics: Vec<Topic>,
    /// When draining: the time at which remaining slots are abandoned.
    pub grace_deadline: u64,
    /// Discarded messages that did not decode.
    pub decode_failures: u64,
    /// Discarded envelopes whose tag did not verify.
    pub verification_failures: u64,
    /// Connection attempts made since the last successful connection.
    pub connect_attempts: u64,
    /// Configured bound on connection attempts.
    pub max_connect_attempts: u64,
}

impl Node {
    /// The node's structural invariant.
    pub open spec fn wf(self) -> bool {
        &&& self.coordinator@.wf()
        &&& self.registry.wf()
    }

    /// Builds a node in `Starting` from its configuration.
    pub fn new(
        seed: u64,
        capabilities: u64,
        limit: usize,
        retention: u64,
        max_duration: u64,
        grace: u64,
        max_connect_attempts: u64,
    ) -> (r: Node)
        ensures
            r.wf(),
            r.phase == Phase::Starting,
            r.coordinator@.slots.len() == 0,
            r.coordinator@.seen.len() == 0,
            r.coordinator@.published.len() == 0,
            r.coordinator@.limit == limit,
            r.coordinator@.retention == retention,
            r.capabilities == capabilities,
            r.registry.kinds_seq().len() == 0,
    {
        Node {
            identity: NodeIdentity::from_seed(seed),
            registry: TaskRegistry::new(),
            coordinator: Coordinator::new(limit, retention, max_duration, grace),
            capabilities,
            phase: Phase::Starting,
            topics: Vec::new(),
            grace_deadline: 0,
            decode_failures: 0,
            verification_failures: 0,
            connect_attempts: 0,
            max_connect_attempts,
        }
    }

    /// Joins a topic; joining an already-joined topic changes nothing.
    pub fn subscribe(&mut self, topic: Topic)
        ensures
            final(self).topics@.contains(topic),
            forall|t: Topic| final(self).topics@.contains(t) <==> (old(self).topics@.contains(t) || t == topic),
            final(self).phase == old(self).phase,
            final(self).coordinator == old(self).coordinator,
            final(self).registry == old(self).registry,
    {
        let mut i: usize = 0;
        while i < self.topics.len()
            invariant
                0 <= i <= self.topics@.len(),
                self == old(self),
                forall|j: int| 0 <= j < i ==> self.topics@[j] != topic,
            decreases self.topics@.len() - i,
        {
            if self.topics[i] == topic {
                proof {
                    assert(self.topics@.contains(topic));
                }
                return ;
            }
            i = i + 1;
        }
        self.topics.push(topic);
        proof {
            assert(self.topics@[self.topics@.len() - 1] == topic);
            assert forall|t: Topic|
                self.topics@.contains(t) <==> (old(self).topics@.contains(t) || t == topic) by {
                if self.topics@.contains(t) {
                    let j = choose|j: int| 0 <= j < self.topics@.len() && self.topics@[j] == t;
                    if j < old(self).topics@.len() {
                        assert(old(self).topics@[j] == t);
                    }
                }
                if old(self).topics@.contains(t) {
                    let j = choose|j: int|
                        0 <= j < old(self).topics@.len() && old(self).topics@[j] == t;
                    assert(self.topics@[j] == t);
                }
            }
        }
    }

    /// Leaves `Starting` once identity, transport, subscriptions and
    /// handler registration are in place.
    pub fn start(&mut self)
        requires
            old(self).phase == Phase::Starting,
        ensures
            final(self).phase == Phase::Running,
            final(self).coordinator == old(self).coordinator,
            final(self).registry == old(self).registry,
            final(self).wf() == old(self).wf(),
    {
        self.phase = Phase::Running;
        self.connect_attempts = 0;
    }

    /// Records a failed connection attempt and decides whether to retry:
    /// the delay before the next attempt, or nothing once the bounded
    /// attempts are exhausted (fatal during `Starting`).
    pub fn on_connection_lost(&mut self, base_ms: u64) -> (r: Option<u64>)
        ensures
            final(self).connect_attempts == bump_attempts(old(self).connect_attempts),
            r is Some <==> bump_attempts(old(self).connect_attempts)
                < old(self).max_connect_attempts,
            final(self).phase == old(self).phase,
            final(self).coordinator == old(self).coordinator,
    {
        self.connect_attempts = if self.connect_attempts == u64::MAX {
            self.connect_attempts
        } else {
            self.connect_attempts + 1
        };
        reconnect_delay(self.connect_attempts, self.max_connect_attempts, base_ms)
    }

    /// Records a successful (re)connection.
    pub fn on_connected(&mut self)
        ensures
            *final(self) == (Node { connect_attempts: 0, ..*old(self) }),
    {
        self.connect_attempts = 0;
    }
}

/// A failed-attempt counter, saturating.
pub open spec fn bump_attempts(x: u64) -> u64 {
    if x == u64::MAX {
        x
    } else {
        (x + 1) as u64
    }
}


/// The task status reported for an executor outcome.
pub open spec fn status_of(ok: bool) -> TaskStatus {
    if ok {
        TaskStatus::Success
    } else {
        TaskStatus::Failure(FailureReason::Executor)
    }
}

/// How a delivered message is routed, as a function of the node's state.
pub open spec fn route_outcome_spec(n: Node, bytes: Seq<u8>, now: u64) -> RouteOutcome {
    if n.phase != Phase::Running {
        RouteOutcome::NotRunning
    } else if !spec_decodable(bytes) {
        RouteOutcome::DecodeFailed
    } else {
        let env = spec_envelope_of(bytes);
        if !env.signed() {
            RouteOutcome::VerificationFailed
        } else if env.kind == MessageKind::TaskResult {
            RouteOutcome::ResultForwarded
        } else if env.kind == MessageKind::Heartbeat {
            RouteOutcome::HeartbeatObserved
        } else if !spec_request_decodable(env.payload) {
            RouteOutcome::BadTaskPayload
        } else {
            let req = spec_request_of(env.payload);
            if !eligible(req.requirements, n.capabilities) {
                RouteOutcome::Ineligible
            } else {
                let out = admit_model(n.coordinator@, req.task_id, req.deadline, now).1;
                if out == AdmitOutcome::Deduplicated {
                    RouteOutcome::TaskDeduplicated
                } else if out == AdmitOutcome::RejectedBusy {
                    RouteOutcome::TaskRejectedBusy
                } else if n.registry.registered(req.kind) {
                    RouteOutcome::TaskAdmitted
                } else {
                    RouteOutcome::TaskUnsupported
                }
            }
        }
    }
}

/// The coordinator state after a delivered message is routed: only an
/// eligible, verified task announcement moves the coordinator.
pub open spec fn route_coordinator_spec(n: Node, bytes: Seq<u8>, now: u64) -> CoordModel {
    let out = route_outcome_spec(n, bytes, now);
    if out == RouteOutcome::TaskDeduplicated || out == RouteOutcome::TaskRejectedBusy
        || out == RouteOutcome::TaskAdmitted || out == RouteOutcome::TaskUnsupported {
        let req = spec_request_of(spec_envelope_of(bytes).payload);
        let m1 = admit_model(n.coordinator@, req.task_id, req.deadline, now).0;
        if out == RouteOutcome::TaskUnsupported {
            complete_model(m1, req.task_id, false).0
        } else {
            m1
        }
    } else {
        n.coordinator@
    }
}

impl Node {
    /// Registers an executor for a task kind during `Starting`.
    pub fn register_kind(&mut self, kind: u64) -> (r: Result<(), crate::registry::ConfigError>)
        requires
            old(self).wf(),
        ensures
            final(self).wf(),
            r is Ok <==> !old(self).registry.registered(kind),
            forall|k: u64|
                final(self).registry.registered(k) <==> (old(self).registry.registered(k) || (
                r is Ok && k == kind)),
            final(self).phase == old(self).phase,
            final(self).coordinator == old(self).coordinator,
    {
        self.registry.register(kind)
    }

    /// Builds, signs and frames the envelope publishing a task result.
    fn make_result_action(&self, task_id: u64, status: TaskStatus, body: Vec<u8>, now: u64) -> (r:
        Action)
        requires
            body@.len() + RESULT_HEADER_LEN <= u32::MAX,
        ensures
            r.is_publish(),
            r.publish_topic() == Topic::Results,
            r.publish_bytes() == result_envelope_bytes(
                self.identity.peer_id,
                TaskResultView {
                    task_id,
                    producer: self.identity.peer_id,
                    status,
                    body: body@,
                    signature: result_tag(task_id, self.identity.peer_id, status, body@),
                },
                now,
            ),
    {
        let ghost bodyv = body@;
        let signature: u64 = crate::identity::compute_result_tag(
            task_id,
            self.identity.peer_id,
            status,
            &body,
        );
        let res = TaskResult { task_id, producer: self.identity.peer_id, status, body, signature };
        let ghost resv = TaskResultView {
            task_id,
            producer: self.identity.peer_id,
            status,
            body: bodyv,
            signature: result_tag(task_id, self.identity.peer_id, status, bodyv),
        };
        proof {
            assert(res@ =~= resv);
        }
        let payload: Vec<u8> = encode_result(&res);
        let env = self.identity.seal(MessageKind::TaskResult, payload, now);
        let bytes: Vec<u8> = encode(&env);
        proof {
            assert(env@ =~= EnvelopeView {
                version: PROTOCOL_VERSION,
                kind: MessageKind::TaskResult,
                payload: spec_encode_result(resv),
                signature: auth_tag(
                    self.identity.peer_id,
                    PROTOCOL_VERSION,
                    MessageKind::TaskResult,
                    now,
                    spec_encode_result(resv),
                ),
                publisher: self.identity.peer_id,
                timestamp: now,
            });
        }
        Action::Publish(Topic::Results, bytes)
    }

    /// Publishes one failure result without output per identifier, in order.
    fn push_failure_results(
        &self,
        actions: &mut Vec<Action>,
        ids: &Vec<u64>,
        reason: FailureReason,
        now: u64,
    )
        ensures
            final(actions)@.len() == old(actions)@.len() + ids@.len(),
            forall|k: int| 0 <= k < old(actions)@.len() ==> final(actions)@[k] == old(actions)@[k],
            forall|k: int|
                0 <= k < ids@.len() ==> {
                    let a = #[trigger] final(actions)@[old(actions)@.len() + k];
                    a.is_publish() && a.publish_topic() == Topic::Results && a.publish_bytes()
                        == result_envelope_bytes(
                        self.identity.peer_id,
                        failure_result_view(ids@[k], self.identity.peer_id, reason),
                        now,
                    )
                },
    {
        let mut k: usize = 0;
        while k < ids.len()
            invariant
                0 <= k <= ids@.len(),
                actions@.len() == old(actions)@.len() + k,
                forall|j: int| 0 <= j < old(actions)@.len() ==> actions@[j] == old(actions)@[j],
                forall|j: int|
                    0 <= j < k ==> {
                        let a = #[trigger] actions@[old(actions)@.len() + j];
                        a.is_publish() && a.publish_topic() == Topic::Results && a.publish_bytes()
                            == result_envelope_bytes(
                            self.identity.peer_id,
                            failure_result_view(ids@[j], self.identity.peer_id, reason),
                            now,
                        )
                    },
            decreases ids@.len() - k,
        {
            let id: u64 = ids[k];
            let body: Vec<u8> = Vec::new();
            proof {
                assert(failure_result_view(id, self.identity.peer_id, reason) =~= TaskResultView {
                    task_id: id,
                    producer: self.identity.peer_id,
                    status: TaskStatus::Failure(reason),
                    body: Seq::empty(),
                    signature: result_tag(
                        id,
                        self.identity.peer_id,
                        TaskStatus::Failure(reason),
                        Seq::empty(),
                    ),
                });
            }
            let a = self.make_result_action(id, TaskStatus::Failure(reason), body, now);
            actions.push(a);
            k = k + 1;
        }
    }

    /// Routes one raw message delivered by the transport. Only a verified,
    /// eligible task announcement can reach admission; everything else is
    /// forwarded, dropped or counted exactly as the outcome says.
    pub fn handle_message(&mut self, bytes: &Vec<u8>, now: u64) -> (r: (RouteOutcome, Vec<Action>))
        requires
            old(self).wf(),
        ensures
            final(self).wf(),
            r.0 == route_outcome_spec(*old(self), bytes@, now),
            final(self).coordinator@ == route_coordinator_spec(*old(self), bytes@, now),
            final(self).phase == old(self).phase,
            final(self).identity == old(self).identity,
            final(self).registry == old(self).registry,
            final(self).capabilities == old(self).capabilities,
            final(self).topics == old(self).topics,
            final(self).grace_deadline == old(self).grace_deadline,
            r.0 == RouteOutcome::DecodeFailed ==> final(self).decode_failures == bump_attempts(
                old(self).decode_failures,
            ),
            r.0 == RouteOutcome::VerificationFailed ==> final(self).verification_failures
                == bump_attempts(old(self).verification_failures),
            r.0 != RouteOutcome::DecodeFailed ==> final(self).decode_failures == old(self).decode_failures,
            r.0 != RouteOutcome::VerificationFailed ==> final(self).verification_failures == old(self).verification_failures,
            r.0 == RouteOutcome::TaskAdmitted ==> r.1@.len() == 1 && r.1@[0].is_start_executor()
                && r.1@[0].start_request() == spec_request_of(spec_envelope_of(bytes@).payload),
            r.0 == RouteOutcome::TaskUnsupported ==> r.1@.len() == 1 && r.1@[0].is_publish()
                && r.1@[0].publish_topic() == Topic::Results && r.1@[0].publish_bytes()
                == result_envelope_bytes(
                old(self).identity.peer_id,
                failure_result_view(
                    spec_request_of(spec_envelope_of(bytes@).payload).task_id,
                    old(self).identity.peer_id,
                    FailureReason::UnsupportedKind,
                ),
                now,
            ),
            r.0 != RouteOutcome::TaskAdmitted && r.0 != RouteOutcome::TaskUnsupported ==> r.1@.len()
                == 0,
    {
        let actions: Vec<Action> = Vec::new();
        if !matches!(self.phase, Phase::Running) {
            return (RouteOutcome::NotRunning, actions);
        }
        let env = match decode(bytes) {
            Ok(env) => env,
            Err(_) => {
                self.decode_failures = if self.decode_failures == u64::MAX {
                    self.decode_failures
                } else {
                    self.decode_failures + 1
                };
                proof {
                    assert(!spec_decodable(bytes@));
                }
                return (RouteOutcome::DecodeFailed, actions);
            },
        };
        proof {
            assert(spec_decodable(bytes@));
            let v = spec_envelope_of(bytes@);
            lemma_encode_injective(env@, v);
            assert(spec_envelope_of(bytes@) == env@);
        }
        if !verify(&env) {
            self.verification_failures = if self.verification_failures == u64::MAX {
                self.verification_failures
            } else {
                self.verification_failures + 1
            };
            return (RouteOutcome::VerificationFailed, actions);
        }
        match env.kind {
            MessageKind::TaskResult => (RouteOutcome::ResultForwarded, actions),
            MessageKind::Heartbeat => (RouteOutcome::HeartbeatObserved, actions),
            MessageKind::TaskRequest => {
                let req = match decode_request(&env.payload) {
                    Ok(req) => req,
                    Err(_) => {
                        proof {
                            assert(!spec_request_decodable(env@.payload));
                        }
                        return (RouteOutcome::BadTaskPayload, actions);
                    },
                };
                proof {
                    assert(spec_request_decodable(env@.payload));
                    let v = spec_request_of(env@.payload);
                    lemma_encode_request_injective(req@, v);
                    assert(spec_request_of(env@.payload) == req@);
                }
                if !is_eligible(&req, self.capabilities) {
                    return (RouteOutcome::Ineligible, actions);
                }
                let verdict = self.coordinator.admit_task(req.task_id, req.deadline, now);
                match verdict {
                    AdmitOutcome::Deduplicated => (RouteOutcome::TaskDeduplicated, actions),
                    AdmitOutcome::RejectedBusy => (RouteOutcome::TaskRejectedBusy, actions),
                    AdmitOutcome::Admitted => {
                        if self.registry.contains_kind(req.kind) {
                            let mut acts: Vec<Action> = actions;
                            let ghost reqv = req@;
                            acts.push(Action::StartExecutor(req));
                            proof {
                                assert(acts@[0].start_request() == reqv);
                            }
                            (RouteOutcome::TaskAdmitted, acts)
                        } else {
                            let task_id: u64 = req.task_id;
                            self.coordinator.complete(task_id, false);
                            let body: Vec<u8> = Vec::new();
                            proof {
                                assert(failure_result_view(
                                    task_id,
                                    self.identity.peer_id,
                                    FailureReason::UnsupportedKind,
                                ) =~= TaskResultView {
                                    task_id,
                                    producer: self.identity.peer_id,
                                    status: TaskStatus::Failure(FailureReason::UnsupportedKind),
                                    body: Seq::empty(),
                                    signature: result_tag(
                                        task_id,
                                        self.identity.peer_id,
                                        TaskStatus::Failure(FailureReason::UnsupportedKind),
                                        Seq::empty(),
                                    ),
                                });
                            }
                            let a = self.make_result_action(
                                task_id,
                                TaskStatus::Failure(FailureReason::UnsupportedKind),
                                body,
                                now,
                            );
                            let mut acts: Vec<Action> = actions;
                            acts.push(a);
                            (RouteOutcome::TaskUnsupported, acts)
                        }
                    },
                }
            },
        }
    }

    /// Takes a worker's completion report: frees the slot and publishes the
    /// signed result; a report for an unknown or abandoned task publishes
    /// nothing.
    pub fn on_executor_finished(&mut self, task_id: u64, ok: bool, body: Vec<u8>, now: u64) -> (r:
        Vec<Action>)
        requires
            old(self).wf(),
            body@.len() + RESULT_HEADER_LEN <= u32::MAX,
        ensures
            final(self).wf(),
            final(self).coordinator@ == complete_model(old(self).coordinator@, task_id, ok).0,
            final(self).phase == old(self).phase,
            final(self).identity == old(self).identity,
            final(self).registry == old(self).registry,
            old(self).coordinator@.has_slot(task_id) ==> r@.len() == 1 && r@[0].is_publish()
                && r@[0].publish_topic() == Topic::Results && r@[0].publish_bytes()
                == result_envelope_bytes(
                old(self).identity.peer_id,
                TaskResultView {
                    task_id,
                    producer: old(self).identity.peer_id,
                    status: status_of(ok),
                    body: body@,
                    signature: result_tag(
                        task_id,
                        old(self).identity.peer_id,
                        status_of(ok),
                        body@,
                    ),
                },
                now,
            ),
            !old(self).coordinator@.has_slot(task_id) ==> r@.len() == 0,
    {
        let mut actions: Vec<Action> = Vec::new();
        let published: bool = self.coordinator.complete(task_id, ok);
        if published {
            let status: TaskStatus = if ok {
                TaskStatus::Success
            } else {
                TaskStatus::Failure(FailureReason::Executor)
            };
            let a = self.make_result_action(task_id, status, body, now);
            actions.push(a);
        }
        actions
    }

    /// Reacts to the process-wide cancellation signal: a running node starts
    /// draining (cancellation is signalled to every slot, with the full
    /// grace period); a starting node stops at once; a draining or stopped
    /// node is unchanged.
    pub fn on_cancellation(&mut self, now: u64)
        requires
            old(self).wf(),
        ensures
            final(self).wf(),
            old(self).phase == Phase::Running ==> final(self).phase == Phase::Draining && final(self).coordinator@ == drain_model(old(self).coordinator@, now) && final(self).grace_deadline
                == sat_add64(now, old(self).coordinator@.grace),
            old(self).phase == Phase::Starting ==> final(self).phase == Phase::Stopped && final(self).coordinator == old(self).coordinator,
            old(self).phase == Phase::Draining || old(self).phase == Phase::Stopped ==> *final(self) == *old(self),
            final(self).identity == old(self).identity,
    {
        match self.phase {
            Phase::Running => {
                let grace: u64 = self.coordinator.grace();
                self.coordinator.drain(now);
                self.grace_deadline = if now > u64::MAX - grace {
                    u64::MAX
                } else {
                    now + grace
                };
                self.phase = Phase::Draining;
            },
            Phase::Starting => {
                self.phase = Phase::Stopped;
            },
            Phase::Draining => {},
            Phase::Stopped => {},
        }
    }

    /// Advances time: enforces per-task timeouts, publishing exactly one
    /// timeout failure per abandoned slot; and, while draining, stops the
    /// node once every slot resolved or the grace period expired, abandoning
    /// whatever is left and closing the transport.
    pub fn on_tick(&mut self, now: u64) -> (r: Vec<Action>)
        requires
            old(self).wf(),
        ensures
            final(self).wf(),
            final(self).identity == old(self).identity,
            final(self).registry == old(self).registry,
            old(self).phase == Phase::Starting || old(self).phase == Phase::Stopped ==> *final(self)
                == *old(self) && r@.len() == 0,
            old(self).phase == Phase::Running ==> final(self).phase == Phase::Running && final(self).coordinator@ == scan_model(old(self).coordinator@, now).0,
            old(self).phase == Phase::Draining ==> (final(self).phase == Phase::Stopped <==> (now
                >= old(self).grace_deadline || scan_model(
                old(self).coordinator@,
                now,
            ).0.slots.len() == 0)),
            old(self).phase == Phase::Draining && now >= old(self).grace_deadline ==> final(self).phase == Phase::Stopped && final(self).coordinator@.slots.len() == 0,
            old(self).phase == Phase::Draining && final(self).phase == Phase::Stopped ==> ({
                let ts = scan_model(old(self).coordinator@, now).1;
                let ab = force_abandon_model(scan_model(old(self).coordinator@, now).0).1;
                &&& final(self).coordinator@ == force_abandon_model(
                    scan_model(old(self).coordinator@, now).0,
                ).0
                &&& final(self).coordinator@.slots.len() == 0
                &&& r@.len() == ts.len() + ab.len() + 1
                &&& r@[r@.len() - 1].is_close()
                &&& forall|k: int|
                    0 <= k < ab.len() ==> {
                        let a = #[trigger] r@[ts.len() + k];
                        a.is_publish() && a.publish_topic() == Topic::Results && a.publish_bytes()
                            == result_envelope_bytes(
                            old(self).identity.peer_id,
                            failure_result_view(
                                ab[k],
                                old(self).identity.peer_id,
                                FailureReason::Cancelled,
                            ),
                            now,
                        )
                    }
            }),
            old(self).phase == Phase::Draining && final(self).phase != Phase::Stopped ==> final(self).phase == Phase::Draining && final(self).coordinator@ == scan_model(
                old(self).coordinator@,
                now,
            ).0,
            ({
                let ts = scan_model(old(self).coordinator@, now).1;
                (old(self).phase == Phase::Running || old(self).phase == Phase::Draining)
                    ==> r@.len() >= ts.len() && forall|k: int|
                    0 <= k < ts.len() ==> {
                        let a = #[trigger] r@[k];
                        a.is_publish() && a.publish_topic() == Topic::Results && a.publish_bytes()
                            == result_envelope_bytes(
                            old(self).identity.peer_id,
                            failure_result_view(
                                ts[k],
                                old(self).identity.peer_id,
                                FailureReason::Timeout,
                            ),
                            now,
                        )
                    }
            }),
    {
        let mut actions: Vec<Action> = Vec::new();
        if matches!(self.phase, Phase::Starting) || matches!(self.phase, Phase::Stopped) {
            return actions;
        }
        let timed: Vec<u64> = self.coordinator.scan_timeouts(now);
        self.push_failure_results(&mut actions, &timed, FailureReason::Timeout, now);
        proof {
            assert forall|k: int| 0 <= k < timed@.len() implies ((#[trigger] actions@[k]).is_publish()
                && actions@[k].publish_topic() == Topic::Results && actions@[k].publish_bytes()
                == result_envelope_bytes(
                old(self).identity.peer_id,
                failure_result_view(timed@[k], old(self).identity.peer_id, FailureReason::Timeout),
                now,
            )) by {
                assert(actions@[0 + k] == actions@[k]);
            }
        }
        let ghost acts1 = actions@;
        if matches!(self.phase, Phase::Draining) {
            let active: usize = self.coordinator.active_len();
            if now >= self.grace_deadline || active == 0 {
                let abandoned: Vec<u64> = self.coordinator.force_abandon_all();
                self.push_failure_results(&mut actions, &abandoned, FailureReason::Cancelled, now);
                let ghost acts2 = actions@;
                actions.push(Action::CloseTransport);
                self.phase = Phase::Stopped;
                proof {
                    assert(forall|k: int| 0 <= k < acts1.len() ==> actions@[k] == acts1[k]);
                    assert(actions@[actions@.len() - 1].is_close());
                    assert forall|k: int| 0 <= k < abandoned@.len() implies ((#[trigger] actions@[timed@.len() + k]).is_publish() && actions@[timed@.len() + k].publish_topic() == Topic::Results
                        && actions@[timed@.len() + k].publish_bytes() == result_envelope_bytes(
                        old(self).identity.peer_id,
                        failure_result_view(
                            abandoned@[k],
                            old(self).identity.peer_id,
                            FailureReason::Cancelled,
                        ),
                        now,
                    )) by {
                        assert(acts2[acts1.len() + k] == actions@[timed@.len() + k]);
                    }
                }
            }
        }
        proof {
            let ts = scan_model(old(self).coordinator@, now).1;
            assert(timed@ == ts);
            assert forall|k: int| 0 <= k < ts.len() implies ((#[trigger] actions@[k]).is_publish()
                && actions@[k].publish_topic() == Topic::Results && actions@[k].publish_bytes()
                == result_envelope_bytes(
                old(self).identity.peer_id,
                failure_result_view(ts[k], old(self).identity.peer_id, FailureReason::Timeout),
                now,
            )) by {
                assert(acts1[k] == actions@[k]);
            }
        }
        actions
    }
}


/// Envelope integrity: a message that decodes but whose tag does not verify
/// is discarded and counted; it never reaches eligibility, admission or
/// dispatch, and the coordinator does not move.
pub proof fn lemma_tampered_envelope_discarded(n: Node, bytes: Seq<u8>, now: u64)
    requires
        n.phase == Phase::Running,
        spec_decodable(bytes),
        !spec_envelope_of(bytes).signed(),
    ensures
        route_outcome_spec(n, bytes, now) == RouteOutcome::VerificationFailed,
        route_coordinator_spec(n, bytes, now) == n.coordinator@,
{
}

/// Draining admits nothing: once the node has left `Running`, routing any
/// message admits no task and changes no coordinator state.
pub proof fn lemma_draining_admits_nothing(n: Node, bytes: Seq<u8>, now: u64)
    requires
        n.phase != Phase::Running,
    ensures
        route_outcome_spec(n, bytes, now) == RouteOutcome::NotRunning,
        route_coordinator_spec(n, bytes, now) == n.coordinator@,
{
}

} // verus!

