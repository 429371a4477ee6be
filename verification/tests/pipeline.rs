//! Tests of the node pipeline: routing, admission, deduplication, the
//! concurrency bound, timeouts and draining.

use dkn_compute::codec::encode;
use dkn_compute::codec::encode_request;
use dkn_compute::codec::MessageKind;
use dkn_compute::codec::TaskRequest;
use dkn_compute::identity::NodeIdentity;
use dkn_compute::node::Action;
use dkn_compute::node::Node;
use dkn_compute::node::Phase;
use dkn_compute::node::RouteOutcome;
use dkn_compute::node::Topic;
use dkn_compute::registry::ConfigError;

const KIND: u64 = 7;
const CAPS: u64 = 0b1111;

fn request_bytes(task_id: u64, kind: u64, deadline: u64, requirements: u64, now: u64) -> Vec<u8> {
    let requester = NodeIdentity::from_seed(9999);
    let req = TaskRequest { task_id, kind, deadline, requirements, body: vec![1u8, 2, 3] };
    let payload = encode_request(&req);
    let env = requester.seal(MessageKind::TaskRequest, payload, now);
    encode(&env)
}

fn running_node(limit: usize) -> Node {
    let mut node = Node::new(42, CAPS, limit, 1000, 500, 50, 3);
    node.register_kind(KIND).expect("first registration succeeds");
    node.subscribe(Topic::Tasks);
    node.subscribe(Topic::Results);
    node.subscribe(Topic::Heartbeats);
    node.start();
    node
}

#[test]
fn admitted_task_starts_executor() {
    let mut node = running_node(2);
    let (outcome, actions) = node.handle_message(&request_bytes(1, KIND, 500, 0b1, 100), 100);
    assert_eq!(outcome, RouteOutcome::TaskAdmitted);
    assert_eq!(actions.len(), 1);
    match &actions[0] {
        Action::StartExecutor(req) => {
            assert_eq!(req.task_id, 1);
            assert_eq!(req.kind, KIND);
            assert_eq!(req.body, vec![1u8, 2, 3]);
        }
        _ => panic!("expected an executor start"),
    }
    assert_eq!(node.coordinator.active_len(), 1);
    assert_eq!(node.coordinator.metrics().admitted, 1);
}

#[test]
fn duplicate_delivery_is_deduplicated() {
    let mut node = running_node(2);
    let bytes = request_bytes(5, KIND, 500, 0, 100);
    let (first, _) = node.handle_message(&bytes, 100);
    assert_eq!(first, RouteOutcome::TaskAdmitted);
    let (second, actions) = node.handle_message(&bytes, 110);
    assert_eq!(second, RouteOutcome::TaskDeduplicated);
    assert_eq!(actions.len(), 0);
    assert_eq!(node.coordinator.active_len(), 1);
    assert_eq!(node.coordinator.metrics().deduplicated, 1);
}

#[test]
fn concurrency_bound_scenario() {
    // limit 2: A and B are admitted, C is rejected busy; after A completes,
    // D is admitted.
    let mut node = running_node(2);
    let (a, _) = node.handle_message(&request_bytes(1, KIND, 900, 0, 100), 100);
    let (b, _) = node.handle_message(&request_bytes(2, KIND, 900, 0, 101), 101);
    let (c, c_actions) = node.handle_message(&request_bytes(3, KIND, 900, 0, 102), 102);
    assert_eq!(a, RouteOutcome::TaskAdmitted);
    assert_eq!(b, RouteOutcome::TaskAdmitted);
    assert_eq!(c, RouteOutcome::TaskRejectedBusy);
    assert_eq!(c_actions.len(), 0);
    assert_eq!(node.coordinator.active_len(), 2);
    assert_eq!(node.coordinator.metrics().rejected_busy, 1);

    let published = node.on_executor_finished(1, true, vec![0u8], 150);
    assert_eq!(published.len(), 1);
    assert!(matches!(published[0], Action::Publish(Topic::Results, _)));

    let (d, _) = node.handle_message(&request_bytes(4, KIND, 900, 0, 160), 160);
    assert_eq!(d, RouteOutcome::TaskAdmitted);
    assert_eq!(node.coordinator.active_len(), 2);
}

#[test]
fn duplicate_before_completion_publishes_once() {
    // task E arrives twice before its execution finishes: the second
    // delivery is deduplicated and only one result is ever published.
    let mut node = running_node(2);
    let bytes = request_bytes(5, KIND, 900, 0, 100);
    let (first, _) = node.handle_message(&bytes, 100);
    let (second, _) = node.handle_message(&bytes, 120);
    assert_eq!(first, RouteOutcome::TaskAdmitted);
    assert_eq!(second, RouteOutcome::TaskDeduplicated);

    let actions = node.on_executor_finished(5, true, Vec::new(), 130);
    assert_eq!(actions.len(), 1);
    assert_eq!(node.coordinator.published_len(), 1);
    assert!(node.coordinator.was_published(5));

    // a late duplicate completion publishes nothing
    let late = node.on_executor_finished(5, true, Vec::new(), 140);
    assert_eq!(late.len(), 0);
    assert_eq!(node.coordinator.published_len(), 1);
}

#[test]
fn timeout_publishes_exactly_one_result() {
    // the executor never returns: the deadline elapses, cancellation is
    // signalled, and after the grace period exactly one timeout failure is
    // published; a later completion is discarded.
    let mut node = running_node(1);
    let (outcome, _) = node.handle_message(&request_bytes(8, KIND, 150, 0, 100), 100);
    assert_eq!(outcome, RouteOutcome::TaskAdmitted);

    // deadline passed: cancellation signalled, nothing published yet
    let actions = node.on_tick(200);
    assert_eq!(actions.len(), 0);
    assert_eq!(node.coordinator.active_len(), 1);

    // grace (50) elapsed: the slot is abandoned with one timeout result
    let actions = node.on_tick(250);
    assert_eq!(actions.len(), 1);
    assert!(matches!(actions[0], Action::Publish(Topic::Results, _)));
    assert_eq!(node.coordinator.active_len(), 0);
    assert_eq!(node.coordinator.metrics().timed_out, 1);
    assert!(node.coordinator.was_published(8));
    assert_eq!(node.coordinator.published_len(), 1);

    // the executor's eventual completion is discarded
    let late = node.on_executor_finished(8, true, Vec::new(), 260);
    assert_eq!(late.len(), 0);
    assert_eq!(node.coordinator.published_len(), 1);

    // and no further tick times the task out again
    let again = node.on_tick(400);
    assert_eq!(again.len(), 0);
    assert_eq!(node.coordinator.published_len(), 1);
}

#[test]
fn draining_scenario() {
    // once cancellation fires nothing new is admitted; in-flight slots are
    // cancelled within the grace period and the node stops.
    let mut node = running_node(2);
    let (a, _) = node.handle_message(&request_bytes(1, KIND, 900, 0, 100), 100);
    assert_eq!(a, RouteOutcome::TaskAdmitted);

    node.on_cancellation(300);
    assert_eq!(node.phase, Phase::Draining);

    let (refused, actions) = node.handle_message(&request_bytes(2, KIND, 900, 0, 310), 310);
    assert_eq!(refused, RouteOutcome::NotRunning);
    assert_eq!(actions.len(), 0);
    assert_eq!(node.coordinator.active_len(), 1);

    // grace (50) expired: the remaining slot is abandoned, a failure result
    // is published for it, and the transport is closed
    let actions = node.on_tick(350);
    assert_eq!(node.phase, Phase::Stopped);
    assert_eq!(node.coordinator.active_len(), 0);
    assert_eq!(actions.len(), 2);
    assert!(matches!(actions[0], Action::Publish(Topic::Results, _)));
    assert!(matches!(actions[1], Action::CloseTransport));
}

#[test]
fn draining_stops_early_when_all_slots_resolve() {
    let mut node = running_node(2);
    let (a, _) = node.handle_message(&request_bytes(1, KIND, 900, 0, 100), 100);
    assert_eq!(a, RouteOutcome::TaskAdmitted);
    node.on_cancellation(300);

    // the in-flight task finishes within the grace period
    let finished = node.on_executor_finished(1, true, Vec::new(), 310);
    assert_eq!(finished.len(), 1);

    // the next tick sees nothing in flight and stops before the deadline
    let actions = node.on_tick(320);
    assert_eq!(node.phase, Phase::Stopped);
    assert_eq!(actions.len(), 1);
    assert!(matches!(actions[0], Action::CloseTransport));
}

#[test]
fn cancellation_during_starting_is_fatal() {
    let mut node = Node::new(42, CAPS, 2, 1000, 500, 50, 3);
    node.on_cancellation(10);
    assert_eq!(node.phase, Phase::Stopped);
}

#[test]
fn tampered_envelope_never_reaches_dispatch() {
    let mut node = running_node(2);
    let mut bytes = request_bytes(1, KIND, 900, 0, 100);
    let last = bytes.len() - 1;
    bytes[last] = bytes[last].wrapping_add(1);
    let (outcome, actions) = node.handle_message(&bytes, 100);
    assert_eq!(outcome, RouteOutcome::VerificationFailed);
    assert_eq!(actions.len(), 0);
    assert_eq!(node.coordinator.active_len(), 0);
    assert_eq!(node.verification_failures, 1);
    assert_eq!(node.coordinator.metrics().admitted, 0);
}

#[test]
fn garbage_bytes_are_counted_as_decode_failures() {
    let mut node = running_node(2);
    let (outcome, actions) = node.handle_message(&vec![0xffu8; 4], 100);
    assert_eq!(outcome, RouteOutcome::DecodeFailed);
    assert_eq!(actions.len(), 0);
    assert_eq!(node.decode_failures, 1);
}

#[test]
fn ineligible_request_is_silently_dropped() {
    let mut node = running_node(2);
    // requires a capability bit the node does not advertise
    let (outcome, actions) = node.handle_message(&request_bytes(1, KIND, 900, 0b10000, 100), 100);
    assert_eq!(outcome, RouteOutcome::Ineligible);
    assert_eq!(actions.len(), 0);
    assert_eq!(node.coordinator.active_len(), 0);
}

#[test]
fn unsupported_kind_publishes_failure() {
    let mut node = running_node(2);
    let (outcome, actions) = node.handle_message(&request_bytes(1, 99, 900, 0, 100), 100);
    assert_eq!(outcome, RouteOutcome::TaskUnsupported);
    assert_eq!(actions.len(), 1);
    assert!(matches!(actions[0], Action::Publish(Topic::Results, _)));
    assert_eq!(node.coordinator.active_len(), 0);
    assert!(node.coordinator.was_published(1));
}

#[test]
fn results_and_heartbeats_are_forwarded() {
    let mut node = running_node(2);
    let peer = NodeIdentity::from_seed(77);
    let result_env = peer.seal(MessageKind::TaskResult, vec![1u8], 50);
    let (r1, a1) = node.handle_message(&encode(&result_env), 50);
    assert_eq!(r1, RouteOutcome::ResultForwarded);
    assert_eq!(a1.len(), 0);
    let beat_env = peer.seal(MessageKind::Heartbeat, Vec::new(), 51);
    let (r2, a2) = node.handle_message(&encode(&beat_env), 51);
    assert_eq!(r2, RouteOutcome::HeartbeatObserved);
    assert_eq!(a2.len(), 0);
    assert_eq!(node.coordinator.active_len(), 0);
}

#[test]
fn duplicate_registration_is_a_config_error() {
    let mut node = Node::new(42, CAPS, 2, 1000, 500, 50, 3);
    assert!(node.register_kind(KIND).is_ok());
    assert_eq!(node.register_kind(KIND), Err(ConfigError::DuplicateHandler));
    assert!(node.register_kind(KIND + 1).is_ok());
}

#[test]
fn subscription_is_idempotent() {
    let mut node = Node::new(42, CAPS, 2, 1000, 500, 50, 3);
    node.subscribe(Topic::Tasks);
    node.subscribe(Topic::Tasks);
    node.subscribe(Topic::Results);
    assert_eq!(node.topics.len(), 2);
}

#[test]
fn reconnect_backoff_is_bounded() {
    assert_eq!(dkn_compute::node::reconnect_delay(0, 3, 100), Some(100));
    assert_eq!(dkn_compute::node::reconnect_delay(1, 3, 100), Some(200));
    assert_eq!(dkn_compute::node::reconnect_delay(2, 3, 100), Some(400));
    assert_eq!(dkn_compute::node::reconnect_delay(3, 3, 100), None);
    // the exponent is capped
    assert_eq!(dkn_compute::node::reconnect_delay(40, 100, 100), Some(100 << 6));
}

#[test]
fn expired_seen_entry_allows_readmission() {
    // after the retention window (1000) a completed task's identifier may
    // be admitted again; within it, it is deduplicated.
    let mut node = running_node(2);
    let (a, _) = node.handle_message(&request_bytes(1, KIND, 900, 0, 100), 100);
    assert_eq!(a, RouteOutcome::TaskAdmitted);
    node.on_executor_finished(1, true, Vec::new(), 150);
    let (dup, _) = node.handle_message(&request_bytes(1, KIND, 2000, 0, 1050), 1050);
    assert_eq!(dup, RouteOutcome::TaskDeduplicated);
    let (again, _) = node.handle_message(&request_bytes(1, KIND, 3000, 0, 2000), 2000);
    assert_eq!(again, RouteOutcome::TaskAdmitted);
}

#[test]
fn metrics_count_each_outcome() {
    let mut node = running_node(1);
    let bytes1 = request_bytes(1, KIND, 900, 0, 100);
    node.handle_message(&bytes1, 100);
    node.handle_message(&bytes1, 101);
    node.handle_message(&request_bytes(2, KIND, 900, 0, 102), 102);
    node.on_executor_finished(1, false, Vec::new(), 110);
    let m = node.coordinator.metrics();
    assert_eq!(m.admitted, 1);
    assert_eq!(m.deduplicated, 1);
    assert_eq!(m.rejected_busy, 1);
    assert_eq!(m.succeeded, 0);
    assert_eq!(m.failed, 1);
    assert_eq!(m.timed_out, 0);
}
