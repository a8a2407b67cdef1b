use vroom::nvme_future;
use vroom::poller::{backoff_update, PollerAction, BACKOFF_MAX_COUNT, POLL_BUDGET};
use vroom::queues::NvmeCompletion;
use vroom::request::{resolve, CompletionMessage, ReceiverPoll, State};
use vroom::NvmeError;

#[test]
fn receiver_not_ready_keeps_request_pending() {
    let (state, out) = resolve(ReceiverPoll::NotReady);
    assert_eq!(state, State::Pending);
    assert_eq!(out, None);
}

#[test]
fn successful_delivery_completes_request() {
    let (state, out) = resolve(ReceiverPoll::Message(CompletionMessage::Success));
    assert_eq!(state, State::Completed);
    assert_eq!(out, Some(Ok(())));
}

#[test]
fn device_fault_surfaces_nvme_status() {
    let (state, out) = resolve(ReceiverPoll::Message(CompletionMessage::Fault(0x80)));
    assert_eq!(state, State::Error);
    assert_eq!(out, Some(Err(NvmeError::NvmeStatus(0x80))));
}

#[test]
fn closed_channel_resolves_to_channel_closed() {
    let (state, out) = resolve(ReceiverPoll::Closed);
    assert_eq!(state, State::Error);
    assert_eq!(out, Some(Err(NvmeError::ChannelClosed)));
}

#[test]
fn state_names_match_lifecycle() {
    assert_eq!(State::Submitted.describe(), "Submitted");
    assert_eq!(State::Pending.describe(), "Waiting");
    assert_eq!(State::Completed.describe(), "Completed");
    assert_eq!(State::Error.describe(), "Error");
}

#[test]
fn awaitable_moves_to_waiting_then_resolves() {
    let mut req = nvme_future::Request::new(7, 0, 2);
    assert_eq!(req.c_id, 7);
    assert_eq!(req.r_id, 0);
    assert_eq!(req.q_id, 2);
    assert!(matches!(req.state, nvme_future::State::Submitted));
    // First poll registers the waker and parks the caller.
    assert_eq!(req.poll_step(), None);
    assert!(matches!(req.state, nvme_future::State::Waiting));
    // Further polls stay parked.
    assert_eq!(req.poll_step(), None);
    // Delivery makes the next poll ready.
    let mut entry = NvmeCompletion::zeroed();
    entry.c_id = 7;
    entry.status = 1;
    req.complete(entry);
    let got = req.poll_step().unwrap();
    assert_eq!(got.c_id, 7);
    assert_eq!(got.status, 1);
}

#[test]
fn backoff_resets_on_work() {
    assert_eq!(backoff_update(17, 3), (0, PollerAction::Continue));
}

#[test]
fn backoff_yields_while_recently_busy() {
    assert_eq!(backoff_update(0, 0), (1, PollerAction::Yield));
    assert_eq!(backoff_update(9, 0), (10, PollerAction::Yield));
}

#[test]
fn backoff_sleep_doubles_and_saturates_at_one_millisecond() {
    assert_eq!(backoff_update(10, 0), (11, PollerAction::Sleep(2)));
    assert_eq!(backoff_update(11, 0), (12, PollerAction::Sleep(4)));
    assert_eq!(backoff_update(18, 0), (19, PollerAction::Sleep(512)));
    assert_eq!(backoff_update(19, 0), (20, PollerAction::Sleep(1024)));
    // The counter saturates: the sleep never exceeds 1024 microseconds.
    assert_eq!(backoff_update(20, 0), (BACKOFF_MAX_COUNT, PollerAction::Sleep(1024)));
    assert_eq!(backoff_update(u32::MAX - 1, 0), (BACKOFF_MAX_COUNT, PollerAction::Sleep(1024)));
}

#[test]
fn poll_budget_matches_poller_pass() {
    assert_eq!(POLL_BUDGET, 16);
}
