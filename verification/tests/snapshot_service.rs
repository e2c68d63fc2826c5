use ubiblk::bgworker_model::BgWorkerRequest;
use ubiblk::metadata::shared_state::SharedMetadataState;
use ubiblk::metadata::types::UbiMetadata;
use ubiblk::push_gate::PushGate;
use ubiblk::snapshot_service::{
    pushed_request, reconnect_after, relay_step, AdmitStep, Attached, PushedFrame, RelayStep,
    Subscription, RECONNECT_DELAY_MS,
};

fn liveness() -> SharedMetadataState {
    SharedMetadataState::new(&UbiMetadata::new(3, 4, 0))
}

/// Relay one frame while the subscription is up: the stripe handed on, or
/// whether the relay ended cleanly.
fn relay(gate: &mut PushGate, frame: Option<PushedFrame>) -> Result<usize, bool> {
    match relay_step(frame) {
        RelayStep::Forward { stripe_id, data } => {
            let permit = gate.acquire().expect("a free slot");
            match pushed_request(stripe_id, data, permit) {
                BgWorkerRequest::PushedStripe {
                    stripe_id, permit, ..
                } => {
                    gate.release(permit);
                    Ok(stripe_id)
                }
                _ => panic!("a push is handed on as a push"),
            }
        }
        RelayStep::Finished => Err(true),
        RelayStep::Closed => Err(false),
    }
}

fn push_of_stripe_0() -> Option<PushedFrame> {
    Some(PushedFrame::Stripe {
        stripe_id: 0,
        data: vec![7; 8 * 512],
    })
}

#[test]
fn source_live_true_after_first_subscribe() {
    let mut state = liveness();
    let mut gate = PushGate::new(4);
    assert!(!state.source_live(), "nothing is live before subscribing");
    let mut subscription = Subscription::new();
    assert_eq!(subscription.attach(&mut state, 1), Attached::First);
    assert!(state.source_live());

    let ended = relay(&mut gate, Some(PushedFrame::End));
    subscription.detach(&mut state);
    assert_eq!(ended, Err(true));
    assert_eq!(reconnect_after(true), None);
    assert_eq!(
        subscription.first_generation,
        Some(1),
        "the first subscription is remembered"
    );
}

#[test]
fn source_live_false_after_end() {
    let mut state = liveness();
    let mut gate = PushGate::new(4);
    let mut subscription = Subscription::new();
    subscription.attach(&mut state, 1);
    assert!(state.source_live());

    // A push flows while the subscription is up, and it stays live.
    assert_eq!(relay(&mut gate, push_of_stripe_0()), Ok(0));
    assert!(state.source_live());

    let ended = relay(&mut gate, Some(PushedFrame::End));
    subscription.detach(&mut state);
    assert_eq!(ended, Err(true), "End is a clean exit");
    assert!(!state.source_live());
}

/// A dropped connection is an error, so the subscriber reconnects; but the
/// pushes it missed in between were copied out and cannot be pulled, so the
/// source is never live again.
#[test]
fn source_live_false_after_disconnect_and_stays_false_after_reconnect() {
    let mut state = liveness();
    let mut gate = PushGate::new(4);
    let mut subscription = Subscription::new();
    subscription.attach(&mut state, 1);
    assert!(state.source_live());

    let ended = relay(&mut gate, None);
    subscription.detach(&mut state);
    assert_eq!(
        ended,
        Err(false),
        "a cut connection is what makes the subscriber reconnect"
    );
    assert_eq!(reconnect_after(false), Some(RECONNECT_DELAY_MS));
    assert!(!state.source_live());
    assert_eq!(subscription.first_generation, Some(1));

    // The reconnect lands on a different generation.
    assert_eq!(
        subscription.attach(&mut state, 2),
        Attached::Different { first: 1 }
    );
    assert_eq!(relay(&mut gate, push_of_stripe_0()), Ok(0));
    assert!(
        !state.source_live(),
        "a reconnect never sets the source live"
    );

    let ended = relay(&mut gate, Some(PushedFrame::End));
    subscription.detach(&mut state);
    assert_eq!(ended, Err(true));
    assert!(!state.source_live());
    assert_eq!(
        subscription.first_generation,
        Some(1),
        "the first subscription stays the one remembered"
    );
}

/// A reconnect to the same snapshot does not bring the source back either.
#[test]
fn reconnect_to_the_same_snapshot_leaves_the_source_dead() {
    let mut state = liveness();
    let mut subscription = Subscription::new();
    subscription.attach(&mut state, 1);
    subscription.detach(&mut state);
    assert_eq!(subscription.attach(&mut state, 1), Attached::Again);
    assert!(!state.source_live());
}

#[test]
fn pushes_are_relayed_until_the_snapshot_ends() {
    let mut gate = PushGate::new(1);
    let frame = PushedFrame::Stripe {
        stripe_id: 3,
        data: vec![9; 512],
    };
    match relay_step(Some(frame)) {
        RelayStep::Forward { stripe_id, data } => {
            let permit = gate.acquire().expect("a free slot");
            match pushed_request(stripe_id, data, permit) {
                BgWorkerRequest::PushedStripe {
                    stripe_id,
                    data,
                    permit,
                } => {
                    assert_eq!(stripe_id, 3);
                    assert_eq!(data, vec![9; 512]);
                    assert!(permit.gated);
                }
                _ => panic!("a pushed stripe expected"),
            }
        }
        _ => panic!("a stripe to forward expected"),
    }
    assert!(gate.acquire().is_none(), "no room for a second one");
    assert!(matches!(
        relay_step(Some(PushedFrame::End)),
        RelayStep::Finished
    ));
    assert!(matches!(relay_step(None), RelayStep::Closed));
}

#[test]
fn a_session_needs_a_limited_connection() {
    let accepted = AdmitStep::Accept.next(true);
    assert_eq!(accepted, AdmitStep::SetWriteTimeout);
    let timed = accepted.next(true);
    assert_eq!(timed, AdmitStep::SetKeepalive);
    assert_eq!(timed.next(true), AdmitStep::StartSession);
    assert_eq!(AdmitStep::StartSession.next(true), AdmitStep::Accept);
    for step in [
        AdmitStep::Accept,
        AdmitStep::SetWriteTimeout,
        AdmitStep::SetKeepalive,
        AdmitStep::StartSession,
    ] {
        assert_eq!(step.next(false), AdmitStep::Accept);
        assert!(step.complaint().starts_with("Failed to "));
    }
}
