use turbopack_dev_server::bridge::{Bridge, BridgeAction, BridgeEvent, BridgeState};
use turbopack_dev_server::response::Response;

fn payload(status: u16, body: &[u8]) -> BridgeEvent {
    BridgeEvent::Payload { response: Response { status, body: body.to_vec() } }
}

fn respond(status: u16, body: &[u8]) -> BridgeAction {
    BridgeAction::Respond { response: Response { status, body: body.to_vec() } }
}

fn run_bridge(events: Vec<BridgeEvent>) -> (Bridge, Vec<BridgeAction>) {
    let (mut bridge, first) = Bridge::begin();
    let mut actions = vec![first];
    for event in events {
        actions.push(bridge.step(event));
    }
    (bridge, actions)
}

fn responses(actions: &[BridgeAction]) -> usize {
    actions.iter().filter(|a| matches!(a, BridgeAction::Respond { .. })).count()
}

#[test]
fn bridge_begins_by_submitting_the_task() {
    let (bridge, first) = Bridge::begin();
    assert_eq!(first, BridgeAction::Submit);
    assert_eq!(bridge.state(), BridgeState::Submitting);
}

#[test]
fn settled_task_is_answered_with_its_payload() {
    let (bridge, actions) =
        run_bridge(vec![BridgeEvent::Submitted, BridgeEvent::Output, payload(200, b"<h1>hi</h1>")]);
    assert_eq!(
        actions,
        vec![
            BridgeAction::Submit,
            BridgeAction::TryRead { track: false },
            BridgeAction::AwaitChannel,
            respond(200, b"<h1>hi</h1>"),
        ]
    );
    assert_eq!(bridge.state(), BridgeState::Done);
}

#[test]
fn change_leads_back_to_asking_the_engine() {
    let (bridge, actions) =
        run_bridge(vec![BridgeEvent::Submitted, BridgeEvent::Pending, BridgeEvent::Changed]);
    assert_eq!(
        actions,
        vec![
            BridgeAction::Submit,
            BridgeAction::TryRead { track: false },
            BridgeAction::AwaitChange,
            BridgeAction::TryRead { track: false },
        ]
    );
    assert_eq!(bridge.state(), BridgeState::Polling);
}

#[test]
fn restarted_task_is_answered_once_it_settles() {
    let mut events = vec![BridgeEvent::Submitted];
    for _ in 0..5 {
        events.push(BridgeEvent::Pending);
        events.push(BridgeEvent::Changed);
    }
    let (bridge, actions) = run_bridge(events.clone());
    assert_eq!(responses(&actions), 0);
    assert_eq!(bridge.state(), BridgeState::Polling);
    events.push(BridgeEvent::Output);
    events.push(payload(404, b""));
    let (bridge, actions) = run_bridge(events);
    assert_eq!(responses(&actions), 1);
    assert_eq!(actions.last(), Some(&respond(404, b"")));
    assert_eq!(bridge.state(), BridgeState::Done);
}

#[test]
fn closed_channel_is_answered_as_an_internal_error() {
    let (bridge, actions) =
        run_bridge(vec![BridgeEvent::Submitted, BridgeEvent::Output, BridgeEvent::ChannelClosed]);
    assert_eq!(actions[3], respond(500, b""));
    assert_eq!(bridge.state(), BridgeState::Done);
}

#[test]
fn engine_failure_is_answered_as_an_internal_error() {
    let (_, actions) = run_bridge(vec![BridgeEvent::Failed]);
    assert_eq!(actions[1], respond(500, b""));
    let (_, actions) = run_bridge(vec![BridgeEvent::Submitted, BridgeEvent::Failed]);
    assert_eq!(actions[2], respond(500, b""));
    let (_, actions) =
        run_bridge(vec![BridgeEvent::Submitted, BridgeEvent::Pending, BridgeEvent::Failed]);
    assert_eq!(actions[3], respond(500, b""));
    let (_, actions) =
        run_bridge(vec![BridgeEvent::Submitted, BridgeEvent::Output, BridgeEvent::Failed]);
    assert_eq!(actions[3], respond(500, b""));
}

#[test]
fn payload_before_an_output_is_not_the_answer() {
    let (_, actions) = run_bridge(vec![BridgeEvent::Submitted, payload(200, b"early")]);
    assert_eq!(actions[2], respond(500, b""));
    let (_, actions) =
        run_bridge(vec![BridgeEvent::Submitted, BridgeEvent::Pending, payload(200, b"early")]);
    assert_eq!(actions[3], respond(500, b""));
    let (_, actions) = run_bridge(vec![payload(200, b"early")]);
    assert_eq!(actions[1], respond(500, b""));
}

#[test]
fn change_without_a_listener_is_not_completion() {
    let (_, actions) = run_bridge(vec![BridgeEvent::Submitted, BridgeEvent::Changed]);
    assert_eq!(actions[2], respond(500, b""));
    let (_, actions) =
        run_bridge(vec![BridgeEvent::Submitted, BridgeEvent::Output, BridgeEvent::Changed]);
    assert_eq!(actions[3], respond(500, b""));
}

#[test]
fn answered_request_asks_for_nothing_more() {
    let (mut bridge, _) =
        run_bridge(vec![BridgeEvent::Submitted, BridgeEvent::Output, payload(200, b"x")]);
    assert_eq!(bridge.step(payload(200, b"y")), BridgeAction::Nothing);
    assert_eq!(bridge.step(BridgeEvent::Output), BridgeAction::Nothing);
    assert_eq!(bridge.step(BridgeEvent::Failed), BridgeAction::Nothing);
    assert_eq!(bridge.state(), BridgeState::Done);
}

#[test]
fn every_request_is_answered_at_most_once() {
    let all = || {
        vec![
            BridgeEvent::Submitted,
            BridgeEvent::Output,
            BridgeEvent::Pending,
            BridgeEvent::Changed,
            payload(200, b"p"),
            BridgeEvent::ChannelClosed,
            BridgeEvent::Failed,
        ]
    };
    for a in all() {
        for b in all() {
            for c in all() {
                for d in all() {
                    let events = vec![a.clone(), b.clone(), c.clone(), d.clone()];
                    let (bridge, actions) = run_bridge(events);
                    assert!(responses(&actions) <= 1);
                    assert_eq!(responses(&actions) == 1, bridge.state() == BridgeState::Done);
                }
            }
        }
    }
}
