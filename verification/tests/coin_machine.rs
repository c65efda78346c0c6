//! Tests of a coin machine opening/closing and checking coins. They check
//! event generation in transitions, extended state, transitions on state
//! enter/exit and error returns.

use fsm_engine::graph::NodeShape;
use fsm_engine::machine::{EntryExit, Errors, RunsFSM, FSM, TransitionSource, TransitionTarget};
use fsm_engine::still::{
    StillArguments, StillCoinType, StillErrors, StillExtState, StillHandlers, ACCEPT_MONEY,
    CHECKING_MONEY, CLOSED_WAIT_FOR_MONEY, GOT_COIN, H_CHECK_MONEY, H_COUNT_COIN, H_EMIT_REJECT,
    H_NOOP, K_COUNT_CLOSE, K_COUNT_OPENS, OPEN_WAIT_FOR_TIMEOUT, REJECT_MONEY, TIMEOUT,
};

type CoinStillFSM = FSM<StillHandlers>;

fn build_fsm() -> CoinStillFSM {
    let mut still_fsm = FSM::new(
        CLOSED_WAIT_FOR_MONEY,
        StillExtState { coincounter: 0, opened: 0, closed: 0 },
        "coin_still",
        StillHandlers {},
    );

    still_fsm.add_transition(
        TransitionSource::new(CLOSED_WAIT_FOR_MONEY, GOT_COIN),
        TransitionTarget::new(CHECKING_MONEY, H_CHECK_MONEY, Some(String::from("ProcessCoin"))),
    );
    still_fsm.add_transition(
        TransitionSource::new(CHECKING_MONEY, REJECT_MONEY),
        TransitionTarget::new(CLOSED_WAIT_FOR_MONEY, H_NOOP, Some(String::from("Rejected"))),
    );
    still_fsm.add_transition(
        TransitionSource::new(CHECKING_MONEY, GOT_COIN),
        TransitionTarget::new(CHECKING_MONEY, H_NOOP, Some(String::from("IgnoreAnotherCoin"))),
    );
    still_fsm.add_transition(
        TransitionSource::new(CHECKING_MONEY, ACCEPT_MONEY),
        TransitionTarget::new(OPEN_WAIT_FOR_TIMEOUT, H_COUNT_COIN, Some(String::from("Accepted"))),
    );
    still_fsm.add_transition(
        TransitionSource::new(OPEN_WAIT_FOR_TIMEOUT, GOT_COIN),
        TransitionTarget::new(OPEN_WAIT_FOR_TIMEOUT, H_EMIT_REJECT, Some(String::from("Reject"))),
    );
    still_fsm.add_transition(
        TransitionSource::new(OPEN_WAIT_FOR_TIMEOUT, REJECT_MONEY),
        TransitionTarget::new(OPEN_WAIT_FOR_TIMEOUT, H_NOOP, Some(String::from("Rejected"))),
    );
    still_fsm.add_transition(
        TransitionSource::new(OPEN_WAIT_FOR_TIMEOUT, TIMEOUT),
        TransitionTarget::new(CLOSED_WAIT_FOR_MONEY, H_NOOP, Some(String::from("TimeOut"))),
    );

    still_fsm.add_enter_transition(
        (OPEN_WAIT_FOR_TIMEOUT, EntryExit::EntryTransition),
        K_COUNT_OPENS,
        Some(String::from("CountOpens")),
    );
    still_fsm.add_enter_transition(
        (OPEN_WAIT_FOR_TIMEOUT, EntryExit::ExitTransition),
        K_COUNT_CLOSE,
        Some(String::from("CountClose")),
    );

    still_fsm
}

#[test]
fn coin_machine_test() {
    let mut still_fsm = build_fsm();
    // timeout should give no transition error
    assert!(still_fsm.add_events(&mut vec![(TIMEOUT, None)]).unwrap() == 1);
    match still_fsm.process_event_queue() {
        Ok(v) => panic!("failed with {:?} # processed tokens as Ok(_)", v),
        Err(v) => match v {
            Errors::NoTransition(TIMEOUT, CLOSED_WAIT_FOR_MONEY) => (),
            _ => panic!("failed with wrong FSM error"),
        },
    }

    // that's how we package arguments, we need to clone the coins then
    let goodcoin = StillArguments::Coin(StillCoinType::Good);
    let badcoin = StillArguments::Coin(StillCoinType::Bad);

    let mut still_fsm = build_fsm();
    assert!(
        still_fsm
            .add_events(&mut vec![
                (GOT_COIN, Some(goodcoin.clone())),
                (GOT_COIN, Some(badcoin.clone())),
                (GOT_COIN, Some(goodcoin.clone())),
                (GOT_COIN, Some(goodcoin.clone())),
            ])
            .unwrap()
            == 4
    );
    while still_fsm.events_pending() {
        assert!(!still_fsm.process_event_queue().is_err());
    }

    assert!(still_fsm.current_state() == OPEN_WAIT_FOR_TIMEOUT);

    assert!(still_fsm.add_events(&mut vec![(TIMEOUT, None)]).unwrap() == 1);
    while still_fsm.events_pending() {
        assert!(!still_fsm.process_event_queue().is_err());
    }

    assert!(still_fsm.current_state() == CLOSED_WAIT_FOR_MONEY);

    let es = still_fsm.extended_state();

    assert!(es.coincounter == 1);
    assert!(es.opened == 1);
    assert!(es.closed == 1);
}

/// The vending-style end-to-end scenario, step by step.
#[test]
fn vending_scenario() {
    // start in Closed; a Timeout has no registration there
    let mut fsm = build_fsm();
    assert_eq!(fsm.current_state(), CLOSED_WAIT_FOR_MONEY);
    fsm.add_events(&mut vec![(TIMEOUT, None)]).unwrap();
    match fsm.process_event_queue() {
        Err(Errors::NoTransition(TIMEOUT, CLOSED_WAIT_FOR_MONEY)) => (),
        other => panic!("expected NoTransition, got {:?}", other),
    }
    assert_eq!(fsm.current_state(), CLOSED_WAIT_FOR_MONEY);

    // a good coin moves to Checking and emits AcceptMoney; the second call
    // opens the still and the Enter hook counts the opening
    fsm.add_events(&mut vec![(GOT_COIN, Some(StillArguments::Coin(StillCoinType::Good)))])
        .unwrap();
    assert_eq!(fsm.process_event_queue().unwrap(), 1);
    assert_eq!(fsm.current_state(), CHECKING_MONEY);
    assert!(fsm.events_pending());
    assert_eq!(fsm.process_event_queue().unwrap(), 1);
    assert_eq!(fsm.current_state(), OPEN_WAIT_FOR_TIMEOUT);
    assert_eq!(fsm.extended_state().opened, 1);

    // from Open, a Timeout closes the still and the Exit hook counts it
    fsm.add_events(&mut vec![(TIMEOUT, None)]).unwrap();
    assert_eq!(fsm.process_event_queue().unwrap(), 1);
    assert_eq!(fsm.current_state(), CLOSED_WAIT_FOR_MONEY);
    assert_eq!(fsm.extended_state().closed, 1);

    // a bad coin moves to Checking, the handler emits RejectMoney, and the
    // next call moves back to Closed with no hook side effects
    fsm.add_events(&mut vec![(GOT_COIN, Some(StillArguments::Coin(StillCoinType::Bad)))])
        .unwrap();
    assert_eq!(fsm.process_event_queue().unwrap(), 1);
    assert_eq!(fsm.current_state(), CHECKING_MONEY);
    assert!(fsm.events_pending());
    assert_eq!(fsm.process_event_queue().unwrap(), 1);
    assert_eq!(fsm.current_state(), CLOSED_WAIT_FOR_MONEY);
    assert_eq!(fsm.extended_state().opened, 1);
    assert_eq!(fsm.extended_state().closed, 1);
    assert_eq!(fsm.extended_state().coincounter, 1);
}

/// A coin event without its payload makes the check-money handler fail with
/// an application error, wrapped in `InternalError`.
#[test]
fn missing_payload_internal_error() {
    let mut fsm = build_fsm();
    fsm.add_events(&mut vec![(GOT_COIN, None)]).unwrap();
    match fsm.process_event_queue() {
        Err(Errors::InternalError(ev, st, StillErrors::CoinArgumentMissing)) => {
            assert_eq!(ev, GOT_COIN);
            assert_eq!(st, CLOSED_WAIT_FOR_MONEY);
        },
        other => panic!("expected InternalError, got {:?}", other),
    }
    // the failing step ran no state change
    assert_eq!(fsm.current_state(), CLOSED_WAIT_FOR_MONEY);
}

#[test]
fn machine_basics() {
    let fsm = build_fsm();
    assert_eq!(fsm.name(), "coin_still");
    assert!(!fsm.events_pending());
    assert_eq!(fsm.current_state(), CLOSED_WAIT_FOR_MONEY);
    let es = fsm.extended_state();
    assert_eq!(
        *es,
        StillExtState { coincounter: 0, opened: 0, closed: 0 }
    );
}

/// The diagram of the coin machine: one node per labelled state with the
/// start state marked, shadow nodes for the hooked state, one edge per
/// transition and per hook.
#[test]
fn coin_machine_graph() {
    let fsm = build_fsm();
    let state_labels = vec![
        (CLOSED_WAIT_FOR_MONEY, String::from("ClosedWaitForMoney")),
        (CHECKING_MONEY, String::from("CheckingMoney")),
        (OPEN_WAIT_FOR_TIMEOUT, String::from("OpenWaitForTimeOut")),
    ];
    let event_labels = vec![
        (GOT_COIN, String::from("GotCoin")),
        (ACCEPT_MONEY, String::from("AcceptMoney")),
        (REJECT_MONEY, String::from("RejectMoney")),
        (TIMEOUT, String::from("Timeout")),
    ];
    let g = fsm.dot_graph(&state_labels, &event_labels);

    assert_eq!(g.start_state, CLOSED_WAIT_FOR_MONEY);
    // three real nodes plus the open state's two shadow nodes
    assert_eq!(g.nodes.len(), 5);
    let closed = &g.nodes[0];
    assert_eq!(closed.state, CLOSED_WAIT_FOR_MONEY);
    assert_eq!(closed.hook, None);
    assert_eq!(closed.shape, NodeShape::Diamond);
    assert_eq!(closed.label, Some(String::from("ClosedWaitForMoney")));
    assert!(!closed.dashed);
    let checking = &g.nodes[1];
    assert_eq!(checking.shape, NodeShape::Default);
    let open = &g.nodes[2];
    assert_eq!(open.state, OPEN_WAIT_FOR_TIMEOUT);
    assert_eq!(open.hook, None);
    let open_enter = &g.nodes[3];
    assert_eq!(open_enter.hook, Some(EntryExit::EntryTransition));
    assert_eq!(open_enter.shape, NodeShape::Plain);
    assert!(open_enter.dashed);
    assert_eq!(open_enter.label, None);
    let open_exit = &g.nodes[4];
    assert_eq!(open_exit.hook, Some(EntryExit::ExitTransition));

    // seven transitions, two hooks
    assert_eq!(g.edges.len(), 9);
    let first = &g.edges[0];
    assert_eq!(first.from_state, CLOSED_WAIT_FOR_MONEY);
    assert_eq!(first.from_hook, None);
    assert_eq!(first.to_state, CHECKING_MONEY);
    assert_eq!(first.to_hook, None);
    assert_eq!(first.name, Some(String::from("ProcessCoin")));
    assert_eq!(first.event_label, Some(String::from("GotCoin")));
    let enter_edge = &g.edges[7];
    assert_eq!(enter_edge.from_state, OPEN_WAIT_FOR_TIMEOUT);
    assert_eq!(enter_edge.from_hook, Some(EntryExit::EntryTransition));
    assert_eq!(enter_edge.to_state, OPEN_WAIT_FOR_TIMEOUT);
    assert_eq!(enter_edge.to_hook, None);
    assert_eq!(enter_edge.name, Some(String::from("CountOpens")));
    assert_eq!(enter_edge.event_label, None);
    let exit_edge = &g.edges[8];
    assert_eq!(exit_edge.from_hook, None);
    assert_eq!(exit_edge.to_hook, Some(EntryExit::ExitTransition));
    assert_eq!(exit_edge.name, Some(String::from("CountClose")));
}

/// Processing an empty queue is a no-op wave.
#[test]
fn empty_queue_process() {
    let mut fsm = build_fsm();
    assert_eq!(fsm.process_event_queue().unwrap(), 0);
    assert_eq!(fsm.current_state(), CLOSED_WAIT_FOR_MONEY);
    assert!(!fsm.events_pending());
}
