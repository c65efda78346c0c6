//! Concrete checks of the engine's guarantees: lookup correctness, missing
//! transitions, hook firing, wave deferral, overwrite reporting and fail-fast
//! wave abortion, on small hand-built machines driven by the still's handler
//! bundle.

use fsm_engine::machine::{EntryExit, Errors, RunsFSM, FSM, TransitionSource, TransitionTarget};
use fsm_engine::still::{
    StillArguments, StillCoinType, StillExtState, StillHandlers, H_CHECK_MONEY, H_COUNT_COIN,
    H_NOOP, K_COUNT_CLOSE, K_COUNT_OPENS,
};

const LOBBY: u64 = 20;
const VAULT: u64 = 21;

const KNOCK: u64 = 30;
const WAIT: u64 = 31;
const COIN: u64 = 32;

fn fresh(start: u64) -> FSM<StillHandlers> {
    FSM::new(
        start,
        StillExtState { coincounter: 0, opened: 0, closed: 0 },
        "laws",
        StillHandlers {},
    )
}

/// Lookup correctness: a registered (state, event) pair moves the machine to
/// the registered target and runs the handler exactly once with the payload.
#[test]
fn lookup_moves_to_target() {
    let mut fsm = fresh(LOBBY);
    assert!(fsm.add_transition(
        TransitionSource::new(LOBBY, COIN),
        TransitionTarget::new(VAULT, H_COUNT_COIN, None),
    ));
    fsm.add_events(&mut vec![(COIN, None)]).unwrap();
    assert_eq!(fsm.process_event_queue().unwrap(), 1);
    assert_eq!(fsm.current_state(), VAULT);
    // the counting handler ran exactly once
    assert_eq!(fsm.extended_state().coincounter, 1);
}

/// Missing transition: an unregistered pair returns NoTransition and leaves
/// the state unchanged.
#[test]
fn missing_transition_is_reported() {
    let mut fsm = fresh(LOBBY);
    assert!(fsm.add_transition(
        TransitionSource::new(VAULT, KNOCK),
        TransitionTarget::new(LOBBY, H_NOOP, None),
    ));
    fsm.add_events(&mut vec![(KNOCK, None)]).unwrap();
    match fsm.process_event_queue() {
        Err(Errors::NoTransition(KNOCK, LOBBY)) => (),
        other => panic!("expected NoTransition, got {:?}", other),
    }
    assert_eq!(fsm.current_state(), LOBBY);
    assert!(!fsm.events_pending());
}

/// Hook firing: a transition between distinct states runs the exit hook of
/// the source and the enter hook of the target exactly once each; a
/// self-transition runs neither, even with hooks registered on the state.
#[test]
fn hooks_fire_only_when_moving() {
    let mut fsm = fresh(LOBBY);
    fsm.add_transition(
        TransitionSource::new(LOBBY, KNOCK),
        TransitionTarget::new(VAULT, H_NOOP, None),
    );
    fsm.add_transition(
        TransitionSource::new(VAULT, WAIT),
        TransitionTarget::new(VAULT, H_NOOP, None),
    );
    fsm.add_transition(
        TransitionSource::new(VAULT, KNOCK),
        TransitionTarget::new(LOBBY, H_NOOP, None),
    );
    fsm.add_enter_transition((VAULT, EntryExit::EntryTransition), K_COUNT_OPENS, None);
    fsm.add_enter_transition((VAULT, EntryExit::ExitTransition), K_COUNT_CLOSE, None);

    // moving in: the enter hook fires once
    fsm.add_events(&mut vec![(KNOCK, None)]).unwrap();
    fsm.process_event_queue().unwrap();
    assert_eq!(fsm.current_state(), VAULT);
    assert_eq!(fsm.extended_state().opened, 1);
    assert_eq!(fsm.extended_state().closed, 0);

    // self-transition: neither hook fires
    fsm.add_events(&mut vec![(WAIT, None)]).unwrap();
    fsm.process_event_queue().unwrap();
    assert_eq!(fsm.current_state(), VAULT);
    assert_eq!(fsm.extended_state().opened, 1);
    assert_eq!(fsm.extended_state().closed, 0);

    // moving out: the exit hook fires once
    fsm.add_events(&mut vec![(KNOCK, None)]).unwrap();
    fsm.process_event_queue().unwrap();
    assert_eq!(fsm.current_state(), LOBBY);
    assert_eq!(fsm.extended_state().opened, 1);
    assert_eq!(fsm.extended_state().closed, 1);
}

/// Wave deferral: events emitted by a handler are not run in the same call to
/// process; they become pending and need a second call.
#[test]
fn emitted_events_wait_for_next_wave() {
    let mut fsm = fresh(LOBBY);
    // the check-money handler emits an accept/reject event
    fsm.add_transition(
        TransitionSource::new(LOBBY, COIN),
        TransitionTarget::new(VAULT, H_CHECK_MONEY, None),
    );
    // the emitted event (accept-money) is only registered in VAULT
    fsm.add_transition(
        TransitionSource::new(VAULT, fsm_engine::still::ACCEPT_MONEY),
        TransitionTarget::new(VAULT, H_COUNT_COIN, None),
    );
    fsm.add_events(&mut vec![(COIN, Some(StillArguments::Coin(StillCoinType::Good)))])
        .unwrap();
    // the wave holds one event; its emission is deferred
    assert_eq!(fsm.process_event_queue().unwrap(), 1);
    assert_eq!(fsm.current_state(), VAULT);
    assert_eq!(fsm.extended_state().coincounter, 0);
    assert!(fsm.events_pending());
    // the second call runs the deferred event
    assert_eq!(fsm.process_event_queue().unwrap(), 1);
    assert_eq!(fsm.extended_state().coincounter, 1);
    assert!(!fsm.events_pending());
}

/// Overwrite reporting: the first registration of a pair returns true, any
/// further one false, and processing uses the most recent registration.
#[test]
fn registration_reports_overwrites() {
    let mut fsm = fresh(LOBBY);
    assert!(fsm.add_transition(
        TransitionSource::new(LOBBY, KNOCK),
        TransitionTarget::new(LOBBY, H_NOOP, Some(String::from("first"))),
    ));
    assert!(!fsm.add_transition(
        TransitionSource::new(LOBBY, KNOCK),
        TransitionTarget::new(VAULT, H_COUNT_COIN, Some(String::from("second"))),
    ));
    assert!(fsm.add_enter_transition((VAULT, EntryExit::EntryTransition), K_COUNT_OPENS, None));
    assert!(!fsm.add_enter_transition((VAULT, EntryExit::EntryTransition), K_COUNT_OPENS, None));

    fsm.add_events(&mut vec![(KNOCK, None)]).unwrap();
    fsm.process_event_queue().unwrap();
    // the second registration won: the machine moved and its handler counted
    assert_eq!(fsm.current_state(), VAULT);
    assert_eq!(fsm.extended_state().coincounter, 1);
    assert_eq!(fsm.extended_state().opened, 1);
}

/// Fail-fast: when the second of three queued events fails, the third is
/// neither executed nor kept in the queue, and process returns the second's
/// error.
#[test]
fn failing_step_discards_rest_of_wave() {
    let mut fsm = fresh(LOBBY);
    fsm.add_transition(
        TransitionSource::new(LOBBY, WAIT),
        TransitionTarget::new(LOBBY, H_NOOP, None),
    );
    // the check-money handler fails when the payload is missing
    fsm.add_transition(
        TransitionSource::new(LOBBY, COIN),
        TransitionTarget::new(VAULT, H_CHECK_MONEY, None),
    );
    fsm.add_transition(
        TransitionSource::new(LOBBY, KNOCK),
        TransitionTarget::new(VAULT, H_COUNT_COIN, None),
    );
    fsm.add_events(&mut vec![(WAIT, None), (COIN, None), (KNOCK, None)]).unwrap();
    match fsm.process_event_queue() {
        Err(Errors::InternalError(_, _, _)) => (),
        other => panic!("expected the second event's error, got {:?}", other),
    }
    // the third event was discarded, not requeued, and never executed
    assert!(!fsm.events_pending());
    assert_eq!(fsm.current_state(), LOBBY);
    assert_eq!(fsm.extended_state().coincounter, 0);
}

/// A handler error after a completed step keeps the completed step's effects:
/// no transactional rollback.
#[test]
fn no_rollback_of_completed_steps() {
    let mut fsm = fresh(LOBBY);
    fsm.add_transition(
        TransitionSource::new(LOBBY, KNOCK),
        TransitionTarget::new(VAULT, H_COUNT_COIN, None),
    );
    fsm.add_events(&mut vec![(KNOCK, None), (KNOCK, None)]).unwrap();
    // the first KNOCK moves to VAULT and counts; the second KNOCK has no
    // registration in VAULT and fails the wave
    match fsm.process_event_queue() {
        Err(Errors::NoTransition(KNOCK, VAULT)) => (),
        other => panic!("expected NoTransition in VAULT, got {:?}", other),
    }
    assert_eq!(fsm.current_state(), VAULT);
    assert_eq!(fsm.extended_state().coincounter, 1);
}
