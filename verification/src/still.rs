//! A small coin-operated still: the vending-style machine that opens after a
//! good coin is accepted and closes again on a timeout. Its handler bundle
//! exercises event emission inside transitions, extended-state mutation,
//! entry/exit hooks and error returns.

use vstd::prelude::*;

use crate::machine::{emitted_events, Errors, EventList, FsmHandlers, TransitionResult};

verus! {

// states
pub const CLOSED_WAIT_FOR_MONEY: u64 = 0;

pub const CHECKING_MONEY: u64 = 1;

pub const OPEN_WAIT_FOR_TIMEOUT: u64 = 2;

// events
pub const GOT_COIN: u64 = 10;

pub const ACCEPT_MONEY: u64 = 11;

pub const REJECT_MONEY: u64 = 12;

pub const TIMEOUT: u64 = 13;

// transition handler codes
pub const H_CHECK_MONEY: u64 = 0;

pub const H_NOOP: u64 = 1;

pub const H_COUNT_COIN: u64 = 2;

pub const H_EMIT_REJECT: u64 = 3;

// hook codes
pub const K_COUNT_OPENS: u64 = 0;

pub const K_COUNT_CLOSE: u64 = 1;

/// The quality of an inserted coin.
#[derive(Debug, Clone, PartialEq, Eq)]
pub enum StillCoinType {
    Good,
    Bad,
}

/// The payload a coin event carries into the check-money handler.
#[derive(Debug, Clone, PartialEq, Eq)]
pub enum StillArguments {
    Coin(StillCoinType),
}

/// Application errors the still's handlers can raise.
#[derive(Debug, Clone, PartialEq, Eq)]
pub enum StillErrors {
    CoinArgumentMissing,
}

/// The still's extended state: how many coins were accepted, and how often
/// the still opened and closed. Counters wrap around at `u32::MAX`.
#[derive(Debug, Clone, PartialEq, Eq, Structural)]
pub struct StillExtState {
    pub coincounter: u32,
    pub opened: u32,
    pub closed: u32,
}

/// `x + 1`, wrapping around at `u32::MAX`.
pub open spec fn wrap_inc(x: u32) -> u32 {
    if x == u32::MAX {
        0
    } else {
        (x + 1) as u32
    }
}

/// The still's handler bundle. Handlers:
///
/// * `H_CHECK_MONEY` - fails without a coin payload; emits `ACCEPT_MONEY` for
///   a good coin and `REJECT_MONEY` for a bad one
/// * `H_NOOP` - does nothing
/// * `H_COUNT_COIN` - counts an accepted coin in the extended state
/// * `H_EMIT_REJECT` - emits `REJECT_MONEY`
///
/// Hooks: `K_COUNT_OPENS` and `K_COUNT_CLOSE` count how often the still
/// opened and closed.
pub struct StillHandlers {}

impl FsmHandlers for StillHandlers {
    type Ext = StillExtState;

    type Payload = StillArguments;

    type Err = StillErrors;

    open spec fn trans_ext(
        &self,
        handler: u64,
        ext: StillExtState,
        event: u64,
        payload: Option<StillArguments>,
    ) -> StillExtState {
        if handler == H_COUNT_COIN {
            StillExtState { coincounter: wrap_inc(ext.coincounter), ..ext }
        } else {
            ext
        }
    }

    open spec fn trans_res(
        &self,
        handler: u64,
        ext: StillExtState,
        event: u64,
        payload: Option<StillArguments>,
    ) -> Result<Seq<(u64, Option<StillArguments>)>, Errors<u64, u64, StillErrors>> {
        if handler == H_CHECK_MONEY {
            match payload {
                None => Err(
                    Errors::InternalError(
                        GOT_COIN,
                        CLOSED_WAIT_FOR_MONEY,
                        StillErrors::CoinArgumentMissing,
                    ),
                ),
                Some(StillArguments::Coin(StillCoinType::Good)) => Ok(
                    seq![(ACCEPT_MONEY, None::<StillArguments>)],
                ),
                Some(StillArguments::Coin(StillCoinType::Bad)) => Ok(
                    seq![(REJECT_MONEY, None::<StillArguments>)],
                ),
            }
        } else if handler == H_EMIT_REJECT {
            Ok(seq![(REJECT_MONEY, None::<StillArguments>)])
        } else {
            Ok(Seq::empty())
        }
    }

    open spec fn hook_ext(&self, hook: u64, ext: StillExtState) -> StillExtState {
        if hook == K_COUNT_OPENS {
            StillExtState { opened: wrap_inc(ext.opened), ..ext }
        } else if hook == K_COUNT_CLOSE {
            StillExtState { closed: wrap_inc(ext.closed), ..ext }
        } else {
            ext
        }
    }

    open spec fn hook_res(&self, hook: u64, ext: StillExtState) -> Result<
        Seq<(u64, Option<StillArguments>)>,
        Errors<u64, u64, StillErrors>,
    > {
        Ok(Seq::empty())
    }

    fn transition(
        &self,
        handler: u64,
        ext: &mut StillExtState,
        event: u64,
        payload: Option<StillArguments>,
    ) -> (r: TransitionResult<StillArguments, StillErrors>) {
        if handler == H_CHECK_MONEY {
            match payload {
                None => Err(
                    Errors::InternalError(
                        GOT_COIN,
                        CLOSED_WAIT_FOR_MONEY,
                        StillErrors::CoinArgumentMissing,
                    ),
                ),
                Some(StillArguments::Coin(StillCoinType::Good)) => {
                    let mut evs: EventList<StillArguments> = Vec::new();
                    evs.push((ACCEPT_MONEY, None));
                    proof {
                        assert(emitted_events(Some(evs)) =~= seq![
                            (ACCEPT_MONEY, None::<StillArguments>),
                        ]);
                    }
                    Ok(Some(evs))
                },
                Some(StillArguments::Coin(StillCoinType::Bad)) => {
                    let mut evs: EventList<StillArguments> = Vec::new();
                    evs.push((REJECT_MONEY, None));
                    proof {
                        assert(emitted_events(Some(evs)) =~= seq![
                            (REJECT_MONEY, None::<StillArguments>),
                        ]);
                    }
                    Ok(Some(evs))
                },
            }
        } else if handler == H_EMIT_REJECT {
            let mut evs: EventList<StillArguments> = Vec::new();
            evs.push((REJECT_MONEY, None));
            proof {
                assert(emitted_events(Some(evs)) =~= seq![(REJECT_MONEY, None::<StillArguments>)]);
            }
            Ok(Some(evs))
        } else if handler == H_COUNT_COIN {
            ext.coincounter = if ext.coincounter == u32::MAX {
                0
            } else {
                ext.coincounter + 1
            };
            Ok(None)
        } else {
            Ok(None)
        }
    }

    fn hook(&self, hook: u64, ext: &mut StillExtState) -> (r: TransitionResult<
        StillArguments,
        StillErrors,
    >) {
        if hook == K_COUNT_OPENS {
            ext.opened = if ext.opened == u32::MAX {
                0
            } else {
                ext.opened + 1
            };
        } else if hook == K_COUNT_CLOSE {
            ext.closed = if ext.closed == u32::MAX {
                0
            } else {
                ext.closed + 1
            };
        }
        Ok(None)
    }
}

} // verus!
