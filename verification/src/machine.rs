//! The transition engine: transition and entry/exit hook tables, the event
//! queue, and the wave-based processing algorithm.

use vstd::prelude::*;

use crate::graph::{
    clone_opt_name, graph_nodes, hook_edges, lookup_label, transition_edges, DotEdge, DotGraph,
    DotNode, NodeShape,
};

verus! {

/// Which side of a state change a hook fires on.
#[derive(Debug, Clone, Copy, PartialEq, Eq, Hash, Structural)]
pub enum EntryExit {
    EntryTransition,
    ExitTransition,
}

/// Errors that can occur when running machines.
#[derive(Debug, Clone, PartialEq, Eq)]
pub enum Errors<EventType, StateType, ErrorType> {
    OK,
    /// internal error at a given place, generated by a transition handler or hook
    InternalError(EventType, StateType, ErrorType),
    /// the requested transition does not exist; the machine needs to be shut down
    NoTransition(EventType, StateType),
    /// reserved generic fatal failure; the machine needs to be shut down
    TransitionFailure,
}

/// A set of events, each with an optional payload, in the order they should be
/// processed.
pub type EventList<Payload> = Vec<(u64, Option<Payload>)>;

/// What a transition handler or hook returns: an optional list of events to be
/// appended to the machine's queue, or an error that kills the wave.
pub type TransitionResult<Payload, ErrorType> = Result<
    Option<EventList<Payload>>,
    Errors<u64, u64, ErrorType>,
>;

/// The events a handler result asks the machine to enqueue: none on `None`,
/// the list's contents on `Some`.
pub open spec fn emitted_events<Payload>(r: Option<EventList<Payload>>) -> Seq<
    (u64, Option<Payload>),
> {
    match r {
        None => Seq::empty(),
        Some(v) => v@,
    }
}

/// The application-supplied bundle of transition handlers and entry/exit
/// hooks of one machine. Tables store `u64` handler codes; the engine hands
/// each code back to this bundle together with the extended state.
///
/// An implementation describes each handler twice: as spec functions
/// (`trans_ext`, `trans_res`, `hook_ext`, `hook_res`) giving the handler's
/// effect on the extended state and its returned value as mathematical
/// functions of the inputs, and as executable functions proved to match them.
/// The engine's contracts are stated over the spec functions.
pub trait FsmHandlers: Sized {
    /// The extended state every handler can read and mutate.
    type Ext;

    /// The payload an event can carry into a transition handler.
    type Payload;

    /// The application error type carried inside `Errors::InternalError`.
    type Err;

    /// The extended state after the transition handler `handler` ran on `ext`
    /// with `event` and `payload`.
    spec fn trans_ext(
        &self,
        handler: u64,
        ext: Self::Ext,
        event: u64,
        payload: Option<Self::Payload>,
    ) -> Self::Ext;

    /// What the transition handler `handler` returns: the events it emits, or
    /// its error.
    spec fn trans_res(
        &self,
        handler: u64,
        ext: Self::Ext,
        event: u64,
        payload: Option<Self::Payload>,
    ) -> Result<Seq<(u64, Option<Self::Payload>)>, Errors<u64, u64, Self::Err>>;

    /// The extended state after the hook `hook` ran on `ext`.
    spec fn hook_ext(&self, hook: u64, ext: Self::Ext) -> Self::Ext;

    /// What the hook `hook` returns: the events it emits, or its error.
    spec fn hook_res(&self, hook: u64, ext: Self::Ext) -> Result<
        Seq<(u64, Option<Self::Payload>)>,
        Errors<u64, u64, Self::Err>,
    >;

    /// Run the transition handler `handler` with exclusive access to the
    /// extended state, the event and its payload.
    fn transition(
        &self,
        handler: u64,
        ext: &mut Self::Ext,
        event: u64,
        payload: Option<Self::Payload>,
    ) -> (r: TransitionResult<Self::Payload, Self::Err>)
        ensures
            *final(ext) == self.trans_ext(handler, *old(ext), event, payload),
            match r {
                Ok(evs) => self.trans_res(handler, *old(ext), event, payload) == Ok::<
                    Seq<(u64, Option<Self::Payload>)>,
                    Errors<u64, u64, Self::Err>,
                >(emitted_events(evs)),
                Err(e) => self.trans_res(handler, *old(ext), event, payload) == Err::<
                    Seq<(u64, Option<Self::Payload>)>,
                    Errors<u64, u64, Self::Err>,
                >(e),
            },
    ;

    /// Run the hook `hook` with exclusive access to the extended state.
    fn hook(&self, hook: u64, ext: &mut Self::Ext) -> (r: TransitionResult<
        Self::Payload,
        Self::Err,
    >)
        ensures
            *final(ext) == self.hook_ext(hook, *old(ext)),
            match r {
                Ok(evs) => self.hook_res(hook, *old(ext)) == Ok::<
                    Seq<(u64, Option<Self::Payload>)>,
                    Errors<u64, u64, Self::Err>,
                >(emitted_events(evs)),
                Err(e) => self.hook_res(hook, *old(ext)) == Err::<
                    Seq<(u64, Option<Self::Payload>)>,
                    Errors<u64, u64, Self::Err>,
                >(e),
            },
    ;
}

/// Describes a transition origination point: the (state, event) pair the
/// machine looks up when an event arrives.
#[derive(Debug, Clone, Copy, PartialEq, Eq, Hash, Structural)]
pub struct TransitionSource {
    state: u64,
    event: u64,
}

impl TransitionSource {
    /// The (state, event) key this source stands for.
    pub closed spec fn spec_key(self) -> (u64, u64) {
        (self.state, self.event)
    }

    /// Create a transition source.
    ///   * `state` - original state
    ///   * `event` - event occurring
    pub fn new(state: u64, event: u64) -> (r: TransitionSource)
        ensures
            r.spec_key() == (state, event),
    {
        TransitionSource { state, event }
    }
}

/// The target of a transition upon an event: the end state, the code of the
/// handler to run, and an optional display name.
#[derive(Debug)]
pub struct TransitionTarget {
    endstate: u64,
    handler: u64,
    name: Option<String>,
}

impl TransitionTarget {
    /// The state the machine moves to when this transition runs.
    pub closed spec fn spec_endstate(self) -> u64 {
        self.endstate
    }

    /// The handler code that is handed to the machine's handler bundle.
    pub closed spec fn spec_handler(self) -> u64 {
        self.handler
    }

    /// The optional display name of the transition.
    pub closed spec fn spec_name(self) -> Option<String> {
        self.name
    }

    /// Create a transition target.
    ///   * `endstate` - state resulting after a correct transition
    ///   * `handler`  - code of the handler to run, interpreted by the
    ///                  machine's handler bundle
    ///   * `name`     - optional transition name, helpful in diagrams
    pub fn new(endstate: u64, handler: u64, name: Option<String>) -> (r: TransitionTarget)
        ensures
            r.spec_endstate() == endstate,
            r.spec_handler() == handler,
            r.spec_name() == name,
    {
        TransitionTarget { endstate, handler, name }
    }
}

/// The mapping a table holds: the first entry with a given key wins. The
/// engine keeps keys unique, so this is simply "the entry for the key".
pub open spec fn table_map<K, V>(entries: Seq<(K, V)>) -> Map<K, V>
    decreases entries.len(),
{
    if entries.len() == 0 {
        Map::empty()
    } else {
        table_map(entries.drop_first()).insert(entries.first().0, entries.first().1)
    }
}

/// A table after registering `v` under `k`: the first entry with key `k` is
/// replaced, or the entry is appended when the key is new.
pub open spec fn table_update<K, V>(entries: Seq<(K, V)>, k: K, v: V) -> Seq<(K, V)>
    decreases entries.len(),
{
    if entries.len() == 0 {
        seq![(k, v)]
    } else if entries.first().0 == k {
        seq![(k, v)] + entries.drop_first()
    } else {
        seq![entries.first()] + table_update(entries.drop_first(), k, v)
    }
}

proof fn lemma_table_map_skip<K, V>(entries: Seq<(K, V)>, k: K, i: int)
    requires
        0 <= i <= entries.len(),
        forall|j: int| 0 <= j < i ==> entries[j].0 != k,
    ensures
        table_map(entries).contains_key(k) == table_map(entries.skip(i)).contains_key(k),
        table_map(entries).contains_key(k) ==> table_map(entries)[k] == table_map(entries.skip(i))[k],
    decreases i,
{
    if i > 0 {
        assert(entries.skip(i) =~= entries.drop_first().skip(i - 1));
        assert(forall|j: int| 0 <= j < i - 1 ==> entries.drop_first()[j] == entries[j + 1]);
        lemma_table_map_skip(entries.drop_first(), k, i - 1);
    } else {
        assert(entries.skip(0) =~= entries);
    }
}

proof fn lemma_table_map_update<K, V>(entries: Seq<(K, V)>, k: K, v: V)
    ensures
        table_map(table_update(entries, k, v)) == table_map(entries).insert(k, v),
    decreases entries.len(),
{
    if entries.len() == 0 {
        let tu = seq![(k, v)];
        assert(tu.first() == (k, v));
        assert(tu.drop_first() =~= Seq::<(K, V)>::empty());
        assert(table_map(tu) == table_map(tu.drop_first()).insert(k, v));
        assert(table_map(tu) =~= table_map(entries).insert(k, v));
    } else if entries.first().0 == k {
        let tu = seq![(k, v)] + entries.drop_first();
        assert(tu.len() == entries.len());
        assert(tu.first() == (k, v));
        assert(tu.drop_first() =~= entries.drop_first());
        assert(table_map(tu) == table_map(entries.drop_first()).insert(k, v));
        assert(table_map(entries) == table_map(entries.drop_first()).insert(
            entries.first().0,
            entries.first().1,
        ));
        assert(table_map(tu) =~= table_map(entries).insert(k, v));
    } else {
        let tu = seq![entries.first()] + table_update(entries.drop_first(), k, v);
        assert(tu.first() == entries.first());
        assert(tu.drop_first() =~= table_update(entries.drop_first(), k, v));
        lemma_table_map_update(entries.drop_first(), k, v);
        assert(table_map(tu) =~= table_map(entries).insert(k, v));
    }
}

proof fn lemma_table_update_at<K, V>(entries: Seq<(K, V)>, k: K, v: V, i: int)
    requires
        0 <= i < entries.len(),
        entries[i].0 == k,
        forall|j: int| 0 <= j < i ==> entries[j].0 != k,
    ensures
        table_update(entries, k, v) == entries.update(i, (k, v)),
    decreases i,
{
    if i == 0 {
        assert(table_update(entries, k, v) =~= entries.update(0, (k, v)));
    } else {
        assert(forall|j: int| 0 <= j < i - 1 ==> entries.drop_first()[j] == entries[j + 1]);
        assert(entries.drop_first()[i - 1] == entries[i]);
        lemma_table_update_at(entries.drop_first(), k, v, i - 1);
        assert(table_update(entries, k, v) =~= entries.update(i, (k, v)));
    }
}

proof fn lemma_table_update_absent<K, V>(entries: Seq<(K, V)>, k: K, v: V)
    requires
        forall|j: int| 0 <= j < entries.len() ==> entries[j].0 != k,
    ensures
        table_update(entries, k, v) == entries.push((k, v)),
    decreases entries.len(),
{
    if entries.len() == 0 {
        assert(table_update(entries, k, v) =~= entries.push((k, v)));
    } else {
        assert(forall|j: int|
            0 <= j < entries.drop_first().len() ==> entries.drop_first()[j] == entries[j + 1]);
        lemma_table_update_absent(entries.drop_first(), k, v);
        assert(table_update(entries, k, v) =~= entries.push((k, v)));
    }
}

/// A machine as a wave of processing leaves it: the current state, the
/// extended state, the live queue, and the error of the failing step, if any.
#[verifier::ext_equal]
pub struct WaveOutcome<H: FsmHandlers> {
    pub state: u64,
    pub ext: H::Ext,
    pub queue: Seq<(u64, Option<H::Payload>)>,
    pub error: Option<Errors<u64, u64, H::Err>>,
}

/// The hook a step's entry or exit phase runs: the one registered for
/// (state, dir), but only when the step moves between distinct states.
pub open spec fn phase_hook(
    hm: Map<(u64, EntryExit), (u64, Option<String>)>,
    state: u64,
    dir: EntryExit,
    moving: bool,
) -> Option<u64> {
    if moving && hm.contains_key((state, dir)) {
        Some(hm[(state, dir)].0)
    } else {
        None
    }
}

/// The extended state after a step's entry or exit phase.
pub open spec fn phase_ext<H: FsmHandlers>(
    h: H,
    hm: Map<(u64, EntryExit), (u64, Option<String>)>,
    state: u64,
    dir: EntryExit,
    moving: bool,
    ext: H::Ext,
) -> H::Ext {
    match phase_hook(hm, state, dir, moving) {
        Some(hook) => h.hook_ext(hook, ext),
        None => ext,
    }
}

/// What a step's entry or exit phase returns: the hook's result, or success
/// with no events when no hook runs.
pub open spec fn phase_res<H: FsmHandlers>(
    h: H,
    hm: Map<(u64, EntryExit), (u64, Option<String>)>,
    state: u64,
    dir: EntryExit,
    moving: bool,
    ext: H::Ext,
) -> Result<Seq<(u64, Option<H::Payload>)>, Errors<u64, u64, H::Err>> {
    match phase_hook(hm, state, dir, moving) {
        Some(hook) => h.hook_res(hook, ext),
        None => Ok(Seq::empty()),
    }
}

/// One step of a wave: what processing the event `event` with payload
/// `payload` does to a machine in state `state` with extended state `ext` and
/// live queue `queue`, given the tables `tm` and `hm` and the handler bundle
/// `h`.
///
/// The step looks the (state, event) pair up; a missing registration fails
/// with `NoTransition`. Otherwise, when the registered end state differs from
/// `state`, the exit hook of `state` runs first; then the transition handler,
/// with the event and payload; only on its success does the machine move to
/// the end state; then, again only when the states differ, the enter hook of
/// the end state. Every emitted event is appended to the live queue in that
/// order, and the first failing phase ends the step with its error, keeping
/// the mutations of the phases already run.
pub open spec fn run_step<H: FsmHandlers>(
    h: H,
    tm: Map<(u64, u64), TransitionTarget>,
    hm: Map<(u64, EntryExit), (u64, Option<String>)>,
    state: u64,
    ext: H::Ext,
    queue: Seq<(u64, Option<H::Payload>)>,
    event: u64,
    payload: Option<H::Payload>,
) -> WaveOutcome<H> {
    if !tm.contains_key((state, event)) {
        WaveOutcome { state, ext, queue, error: Some(Errors::NoTransition(event, state)) }
    } else {
        let target = tm[(state, event)].spec_endstate();
        let handler = tm[(state, event)].spec_handler();
        let moving = target != state;
        let ext1 = phase_ext(h, hm, state, EntryExit::ExitTransition, moving, ext);
        match phase_res(h, hm, state, EntryExit::ExitTransition, moving, ext) {
            Err(e) => WaveOutcome { state, ext: ext1, queue, error: Some(e) },
            Ok(exit_evs) => {
                let queue1 = queue + exit_evs;
                let ext2 = h.trans_ext(handler, ext1, event, payload);
                match h.trans_res(handler, ext1, event, payload) {
                    Err(e) => WaveOutcome { state, ext: ext2, queue: queue1, error: Some(e) },
                    Ok(trans_evs) => {
                        let queue2 = queue1 + trans_evs;
                        let ext3 = phase_ext(h, hm, target, EntryExit::EntryTransition, moving, ext2);
                        match phase_res(h, hm, target, EntryExit::EntryTransition, moving, ext2) {
                            Err(e) => WaveOutcome {
                                state: target,
                                ext: ext3,
                                queue: queue2,
                                error: Some(e),
                            },
                            Ok(enter_evs) => WaveOutcome {
                                state: target,
                                ext: ext3,
                                queue: queue2 + enter_evs,
                                error: None,
                            },
                        }
                    },
                }
            },
        }
    }
}

/// A whole wave: the events of `wave` run in order through [`run_step`],
/// stopping at the first error; the events a step emits go to the live
/// `queue`, never into the running wave.
pub open spec fn run_wave<H: FsmHandlers>(
    h: H,
    tm: Map<(u64, u64), TransitionTarget>,
    hm: Map<(u64, EntryExit), (u64, Option<String>)>,
    state: u64,
    ext: H::Ext,
    queue: Seq<(u64, Option<H::Payload>)>,
    wave: Seq<(u64, Option<H::Payload>)>,
) -> WaveOutcome<H>
    decreases wave.len(),
{
    if wave.len() == 0 {
        WaveOutcome { state, ext, queue, error: None }
    } else {
        let step = run_step(h, tm, hm, state, ext, queue, wave.first().0, wave.first().1);
        if step.error is Some {
            step
        } else {
            run_wave(h, tm, hm, step.state, step.ext, step.queue, wave.drop_first())
        }
    }
}

/// *Finite state machine*
///
/// Owns the current state, the extended state, the event queue, the
/// transition and entry/exit hook tables, the handler bundle and a name.
/// States and events are `u64` tags; handlers are `u64` codes interpreted by
/// the machine's [`FsmHandlers`] bundle.
pub struct FSM<H: FsmHandlers> {
    name: String,
    extended_state: H::Ext,
    current_state: u64,
    start_state: u64,
    event_queue: EventList<H::Payload>,
    transitions: Vec<((u64, u64), TransitionTarget)>,
    statetransitions: Vec<((u64, EntryExit), (u64, Option<String>))>,
    handlers: H,
}

impl<H: FsmHandlers> FSM<H> {
    /// The machine's name, as characters.
    pub closed spec fn spec_name(self) -> Seq<char> {
        self.name@
    }

    /// The machine's current state.
    pub closed spec fn spec_current_state(self) -> u64 {
        self.current_state
    }

    /// The state the machine was created in.
    pub closed spec fn spec_start_state(self) -> u64 {
        self.start_state
    }

    /// The machine's extended state.
    pub closed spec fn spec_extended_state(self) -> H::Ext {
        self.extended_state
    }

    /// The queue of events awaiting the next wave, oldest first.
    pub closed spec fn spec_queue(self) -> Seq<(u64, Option<H::Payload>)> {
        self.event_queue@
    }

    /// The machine's handler bundle.
    pub closed spec fn spec_handlers(self) -> H {
        self.handlers
    }

    /// The transition table's entries, in registration order.
    pub closed spec fn spec_transitions(self) -> Seq<((u64, u64), TransitionTarget)> {
        self.transitions@
    }

    /// The entry/exit hook table's entries, in registration order.
    pub closed spec fn spec_hooks(self) -> Seq<((u64, EntryExit), (u64, Option<String>))> {
        self.statetransitions@
    }

    /// The transition table as a mapping (state, event) -> target.
    pub closed spec fn transition_map(self) -> Map<(u64, u64), TransitionTarget> {
        table_map(self.transitions@)
    }

    /// The hook table as a mapping (state, direction) -> (hook code, name).
    pub closed spec fn hook_map(self) -> Map<(u64, EntryExit), (u64, Option<String>)> {
        table_map(self.statetransitions@)
    }

    /// True when `other` has the same tables, handler bundle, name and start
    /// state as `self`: everything about the machine but its current state,
    /// extended state and queue.
    pub open spec fn same_config(self, other: Self) -> bool {
        &&& self.spec_transitions() == other.spec_transitions()
        &&& self.spec_hooks() == other.spec_hooks()
        &&& self.transition_map() == other.transition_map()
        &&& self.hook_map() == other.hook_map()
        &&& self.spec_handlers() == other.spec_handlers()
        &&& self.spec_name() == other.spec_name()
        &&& self.spec_start_state() == other.spec_start_state()
    }

    /// A new machine in `start_state`, holding `extended_init`, with empty
    /// queue and empty tables.
    pub fn new(start_state: u64, extended_init: H::Ext, name: &str, handlers: H) -> (r: FSM<H>)
        ensures
            r.spec_current_state() == start_state,
            r.spec_start_state() == start_state,
            r.spec_extended_state() == extended_init,
            r.spec_queue() == Seq::<(u64, Option<H::Payload>)>::empty(),
            r.spec_transitions() == Seq::<((u64, u64), TransitionTarget)>::empty(),
            r.spec_hooks() == Seq::<((u64, EntryExit), (u64, Option<String>))>::empty(),
            r.transition_map() == Map::<(u64, u64), TransitionTarget>::empty(),
            r.hook_map() == Map::<(u64, EntryExit), (u64, Option<String>)>::empty(),
            r.spec_handlers() == handlers,
            r.spec_name() == name@,
    {
        let r = FSM {
            name: name.to_owned(),
            extended_state: extended_init,
            current_state: start_state,
            start_state,
            event_queue: Vec::new(),
            transitions: Vec::new(),
            statetransitions: Vec::new(),
            handlers,
        };
        proof {
            assert(r.transition_map() =~= Map::<(u64, u64), TransitionTarget>::empty());
            assert(r.hook_map() =~= Map::<(u64, EntryExit), (u64, Option<String>)>::empty());
        }
        r
    }

    /// Index of the first transition entry for `key`, if any.
    fn find_transition(&self, key: (u64, u64)) -> (r: Option<usize>)
        ensures
            match r {
                Some(i) => i < self.transitions@.len() && self.transitions@[i as int].0 == key
                    && forall|j: int| 0 <= j < i ==> self.transitions@[j].0 != key,
                None => forall|j: int|
                    0 <= j < self.transitions@.len() ==> self.transitions@[j].0 != key,
            },
    {
        let n = self.transitions.len();
        let mut i: usize = 0;
        while i < n
            invariant
                i <= n,
                n == self.transitions@.len(),
                forall|j: int| 0 <= j < i ==> self.transitions@[j].0 != key,
            decreases n - i,
        {
            let e = &self.transitions[i];
            if e.0.0 == key.0 && e.0.1 == key.1 {
                return Some(i);
            }
            i = i + 1;
        }
        None
    }

    /// Index of the first hook entry for `key`, if any.
    fn find_hook(&self, key: (u64, EntryExit)) -> (r: Option<usize>)
        ensures
            match r {
                Some(i) => i < self.statetransitions@.len() && self.statetransitions@[i as int].0
                    == key && forall|j: int| 0 <= j < i ==> self.statetransitions@[j].0 != key,
                None => forall|j: int|
                    0 <= j < self.statetransitions@.len() ==> self.statetransitions@[j].0 != key,
            },
    {
        let n = self.statetransitions.len();
        let mut i: usize = 0;
        while i < n
            invariant
                i <= n,
                n == self.statetransitions@.len(),
                forall|j: int| 0 <= j < i ==> self.statetransitions@[j].0 != key,
            decreases n - i,
        {
            let e = &self.statetransitions[i];
            if e.0.0 == key.0 && e.0.1 == key.1 {
                return Some(i);
            }
            i = i + 1;
        }
        None
    }

    /// The registered (end state, handler code) for (state, event), if any.
    fn lookup_transition(&self, state: u64, event: u64) -> (r: Option<(u64, u64)>)
        ensures
            match r {
                Some(th) => self.transition_map().contains_key((state, event))
                    && self.transition_map()[(state, event)].spec_endstate() == th.0
                    && self.transition_map()[(state, event)].spec_handler() == th.1,
                None => !self.transition_map().contains_key((state, event)),
            },
    {
        let key = (state, event);
        match self.find_transition(key) {
            Some(i) => {
                proof {
                    lemma_table_map_skip(self.transitions@, key, i as int);
                    assert(self.transitions@.skip(i as int).first() == self.transitions@[i as int]);
                }
                let e = &self.transitions[i];
                Some((e.1.endstate, e.1.handler))
            },
            None => {
                proof {
                    lemma_table_map_skip(
                        self.transitions@,
                        key,
                        self.transitions@.len() as int,
                    );
                    assert(self.transitions@.skip(self.transitions@.len() as int) =~= Seq::<
                        ((u64, u64), TransitionTarget),
                    >::empty());
                }
                None
            },
        }
    }

    /// The registered hook code for (state, direction), if any.
    fn lookup_hook(&self, state: u64, dir: EntryExit) -> (r: Option<u64>)
        ensures
            match r {
                Some(hk) => self.hook_map().contains_key((state, dir)) && self.hook_map()[
                    (state, dir)
                ].0 == hk,
                None => !self.hook_map().contains_key((state, dir)),
            },
    {
        let key = (state, dir);
        match self.find_hook(key) {
            Some(i) => {
                proof {
                    lemma_table_map_skip(self.statetransitions@, key, i as int);
                    assert(self.statetransitions@.skip(i as int).first() == self.statetransitions@[
                        i as int
                    ]);
                }
                let e = &self.statetransitions[i];
                Some(e.1.0)
            },
            None => {
                proof {
                    lemma_table_map_skip(
                        self.statetransitions@,
                        key,
                        self.statetransitions@.len() as int,
                    );
                    assert(self.statetransitions@.skip(self.statetransitions@.len() as int) =~= Seq::<
                        ((u64, EntryExit), (u64, Option<String>)),
                    >::empty());
                }
                None
            },
        }
    }

    /// Register a transition: when the machine is in `from`'s state and
    /// `from`'s event arrives, it runs `to`'s handler and moves to `to`'s end
    /// state.
    ///
    /// `returns` - true if the transition was newly inserted, false if a
    ///             previous registration for the same (state, event) pair was
    ///             overwritten.
    pub fn add_transition(&mut self, from: TransitionSource, to: TransitionTarget) -> (r: bool)
        ensures
            final(self).spec_transitions() == table_update(
                old(self).spec_transitions(),
                from.spec_key(),
                to,
            ),
            final(self).transition_map() == old(self).transition_map().insert(from.spec_key(), to),
            r == !old(self).transition_map().contains_key(from.spec_key()),
            final(self).spec_hooks() == old(self).spec_hooks(),
            final(self).hook_map() == old(self).hook_map(),
            final(self).spec_current_state() == old(self).spec_current_state(),
            final(self).spec_extended_state() == old(self).spec_extended_state(),
            final(self).spec_queue() == old(self).spec_queue(),
            final(self).spec_handlers() == old(self).spec_handlers(),
            final(self).spec_name() == old(self).spec_name(),
            final(self).spec_start_state() == old(self).spec_start_state(),
    {
        let key = (from.state, from.event);
        match self.find_transition(key) {
            Some(i) => {
                proof {
                    lemma_table_map_skip(self.transitions@, key, i as int);
                    assert(self.transitions@.skip(i as int).first() == self.transitions@[i as int]);
                    lemma_table_update_at(self.transitions@, key, to, i as int);
                    lemma_table_map_update(self.transitions@, key, to);
                }
                let _prev = self.transitions.remove(i);
                self.transitions.insert(i, (key, to));
                proof {
                    assert(self.transitions@ =~= old(self).transitions@.update(i as int, (key, to)));
                }
                false
            },
            None => {
                proof {
                    lemma_table_map_skip(self.transitions@, key, self.transitions@.len() as int);
                    assert(self.transitions@.skip(self.transitions@.len() as int) =~= Seq::<
                        ((u64, u64), TransitionTarget),
                    >::empty());
                    lemma_table_update_absent(self.transitions@, key, to);
                    lemma_table_map_update(self.transitions@, key, to);
                }
                self.transitions.push((key, to));
                true
            },
        }
    }

    /// Register an entry or exit hook for a state. The hook runs when a
    /// transition moves the machine into (`EntryTransition`) or out of
    /// (`ExitTransition`) that state; a transition that stays in the same
    /// state runs neither hook.
    ///
    /// `returns` - true if the hook was newly inserted, false if a previous
    ///             registration for the same (state, direction) pair was
    ///             overwritten.
    pub fn add_enter_transition(
        &mut self,
        case: (u64, EntryExit),
        hook: u64,
        name: Option<String>,
    ) -> (r: bool)
        ensures
            final(self).spec_hooks() == table_update(old(self).spec_hooks(), case, (hook, name)),
            final(self).hook_map() == old(self).hook_map().insert(case, (hook, name)),
            r == !old(self).hook_map().contains_key(case),
            final(self).spec_transitions() == old(self).spec_transitions(),
            final(self).transition_map() == old(self).transition_map(),
            final(self).spec_current_state() == old(self).spec_current_state(),
            final(self).spec_extended_state() == old(self).spec_extended_state(),
            final(self).spec_queue() == old(self).spec_queue(),
            final(self).spec_handlers() == old(self).spec_handlers(),
            final(self).spec_name() == old(self).spec_name(),
            final(self).spec_start_state() == old(self).spec_start_state(),
    {
        match self.find_hook(case) {
            Some(i) => {
                proof {
                    lemma_table_map_skip(self.statetransitions@, case, i as int);
                    assert(self.statetransitions@.skip(i as int).first() == self.statetransitions@[
                        i as int
                    ]);
                    lemma_table_update_at(self.statetransitions@, case, (hook, name), i as int);
                    lemma_table_map_update(self.statetransitions@, case, (hook, name));
                }
                let _prev = self.statetransitions.remove(i);
                self.statetransitions.insert(i, (case, (hook, name)));
                proof {
                    assert(self.statetransitions@ =~= old(self).statetransitions@.update(
                        i as int,
                        (case, (hook, name)),
                    ));
                }
                false
            },
            None => {
                proof {
                    lemma_table_map_skip(
                        self.statetransitions@,
                        case,
                        self.statetransitions@.len() as int,
                    );
                    assert(self.statetransitions@.skip(self.statetransitions@.len() as int) =~= Seq::<
                        ((u64, EntryExit), (u64, Option<String>)),
                    >::empty());
                    lemma_table_update_absent(self.statetransitions@, case, (hook, name));
                    lemma_table_map_update(self.statetransitions@, case, (hook, name));
                }
                self.statetransitions.push((case, (hook, name)));
                true
            },
        }
    }

    /// Append a handler result's emitted events to the live queue.
    fn enqueue_emitted(&mut self, evs: Option<EventList<H::Payload>>)
        ensures
            final(self).event_queue@ == old(self).event_queue@ + emitted_events(evs),
            final(self).current_state == old(self).current_state,
            final(self).extended_state == old(self).extended_state,
            final(self).transitions@ == old(self).transitions@,
            final(self).statetransitions@ == old(self).statetransitions@,
            final(self).handlers == old(self).handlers,
            final(self).name@ == old(self).name@,
            final(self).start_state == old(self).start_state,
    {
        match evs {
            Some(mut v) => {
                self.event_queue.append(&mut v);
            },
            None => {
                proof {
                    assert(self.event_queue@ =~= self.event_queue@ + Seq::<
                        (u64, Option<H::Payload>),
                    >::empty());
                }
            },
        }
    }

}

/// A machine that can queue events and process them in waves against a
/// transition table. The spec methods expose the model the two operations'
/// contracts are stated over.
pub trait RunsFSM<H: FsmHandlers>: Sized {
    /// The machine's handler bundle.
    spec fn fsm_handlers(self) -> H;

    /// The machine's transition table as a mapping.
    spec fn fsm_transition_map(self) -> Map<(u64, u64), TransitionTarget>;

    /// The machine's entry/exit hook table as a mapping.
    spec fn fsm_hook_map(self) -> Map<(u64, EntryExit), (u64, Option<String>)>;

    /// The machine's current state.
    spec fn fsm_state(self) -> u64;

    /// The machine's extended state.
    spec fn fsm_ext(self) -> H::Ext;

    /// The machine's queue of pending events, oldest first.
    spec fn fsm_queue(self) -> Seq<(u64, Option<H::Payload>)>;

    /// True when everything about the machine but its current state, extended
    /// state and queue is the same in `self` and `other`.
    spec fn fsm_config_kept(self, other: Self) -> bool;

    /// Add events to the event queue at the back, draining `events`; the
    /// events are _not_ processed.
    ///
    /// `returns` - the number of events added; adding never fails.
    fn add_events(&mut self, events: &mut EventList<H::Payload>) -> (r: Result<
        u32,
        Errors<u64, u64, H::Err>,
    >)
        ensures
            final(self).fsm_queue() == old(self).fsm_queue() + old(events)@,
            final(events)@ == Seq::<(u64, Option<H::Payload>)>::empty(),
            final(self).fsm_config_kept(*old(self)),
            final(self).fsm_transition_map() == old(self).fsm_transition_map(),
            final(self).fsm_hook_map() == old(self).fsm_hook_map(),
            final(self).fsm_handlers() == old(self).fsm_handlers(),
            final(self).fsm_state() == old(self).fsm_state(),
            final(self).fsm_ext() == old(self).fsm_ext(),
            r is Ok,
            old(events)@.len() <= u32::MAX ==> r == Ok::<u32, Errors<u64, u64, H::Err>>(
                old(events)@.len() as u32,
            ),
    ;

    /// Process the whole event queue as one wave: every event queued at the
    /// time of the call is removed and run in order, and any events emitted by
    /// handlers or hooks land back in the (initially emptied) live queue, to
    /// be run only by a later call. Observe that a machine can queue events
    /// against itself this way, so do not rely on which state it ends up in
    /// until the queue is drained.
    ///
    /// `returns` - the number of events captured into the wave, or the error
    ///             of the first failing step. On errors not much can be done
    ///             except killing the machine instance; the rest of the wave
    ///             is discarded.
    fn process_event_queue(&mut self) -> (r: Result<u32, Errors<u64, u64, H::Err>>)
        ensures
            final(self).fsm_config_kept(*old(self)),
            final(self).fsm_transition_map() == old(self).fsm_transition_map(),
            final(self).fsm_hook_map() == old(self).fsm_hook_map(),
            final(self).fsm_handlers() == old(self).fsm_handlers(),
            ({
                let o = run_wave(
                    old(self).fsm_handlers(),
                    old(self).fsm_transition_map(),
                    old(self).fsm_hook_map(),
                    old(self).fsm_state(),
                    old(self).fsm_ext(),
                    Seq::<(u64, Option<H::Payload>)>::empty(),
                    old(self).fsm_queue(),
                );
                &&& final(self).fsm_state() == o.state
                &&& final(self).fsm_ext() == o.ext
                &&& final(self).fsm_queue() == o.queue
                &&& match o.error {
                    None => r is Ok && (old(self).fsm_queue().len() <= u32::MAX ==> r == Ok::<
                        u32,
                        Errors<u64, u64, H::Err>,
                    >(old(self).fsm_queue().len() as u32)),
                    Some(e) => r == Err::<u32, Errors<u64, u64, H::Err>>(e),
                }
            }),
    ;
}

impl<H: FsmHandlers> RunsFSM<H> for FSM<H> {
    open spec fn fsm_handlers(self) -> H {
        self.spec_handlers()
    }

    open spec fn fsm_transition_map(self) -> Map<(u64, u64), TransitionTarget> {
        self.transition_map()
    }

    open spec fn fsm_hook_map(self) -> Map<(u64, EntryExit), (u64, Option<String>)> {
        self.hook_map()
    }

    open spec fn fsm_state(self) -> u64 {
        self.spec_current_state()
    }

    open spec fn fsm_ext(self) -> H::Ext {
        self.spec_extended_state()
    }

    open spec fn fsm_queue(self) -> Seq<(u64, Option<H::Payload>)> {
        self.spec_queue()
    }

    open spec fn fsm_config_kept(self, other: Self) -> bool {
        self.same_config(other)
    }

    fn add_events(&mut self, events: &mut EventList<H::Payload>) -> (r: Result<
        u32,
        Errors<u64, u64, H::Err>,
    >) {
        let el = events.len();
        self.event_queue.append(events);
        Ok(#[verifier::truncate] (el as u32))
    }

    fn process_event_queue(&mut self) -> (r: Result<u32, Errors<u64, u64, H::Err>>) {
        // freeze the current events: new events produced while the wave runs
        // must go to the next wave
        let mut wave: EventList<H::Payload> = Vec::new();
        core::mem::swap(&mut wave, &mut self.event_queue);
        let nrev = wave.len();

        let ghost h0 = self.handlers;
        let ghost tm = self.transition_map();
        let ghost hm = self.hook_map();
        let ghost s0 = self.current_state;
        let ghost x0 = self.extended_state;
        let ghost w0 = wave@;
        proof {
            assert(self.event_queue@ =~= Seq::<(u64, Option<H::Payload>)>::empty());
        }
        #[verifier::loop_isolation(false)]
        while wave.len() > 0
            invariant
                self.transitions@ == old(self).transitions@,
                self.statetransitions@ == old(self).statetransitions@,
                self.handlers == h0,
                self.name@ == old(self).name@,
                self.start_state == old(self).start_state,
                run_wave(h0, tm, hm, s0, x0, Seq::<(u64, Option<H::Payload>)>::empty(), w0)
                    == run_wave(
                    h0,
                    tm,
                    hm,
                    self.current_state,
                    self.extended_state,
                    self.event_queue@,
                    wave@,
                ),
            decreases wave@.len(),
        {
            let ghost wv = wave@;
            let ghost cur_s = self.current_state;
            let ghost cur_x = self.extended_state;
            let ghost cur_q = self.event_queue@;
            let ghost total = run_wave(h0, tm, hm, cur_s, cur_x, cur_q, wv);
            let (ev, pl) = wave.remove(0);
            proof {
                assert(wave@ =~= wv.drop_first());
                assert(wv.first() == (ev, pl));
            }
            let ghost step = run_step(h0, tm, hm, cur_s, cur_x, cur_q, ev, pl);
            match self.lookup_transition(self.current_state, ev) {
                None => {
                    proof {
                        assert(step == WaveOutcome::<H> {
                            state: cur_s,
                            ext: cur_x,
                            queue: cur_q,
                            error: Some(Errors::NoTransition(ev, cur_s)),
                        });
                        assert(total == step);
                    }
                    return Err(Errors::NoTransition(ev, self.current_state));
                },
                Some(th) => {
                    let target = th.0;
                    let handler = th.1;
                    let state = self.current_state;
                    let ghost moving = target != state;
                    let ghost x1 = phase_ext(
                        h0,
                        hm,
                        cur_s,
                        EntryExit::ExitTransition,
                        moving,
                        cur_x,
                    );
                    let ghost exit_r = phase_res(
                        h0,
                        hm,
                        cur_s,
                        EntryExit::ExitTransition,
                        moving,
                        cur_x,
                    );
                    // exit phase
                    if target != state {
                        match self.lookup_hook(state, EntryExit::ExitTransition) {
                            Some(hook) => {
                                let res = self.handlers.hook(hook, &mut self.extended_state);
                                match res {
                                    Err(e) => {
                                        proof {
                                            assert(exit_r == Err::<
                                                Seq<(u64, Option<H::Payload>)>,
                                                Errors<u64, u64, H::Err>,
                                            >(e));
                                            assert(step == WaveOutcome::<H> {
                                                state: cur_s,
                                                ext: x1,
                                                queue: cur_q,
                                                error: Some(e),
                                            });
                                            assert(total == step);
                                        }
                                        return Err(e);
                                    },
                                    Ok(evs) => {
                                        proof {
                                            assert(exit_r == Ok::<
                                                Seq<(u64, Option<H::Payload>)>,
                                                Errors<u64, u64, H::Err>,
                                            >(emitted_events(evs)));
                                        }
                                        self.enqueue_emitted(evs);
                                    },
                                }
                            },
                            None => {
                                proof {
                                    assert(self.extended_state == x1);
                                    assert(exit_r == Ok::<
                                        Seq<(u64, Option<H::Payload>)>,
                                        Errors<u64, u64, H::Err>,
                                    >(Seq::empty()));
                                    assert(self.event_queue@ =~= cur_q + exit_r->Ok_0);
                                }
                            },
                        }
                    } else {
                        proof {
                            assert(self.extended_state == x1);
                            assert(exit_r == Ok::<
                                Seq<(u64, Option<H::Payload>)>,
                                Errors<u64, u64, H::Err>,
                            >(Seq::empty()));
                            assert(self.event_queue@ =~= cur_q + exit_r->Ok_0);
                        }
                    }
                    // transition phase: only reached when the exit phase was ok
                    let ghost q1 = cur_q + exit_r->Ok_0;
                    let ghost x2 = h0.trans_ext(handler, x1, ev, pl);
                    let ghost trans_r = h0.trans_res(handler, x1, ev, pl);
                    let res = self.handlers.transition(handler, &mut self.extended_state, ev, pl);
                    match res {
                        Err(e) => {
                            proof {
                                assert(step == WaveOutcome::<H> {
                                    state: cur_s,
                                    ext: x2,
                                    queue: q1,
                                    error: Some(e),
                                });
                                assert(total == step);
                            }
                            return Err(e);
                        },
                        Ok(evs) => {
                            self.enqueue_emitted(evs);
                            self.current_state = target;
                        },
                    }
                    // enter phase: only reached when the handler was ok
                    let ghost q2 = q1 + trans_r->Ok_0;
                    let ghost x3 = phase_ext(
                        h0,
                        hm,
                        target,
                        EntryExit::EntryTransition,
                        moving,
                        x2,
                    );
                    let ghost enter_r = phase_res(
                        h0,
                        hm,
                        target,
                        EntryExit::EntryTransition,
                        moving,
                        x2,
                    );
                    if target != state {
                        match self.lookup_hook(target, EntryExit::EntryTransition) {
                            Some(hook) => {
                                let res = self.handlers.hook(hook, &mut self.extended_state);
                                match res {
                                    Err(e) => {
                                        proof {
                                            assert(step == WaveOutcome::<H> {
                                                state: target,
                                                ext: x3,
                                                queue: q2,
                                                error: Some(e),
                                            });
                                            assert(total == step);
                                        }
                                        return Err(e);
                                    },
                                    Ok(evs) => {
                                        self.enqueue_emitted(evs);
                                    },
                                }
                            },
                            None => {
                                proof {
                                    assert(self.extended_state == x3);
                                    assert(enter_r == Ok::<
                                        Seq<(u64, Option<H::Payload>)>,
                                        Errors<u64, u64, H::Err>,
                                    >(Seq::empty()));
                                    assert(self.event_queue@ =~= q2 + enter_r->Ok_0);
                                }
                            },
                        }
                    } else {
                        proof {
                            assert(self.extended_state == x3);
                            assert(enter_r == Ok::<
                                Seq<(u64, Option<H::Payload>)>,
                                Errors<u64, u64, H::Err>,
                            >(Seq::empty()));
                            assert(self.event_queue@ =~= q2 + enter_r->Ok_0);
                        }
                    }
                    proof {
                        assert(step == WaveOutcome::<H> {
                            state: target,
                            ext: x3,
                            queue: q2 + enter_r->Ok_0,
                            error: None,
                        });
                        assert(total == run_wave(
                            h0,
                            tm,
                            hm,
                            self.current_state,
                            self.extended_state,
                            self.event_queue@,
                            wave@,
                        ));
                    }
                },
            }
        }
        proof {
            assert(wave@.len() == 0);
            assert(run_wave(
                h0,
                tm,
                hm,
                self.current_state,
                self.extended_state,
                self.event_queue@,
                wave@,
            ) == WaveOutcome::<H> {
                state: self.current_state,
                ext: self.extended_state,
                queue: self.event_queue@,
                error: None,
            });
        }
        Ok(#[verifier::truncate] (nrev as u32))
    }
}

impl<H: FsmHandlers> FSM<H> {
    /// The machine's name.
    pub fn name(&self) -> (r: &String)
        ensures
            r@ == self.spec_name(),
    {
        &self.name
    }

    /// A read-only peek into the extended state from outside the handlers.
    /// Must be given up before running the machine, of course.
    pub fn extended_state(&self) -> (r: &H::Ext)
        ensures
            *r == self.spec_extended_state(),
    {
        &self.extended_state
    }

    /// Check the current state, read-only.
    pub fn current_state(&self) -> (r: u64)
        ensures
            r == self.spec_current_state(),
    {
        self.current_state
    }

    /// `returns` - true if the machine has outstanding events queued to
    ///             process.
    pub fn events_pending(&self) -> (r: bool)
        ensures
            r == (self.spec_queue().len() > 0),
    {
        self.event_queue.len() > 0
    }

    /// The machine's diagram, built from the labelled states, the tables and
    /// the start state: one node per labelled state, a shadow node per hook,
    /// an edge per transition and an edge per hook. Rendering the diagram is
    /// the caller's business.
    ///
    ///   * `state_labels` - a label for every state to draw
    ///   * `event_labels` - a label for the events named on edges
    pub fn dot_graph(
        &self,
        state_labels: &Vec<(u64, String)>,
        event_labels: &Vec<(u64, String)>,
    ) -> (g: DotGraph)
        ensures
            g.start_state == self.spec_start_state(),
            g.nodes@ == graph_nodes(state_labels@, self.hook_map(), self.spec_start_state()),
            g.edges@ == transition_edges(self.spec_transitions(), event_labels@) + hook_edges(
                self.spec_hooks(),
            ),
    {
        let mut nodes: Vec<DotNode> = Vec::new();
        let n = state_labels.len();
        let mut i: usize = 0;
        #[verifier::loop_isolation(false)]
        while i < n
            invariant
                i <= n,
                nodes@ == graph_nodes(
                    state_labels@.take(i as int),
                    self.hook_map(),
                    self.spec_start_state(),
                ),
            decreases n - i,
        {
            let s = state_labels[i].0;
            let lbl = state_labels[i].1.clone();
            let shape = if s == self.start_state {
                NodeShape::Diamond
            } else {
                NodeShape::Default
            };
            nodes.push(DotNode { state: s, hook: None, shape, dashed: false, label: Some(lbl) });
            match self.lookup_hook(s, EntryExit::EntryTransition) {
                Some(_) => {
                    nodes.push(
                        DotNode {
                            state: s,
                            hook: Some(EntryExit::EntryTransition),
                            shape: NodeShape::Plain,
                            dashed: true,
                            label: None,
                        },
                    );
                },
                None => {},
            }
            match self.lookup_hook(s, EntryExit::ExitTransition) {
                Some(_) => {
                    nodes.push(
                        DotNode {
                            state: s,
                            hook: Some(EntryExit::ExitTransition),
                            shape: NodeShape::Plain,
                            dashed: true,
                            label: None,
                        },
                    );
                },
                None => {},
            }
            proof {
                assert(state_labels@.take(i as int + 1).drop_last() =~= state_labels@.take(
                    i as int,
                ));
                assert(state_labels@.take(i as int + 1).last() == state_labels@[i as int]);
                assert(nodes@ =~= graph_nodes(
                    state_labels@.take(i as int + 1),
                    self.hook_map(),
                    self.spec_start_state(),
                ));
            }
            i = i + 1;
        }
        proof {
            assert(state_labels@.take(n as int) =~= state_labels@);
        }
        let mut edges: Vec<DotEdge> = Vec::new();
        let m = self.transitions.len();
        i = 0;
        #[verifier::loop_isolation(false)]
        while i < m
            invariant
                i <= m,
                edges@ == transition_edges(self.transitions@.take(i as int), event_labels@),
            decreases m - i,
        {
            let e = &self.transitions[i];
            let name = clone_opt_name(&e.1.name);
            let event_label = lookup_label(event_labels, e.0.1);
            edges.push(
                DotEdge {
                    from_state: e.0.0,
                    from_hook: None,
                    to_state: e.1.endstate,
                    to_hook: None,
                    name,
                    event_label,
                },
            );
            proof {
                assert(self.transitions@.take(i as int + 1).drop_last() =~= self.transitions@.take(
                    i as int,
                ));
                assert(self.transitions@.take(i as int + 1).last() == self.transitions@[i as int]);
                assert(edges@ =~= transition_edges(
                    self.transitions@.take(i as int + 1),
                    event_labels@,
                ));
            }
            i = i + 1;
        }
        proof {
            assert(self.transitions@.take(m as int) =~= self.transitions@);
        }
        let m2 = self.statetransitions.len();
        i = 0;
        #[verifier::loop_isolation(false)]
        while i < m2
            invariant
                i <= m2,
                edges@ == transition_edges(self.transitions@, event_labels@) + hook_edges(
                    self.statetransitions@.take(i as int),
                ),
            decreases m2 - i,
        {
            let e = &self.statetransitions[i];
            let name = clone_opt_name(&e.1.1);
            let state = e.0.0;
            let edge = match e.0.1 {
                EntryExit::EntryTransition => DotEdge {
                    from_state: state,
                    from_hook: Some(EntryExit::EntryTransition),
                    to_state: state,
                    to_hook: None,
                    name,
                    event_label: None,
                },
                EntryExit::ExitTransition => DotEdge {
                    from_state: state,
                    from_hook: None,
                    to_state: state,
                    to_hook: Some(EntryExit::ExitTransition),
                    name,
                    event_label: None,
                },
            };
            edges.push(edge);
            proof {
                assert(self.statetransitions@.take(i as int + 1).drop_last()
                    =~= self.statetransitions@.take(i as int));
                assert(self.statetransitions@.take(i as int + 1).last() == self.statetransitions@[
                    i as int
                ]);
                assert(edges@ =~= transition_edges(self.transitions@, event_labels@) + hook_edges(
                    self.statetransitions@.take(i as int + 1),
                ));
            }
            i = i + 1;
        }
        proof {
            assert(self.statetransitions@.take(m2 as int) =~= self.statetransitions@);
        }
        DotGraph { nodes, edges, start_state: self.start_state }
    }
}

/// Law (lookup correctness): processing a single registered event whose exit
/// hook, handler and enter hook all succeed moves the machine to the
/// registered end state; the handler runs exactly once, between the exit hook
/// and the enter hook, on this event and payload; and every emitted event is
/// appended to the live queue in that order instead of being run in this wave.
pub proof fn lemma_lookup_correctness<H: FsmHandlers>(
    h: H,
    tm: Map<(u64, u64), TransitionTarget>,
    hm: Map<(u64, EntryExit), (u64, Option<String>)>,
    state: u64,
    ext: H::Ext,
    queue: Seq<(u64, Option<H::Payload>)>,
    event: u64,
    payload: Option<H::Payload>,
)
    requires
        tm.contains_key((state, event)),
        run_step(h, tm, hm, state, ext, queue, event, payload).error is None,
    ensures
        ({
            let t = tm[(state, event)];
            let moving = t.spec_endstate() != state;
            let o = run_wave(h, tm, hm, state, ext, queue, seq![(event, payload)]);
            let x1 = phase_ext(h, hm, state, EntryExit::ExitTransition, moving, ext);
            let x2 = h.trans_ext(t.spec_handler(), x1, event, payload);
            &&& o.error is None
            &&& o.state == t.spec_endstate()
            &&& o.ext == phase_ext(h, hm, t.spec_endstate(), EntryExit::EntryTransition, moving, x2)
            &&& o.queue == queue + phase_res(
                h,
                hm,
                state,
                EntryExit::ExitTransition,
                moving,
                ext,
            )->Ok_0 + h.trans_res(t.spec_handler(), x1, event, payload)->Ok_0 + phase_res(
                h,
                hm,
                t.spec_endstate(),
                EntryExit::EntryTransition,
                moving,
                x2,
            )->Ok_0
        }),
{
    let w = seq![(event, payload)];
    assert(w.first() == (event, payload));
    assert(w.drop_first() =~= Seq::<(u64, Option<H::Payload>)>::empty());
    let t = tm[(state, event)];
    let moving = t.spec_endstate() != state;
    let x1 = phase_ext(h, hm, state, EntryExit::ExitTransition, moving, ext);
    assert(phase_res(h, hm, state, EntryExit::ExitTransition, moving, ext) is Ok);
    let x2 = h.trans_ext(t.spec_handler(), x1, event, payload);
    assert(h.trans_res(t.spec_handler(), x1, event, payload) is Ok);
    assert(phase_res(h, hm, t.spec_endstate(), EntryExit::EntryTransition, moving, x2) is Ok);
    let step = run_step(h, tm, hm, state, ext, queue, event, payload);
    assert(run_wave(h, tm, hm, state, ext, queue, w) == run_wave(
        h,
        tm,
        hm,
        step.state,
        step.ext,
        step.queue,
        w.drop_first(),
    ));
    assert(run_wave(
        h,
        tm,
        hm,
        step.state,
        step.ext,
        step.queue,
        Seq::<(u64, Option<H::Payload>)>::empty(),
    ) == WaveOutcome::<H> { state: step.state, ext: step.ext, queue: step.queue, error: None });
}

/// Law (missing transition): an event with no registration for the current
/// state fails at once with `NoTransition(event, state)`: the state, the
/// extended state and the live queue are untouched, and the rest of the wave
/// is discarded, whatever it holds.
pub proof fn lemma_missing_transition<H: FsmHandlers>(
    h: H,
    tm: Map<(u64, u64), TransitionTarget>,
    hm: Map<(u64, EntryExit), (u64, Option<String>)>,
    state: u64,
    ext: H::Ext,
    queue: Seq<(u64, Option<H::Payload>)>,
    event: u64,
    payload: Option<H::Payload>,
    rest: Seq<(u64, Option<H::Payload>)>,
)
    requires
        !tm.contains_key((state, event)),
    ensures
        run_wave(h, tm, hm, state, ext, queue, seq![(event, payload)] + rest) == (WaveOutcome::<
            H,
        > { state, ext, queue, error: Some(Errors::NoTransition(event, state)) }),
{
    let w = seq![(event, payload)] + rest;
    assert(w.len() > 0);
    assert(w.first() == (event, payload));
}

/// Law (hook firing, self-transition): a transition whose registered end
/// state equals the current state runs neither the exit nor the enter hook,
/// whatever hooks are registered: only the handler touches the extended
/// state, only its emissions reach the queue, and the machine stays in its
/// state.
pub proof fn lemma_self_transition_skips_hooks<H: FsmHandlers>(
    h: H,
    tm: Map<(u64, u64), TransitionTarget>,
    hm: Map<(u64, EntryExit), (u64, Option<String>)>,
    state: u64,
    ext: H::Ext,
    queue: Seq<(u64, Option<H::Payload>)>,
    event: u64,
    payload: Option<H::Payload>,
)
    requires
        tm.contains_key((state, event)),
        tm[(state, event)].spec_endstate() == state,
    ensures
        ({
            let t = tm[(state, event)];
            let o = run_step(h, tm, hm, state, ext, queue, event, payload);
            &&& o.state == state
            &&& o.ext == h.trans_ext(t.spec_handler(), ext, event, payload)
            &&& match h.trans_res(t.spec_handler(), ext, event, payload) {
                Ok(evs) => o.queue == queue + evs && o.error is None,
                Err(e) => o.queue == queue && o.error == Some(e),
            }
        }),
{
    let t = tm[(state, event)];
    let e0 = Seq::<(u64, Option<H::Payload>)>::empty();
    assert(queue + e0 =~= queue);
    match h.trans_res(t.spec_handler(), ext, event, payload) {
        Ok(evs) => {
            assert((queue + e0) + evs =~= queue + evs);
        },
        Err(_) => {},
    }
}

/// Law (wave deferral): what sits in the live queue never influences a wave:
/// running the same wave over two different queues gives the same state, the
/// same extended state and the same error, and appends the same emitted
/// events to either queue. Events put into the queue during a wave are thus
/// executed only by a later call that captures them into its own wave.
pub proof fn lemma_wave_deferral<H: FsmHandlers>(
    h: H,
    tm: Map<(u64, u64), TransitionTarget>,
    hm: Map<(u64, EntryExit), (u64, Option<String>)>,
    state: u64,
    ext: H::Ext,
    q1: Seq<(u64, Option<H::Payload>)>,
    q2: Seq<(u64, Option<H::Payload>)>,
    wave: Seq<(u64, Option<H::Payload>)>,
)
    ensures
        ({
            let o1 = run_wave(h, tm, hm, state, ext, q1, wave);
            let o2 = run_wave(h, tm, hm, state, ext, q2, wave);
            &&& o1.state == o2.state
            &&& o1.ext == o2.ext
            &&& o1.error == o2.error
            &&& exists|emitted: Seq<(u64, Option<H::Payload>)>|
                o1.queue == q1 + emitted && o2.queue == q2 + emitted
        }),
    decreases wave.len(),
{
    let e0 = Seq::<(u64, Option<H::Payload>)>::empty();
    if wave.len() == 0 {
        assert(q1 + e0 =~= q1);
        assert(q2 + e0 =~= q2);
        assert(run_wave(h, tm, hm, state, ext, q1, wave).queue == q1 + e0 && run_wave(
            h,
            tm,
            hm,
            state,
            ext,
            q2,
            wave,
        ).queue == q2 + e0);
    } else {
        let ev = wave.first().0;
        let pl = wave.first().1;
        let s1 = run_step(h, tm, hm, state, ext, q1, ev, pl);
        let s2 = run_step(h, tm, hm, state, ext, q2, ev, pl);
        if !tm.contains_key((state, ev)) {
            assert(q1 + e0 =~= q1);
            assert(q2 + e0 =~= q2);
            assert(s1.queue == q1 + e0 && s2.queue == q2 + e0);
        } else {
            let t = tm[(state, ev)];
            let moving = t.spec_endstate() != state;
            let x1 = phase_ext(h, hm, state, EntryExit::ExitTransition, moving, ext);
            match phase_res(h, hm, state, EntryExit::ExitTransition, moving, ext) {
                Err(_) => {
                    assert(q1 + e0 =~= q1);
                    assert(q2 + e0 =~= q2);
                    assert(s1.queue == q1 + e0 && s2.queue == q2 + e0);
                },
                Ok(a) => {
                    let x2 = h.trans_ext(t.spec_handler(), x1, ev, pl);
                    match h.trans_res(t.spec_handler(), x1, ev, pl) {
                        Err(_) => {
                            assert(s1.queue == q1 + a && s2.queue == q2 + a);
                        },
                        Ok(b) => {
                            let x3 = phase_ext(
                                h,
                                hm,
                                t.spec_endstate(),
                                EntryExit::EntryTransition,
                                moving,
                                x2,
                            );
                            match phase_res(
                                h,
                                hm,
                                t.spec_endstate(),
                                EntryExit::EntryTransition,
                                moving,
                                x2,
                            ) {
                                Err(_) => {
                                    assert((q1 + a) + b =~= q1 + (a + b));
                                    assert((q2 + a) + b =~= q2 + (a + b));
                                    assert(s1.queue == q1 + (a + b) && s2.queue == q2 + (a + b));
                                },
                                Ok(c) => {
                                    assert(((q1 + a) + b) + c =~= q1 + (a + b + c));
                                    assert(((q2 + a) + b) + c =~= q2 + (a + b + c));
                                    assert(s1.queue == q1 + (a + b + c) && s2.queue == q2 + (a + b
                                        + c));
                                },
                            }
                        },
                    }
                },
            }
        }
        assert(s1.state == s2.state && s1.ext == s2.ext && s1.error == s2.error);
        assert(exists|d: Seq<(u64, Option<H::Payload>)>|
            s1.queue == q1 + d && s2.queue == q2 + d);
        if s1.error is Some {
        } else {
            let d = choose|d: Seq<(u64, Option<H::Payload>)>|
                s1.queue == q1 + d && s2.queue == q2 + d;
            lemma_wave_deferral(h, tm, hm, s1.state, s1.ext, q1 + d, q2 + d, wave.drop_first());
            let o1 = run_wave(h, tm, hm, s1.state, s1.ext, q1 + d, wave.drop_first());
            let o2 = run_wave(h, tm, hm, s2.state, s2.ext, q2 + d, wave.drop_first());
            let d2 = choose|d2: Seq<(u64, Option<H::Payload>)>|
                o1.queue == (q1 + d) + d2 && o2.queue == (q2 + d) + d2;
            assert((q1 + d) + d2 =~= q1 + (d + d2));
            assert((q2 + d) + d2 =~= q2 + (d + d2));
            assert(o1.queue == q1 + (d + d2) && o2.queue == q2 + (d + d2));
        }
    }
}

/// Law (fail-fast): once a step of a wave fails, the remaining events are
/// discarded without any effect: running a longer wave equals running the
/// failing prefix alone, and the caller receives the failing step's error.
pub proof fn lemma_fail_fast<H: FsmHandlers>(
    h: H,
    tm: Map<(u64, u64), TransitionTarget>,
    hm: Map<(u64, EntryExit), (u64, Option<String>)>,
    state: u64,
    ext: H::Ext,
    queue: Seq<(u64, Option<H::Payload>)>,
    w1: Seq<(u64, Option<H::Payload>)>,
    w2: Seq<(u64, Option<H::Payload>)>,
)
    requires
        run_wave(h, tm, hm, state, ext, queue, w1).error is Some,
    ensures
        run_wave(h, tm, hm, state, ext, queue, w1 + w2) == run_wave(
            h,
            tm,
            hm,
            state,
            ext,
            queue,
            w1,
        ),
    decreases w1.len(),
{
    assert(w1.len() > 0);
    let w = w1 + w2;
    assert(w.len() > 0);
    assert(w.first() == w1.first());
    let step = run_step(h, tm, hm, state, ext, queue, w1.first().0, w1.first().1);
    if step.error is Some {
    } else {
        assert(w.drop_first() =~= w1.drop_first() + w2);
        lemma_fail_fast(h, tm, hm, step.state, step.ext, step.queue, w1.drop_first(), w2);
    }
}

} // verus!
