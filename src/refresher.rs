//! Decisions of the background task that keeps a discovered session supplied
//! with pipes as the exit's bridges change. The task holds only a
//! non-owning handle to its session; it stops once that handle no longer
//! resolves.
use vstd::prelude::*;
use crate::bridge::BridgeDescriptor;

verus! {

/// Where the refresher stands.
#[derive(Clone, Copy, Debug, PartialEq, Eq, Structural)]
pub enum RefresherState {
    /// Waiting for the refresh interval to elapse.
    Idle,
    /// A fresh bridge list has been requested.
    Refreshing,
    /// The session is gone; nothing more is done.
    Stopped,
}

/// What the task reports to the refresher.
pub enum RefreshEvent {
    /// The refresh interval elapsed; `session_alive` tells whether the
    /// session handle still resolved.
    TimerFired { session_alive: bool },
    /// The bridge list arrived; `attached` holds the peer addresses of the
    /// session's pipes, or `None` when the session handle no longer resolved.
    BridgesFetched { bridges: Vec<BridgeDescriptor>, attached: Option<Vec<String>> },
    /// The bridge list could not be fetched.
    FetchFailed,
}

/// What the task is to do next.
pub enum RefreshAction {
    /// Nothing until the next event.
    Wait,
    /// Fetch a fresh bridge list for the exit.
    FetchBridges,
    /// Start one independent attempt per bridge listed.
    Connect(Vec<BridgeDescriptor>),
}

/// Whether one of the attached peer addresses reads `addr`.
pub open spec fn is_attached(attached: Seq<String>, addr: Seq<char>) -> bool {
    exists|i: int| 0 <= i < attached.len() && (#[trigger] attached[i])@ == addr
}

/// The bridges of `bs` whose endpoint no attached pipe has, in order.
pub open spec fn fresh_bridges(bs: Seq<BridgeDescriptor>, attached: Seq<String>) -> Seq<BridgeDescriptor>
    decreases bs.len(),
{
    if bs.len() == 0 {
        Seq::empty()
    } else if is_attached(attached, bs.last().endpoint@) {
        fresh_bridges(bs.drop_last(), attached)
    } else {
        fresh_bridges(bs.drop_last(), attached).push(bs.last())
    }
}

/// The state after one event.
pub open spec fn step_state(s: RefresherState, e: RefreshEvent) -> RefresherState {
    match (s, e) {
        (RefresherState::Idle, RefreshEvent::TimerFired { session_alive }) => if session_alive {
            RefresherState::Refreshing
        } else {
            RefresherState::Stopped
        },
        (RefresherState::Refreshing, RefreshEvent::BridgesFetched { attached, .. }) => if attached is Some {
            RefresherState::Idle
        } else {
            RefresherState::Stopped
        },
        (RefresherState::Refreshing, RefreshEvent::FetchFailed) => RefresherState::Idle,
        _ => s,
    }
}

/// Whether one event makes the refresher fetch the bridge list.
pub open spec fn step_fetches(s: RefresherState, e: RefreshEvent) -> bool {
    s == RefresherState::Idle && (e matches RefreshEvent::TimerFired { session_alive } && session_alive)
}

/// The state after a run of events.
pub open spec fn run_state(s: RefresherState, es: Seq<RefreshEvent>) -> RefresherState
    decreases es.len(),
{
    if es.len() == 0 {
        s
    } else {
        run_state(step_state(s, es[0]), es.drop_first())
    }
}

/// How many bridge-list fetches a run of events starts.
pub open spec fn run_fetches(s: RefresherState, es: Seq<RefreshEvent>) -> nat
    decreases es.len(),
{
    if es.len() == 0 {
        0
    } else {
        (if step_fetches(s, es[0]) { 1nat } else { 0nat }) + run_fetches(step_state(s, es[0]), es.drop_first())
    }
}

/// Whether an event is one that the task reports after the session's last
/// owner released it: every resolution of the handle fails.
pub open spec fn reports_released(e: RefreshEvent) -> bool {
    match e {
        RefreshEvent::TimerFired { session_alive } => !session_alive,
        RefreshEvent::BridgesFetched { attached, .. } => attached is None,
        RefreshEvent::FetchFailed => true,
    }
}

/// Whether one of `addrs` reads `a`.
fn contains_addr(addrs: &Vec<String>, a: &String) -> (r: bool)
    ensures
        r == is_attached(addrs@, a@),
{
    let mut i: usize = 0;
    while i < addrs.len()
        invariant
            i <= addrs@.len(),
            forall|j: int| 0 <= j < i ==> addrs@[j]@ != a@,
        decreases addrs.len() - i,
    {
        if addrs[i] == *a {
            return true;
        }
        i = i + 1;
    }
    false
}

/// Keeps the bridges whose endpoint no attached pipe has, in order.
pub fn select_fresh_bridges(bridges: Vec<BridgeDescriptor>, attached: &Vec<String>) -> (r: Vec<BridgeDescriptor>)
    ensures
        r@ == fresh_bridges(bridges@, attached@),
{
    let ghost all = bridges@;
    let mut rest = bridges;
    let mut out: Vec<BridgeDescriptor> = Vec::new();
    let ghost mut k: int = 0;
    while rest.len() > 0
        invariant
            k + rest@.len() == all.len(),
            rest@ == all.subrange(k as int, all.len() as int),
            0 <= k,
            out@ == fresh_bridges(all.subrange(0, k), attached@),
        decreases rest.len(),
    {
        let b = rest.remove(0);
        assert(all.subrange(0, k + 1).drop_last() =~= all.subrange(0, k));
        assert(all.subrange(0, k + 1).last() == b);
        assert(rest@ =~= all.subrange(k + 1, all.len() as int));
        if !contains_addr(attached, &b.endpoint) {
            out.push(b);
        }
        proof {
            k = k + 1;
        }
    }
    assert(all.subrange(0, k) =~= all);
    out
}

/// One step of the refresher: the next state and the action to take.
pub fn refresher_step(state: RefresherState, event: RefreshEvent) -> (r: (RefresherState, RefreshAction))
    ensures
        r.0 == step_state(state, event),
        r.1 is FetchBridges == step_fetches(state, event),
        match (state, event) {
            (RefresherState::Refreshing, RefreshEvent::BridgesFetched { bridges, attached: Some(att) }) =>
                r.1 matches RefreshAction::Connect(v) && v@ == fresh_bridges(bridges@, att@),
            _ => !(r.1 is Connect),
        },
{
    match state {
        RefresherState::Idle => match event {
            RefreshEvent::TimerFired { session_alive } => if session_alive {
                (RefresherState::Refreshing, RefreshAction::FetchBridges)
            } else {
                (RefresherState::Stopped, RefreshAction::Wait)
            },
            _ => (state, RefreshAction::Wait),
        },
        RefresherState::Refreshing => match event {
            RefreshEvent::BridgesFetched { bridges, attached } => match attached {
                Some(att) => (RefresherState::Idle, RefreshAction::Connect(select_fresh_bridges(bridges, &att))),
                None => (RefresherState::Stopped, RefreshAction::Wait),
            },
            RefreshEvent::FetchFailed => (RefresherState::Idle, RefreshAction::Wait),
            _ => (state, RefreshAction::Wait),
        },
        RefresherState::Stopped => (state, RefreshAction::Wait),
    }
}

/// A bridge whose endpoint is not attached is among the fresh bridges.
proof fn lemma_fresh_contains(bs: Seq<BridgeDescriptor>, attached: Seq<String>, i: int)
    requires
        0 <= i < bs.len(),
        !is_attached(attached, bs[i].endpoint@),
    ensures
        fresh_bridges(bs, attached).contains(bs[i]),
    decreases bs.len(),
{
    if i == bs.len() - 1 {
        assert(fresh_bridges(bs, attached).last() == bs[i]);
    } else {
        assert(bs.drop_last()[i] == bs[i]);
        lemma_fresh_contains(bs.drop_last(), attached, i);
        let f = fresh_bridges(bs.drop_last(), attached);
        let j = choose|j: int| 0 <= j < f.len() && f[j] == bs[i];
        if !is_attached(attached, bs.last().endpoint@) {
            assert(f.push(bs.last())[j] == bs[i]);
        }
    }
}

/// A bridge list that has not changed since a refresh cycle whose attempts
/// all attached their pipes yields no new attempt on the next cycle: every
/// bridge then has an attached pipe at its endpoint.
pub proof fn lemma_unchanged_bridges_no_new_attempts(
    bs: Seq<BridgeDescriptor>,
    first: Seq<String>,
    second: Seq<String>,
)
    requires
        forall|a: Seq<char>| is_attached(first, a) ==> is_attached(second, a),
        forall|b: BridgeDescriptor| fresh_bridges(bs, first).contains(b) ==> is_attached(second, b.endpoint@),
    ensures
        fresh_bridges(bs, second).len() == 0,
    decreases bs.len(),
{
    if bs.len() > 0 {
        let b = bs.last();
        if !is_attached(second, b.endpoint@) {
            lemma_fresh_contains(bs, first, bs.len() - 1);
        }
        assert forall|c: BridgeDescriptor| fresh_bridges(bs.drop_last(), first).contains(c) implies is_attached(
            second,
            c.endpoint@,
        ) by {
            let f = fresh_bridges(bs.drop_last(), first);
            let j = choose|j: int| 0 <= j < f.len() && f[j] == c;
            if is_attached(first, b.endpoint@) {
                assert(fresh_bridges(bs, first) == f);
            } else {
                assert(fresh_bridges(bs, first)[j] == c);
            }
            assert(fresh_bridges(bs, first).contains(c));
        }
        lemma_unchanged_bridges_no_new_attempts(bs.drop_last(), first, second);
    }
}

/// Once stopped, the refresher stays stopped and fetches nothing, whatever
/// happens next.
pub proof fn lemma_stopped_is_final(es: Seq<RefreshEvent>)
    ensures
        run_state(RefresherState::Stopped, es) == RefresherState::Stopped,
        run_fetches(RefresherState::Stopped, es) == 0,
    decreases es.len(),
{
    if es.len() > 0 {
        lemma_stopped_is_final(es.drop_first());
    }
}

/// After the session's last owner has released it, the refresher starts no
/// further bridge-list fetch, from whatever state it was in.
pub proof fn lemma_released_session_fetches_nothing(s: RefresherState, es: Seq<RefreshEvent>)
    requires
        forall|i: int| 0 <= i < es.len() ==> reports_released(#[trigger] es[i]),
    ensures
        run_fetches(s, es) == 0,
    decreases es.len(),
{
    if es.len() > 0 {
        assert(reports_released(es[0]));
        assert forall|i: int| 0 <= i < es.drop_first().len() implies reports_released(
            #[trigger] es.drop_first()[i],
        ) by {
            assert(es.drop_first()[i] == es[i + 1]);
        }
        lemma_released_session_fetches_nothing(step_state(s, es[0]), es.drop_first());
    }
}

} // verus!
