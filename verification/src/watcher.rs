use vstd::prelude::*;

verus! {

/// How long the settings file must stay untouched before it is reloaded.
pub const QUIET_MS: u64 = 300;

/// Where the watcher is in a burst of changes.
#[derive(Clone, Copy, Debug, PartialEq, Eq, Structural)]
pub enum WatchState {
    /// No change is pending.
    Idle,
    /// A change was seen; waiting for the file to stay untouched.
    Settling,
}

/// What the watcher was woken by.
#[derive(Clone, Copy, Debug, PartialEq, Eq, Structural)]
pub enum WatchEvent {
    /// The file changed.
    Changed,
    /// The quiet period passed with no change.
    Quiet,
    /// The stream of change notifications ended.
    Closed,
}

/// What the loop around the watcher must do next.
#[derive(Clone, Copy, Debug, PartialEq, Eq, Structural)]
pub enum WatchAction {
    /// Wait for the next notification, however long it takes.
    AwaitEvent,
    /// Wait for the next notification, at most this many milliseconds.
    AwaitQuiet(u64),
    /// Reload the settings, then wait for the next notification.
    Reload,
    /// Stop watching.
    Stop,
}

/// The watcher's answer to one event: changes are absorbed until the file
/// has been quiet for `QUIET_MS`, then the settings are reloaded once; when
/// the notifications end, a pending change is still reloaded, and the next
/// wait stops the watcher.
pub open spec fn watch_next(s: WatchState, e: WatchEvent) -> (WatchState, WatchAction) {
    match (s, e) {
        (_, WatchEvent::Changed) => (WatchState::Settling, WatchAction::AwaitQuiet(QUIET_MS)),
        (WatchState::Settling, WatchEvent::Quiet) => (WatchState::Idle, WatchAction::Reload),
        (WatchState::Settling, WatchEvent::Closed) => (WatchState::Idle, WatchAction::Reload),
        (WatchState::Idle, WatchEvent::Quiet) => (WatchState::Idle, WatchAction::AwaitEvent),
        (WatchState::Idle, WatchEvent::Closed) => (WatchState::Idle, WatchAction::Stop),
    }
}

/// One step of the watcher.
pub fn watch_step(s: WatchState, e: WatchEvent) -> (r: (WatchState, WatchAction))
    ensures
        r == watch_next(s, e),
{
    match e {
        WatchEvent::Changed => (WatchState::Settling, WatchAction::AwaitQuiet(QUIET_MS)),
        WatchEvent::Quiet => match s {
            WatchState::Settling => (WatchState::Idle, WatchAction::Reload),
            WatchState::Idle => (WatchState::Idle, WatchAction::AwaitEvent),
        },
        WatchEvent::Closed => match s {
            WatchState::Settling => (WatchState::Idle, WatchAction::Reload),
            WatchState::Idle => (WatchState::Idle, WatchAction::Stop),
        },
    }
}

/// The state and the actions after each event of `events` in turn.
pub open spec fn watch_run(s: WatchState, events: Seq<WatchEvent>) -> (WatchState, Seq<WatchAction>)
    decreases events.len(),
{
    if events.len() == 0 {
        (s, Seq::empty())
    } else {
        let step = watch_next(s, events[0]);
        let rest = watch_run(step.0, events.drop_first());
        (rest.0, seq![step.1] + rest.1)
    }
}

/// `n` changes in a row.
pub open spec fn burst(n: nat) -> Seq<WatchEvent> {
    Seq::new(n, |i: int| WatchEvent::Changed)
}

/// While a burst lasts the watcher only waits for quiet, whatever state it
/// was in, and ends up settling.
pub proof fn lemma_burst_only_waits(s: WatchState, n: nat)
    requires
        n >= 1,
    ensures
        watch_run(s, burst(n)).0 == WatchState::Settling,
        watch_run(s, burst(n)).1 == Seq::new(n, |i: int| WatchAction::AwaitQuiet(QUIET_MS)),
    decreases n,
{
    assert(burst(n)[0] == WatchEvent::Changed);
    if n > 1 {
        assert(burst(n).drop_first() =~= burst((n - 1) as nat));
        lemma_burst_only_waits(WatchState::Settling, (n - 1) as nat);
        let step = watch_next(s, burst(n)[0]);
        assert(step == (WatchState::Settling, WatchAction::AwaitQuiet(QUIET_MS)));
        let rest = watch_run(step.0, burst(n).drop_first());
        assert(watch_run(s, burst(n)) == (rest.0, seq![step.1] + rest.1));
        assert(seq![WatchAction::AwaitQuiet(QUIET_MS)] + Seq::new(
            (n - 1) as nat,
            |i: int| WatchAction::AwaitQuiet(QUIET_MS),
        ) =~= Seq::new(n, |i: int| WatchAction::AwaitQuiet(QUIET_MS)));
    } else {
        assert(burst(n).drop_first() =~= Seq::<WatchEvent>::empty());
        let step = watch_next(s, burst(n)[0]);
        assert(step == (WatchState::Settling, WatchAction::AwaitQuiet(QUIET_MS)));
        let rest = watch_run(step.0, burst(n).drop_first());
        assert(rest == (WatchState::Settling, Seq::<WatchAction>::empty()));
        assert(watch_run(s, burst(n)) == (rest.0, seq![step.1] + rest.1));
        assert(seq![WatchAction::AwaitQuiet(QUIET_MS)] + Seq::<WatchAction>::empty() =~= Seq::new(
            n,
            |i: int| WatchAction::AwaitQuiet(QUIET_MS),
        ));
    }
}

/// A burst of changes followed by one quiet spell gives exactly one reload,
/// at its end, and leaves the watcher idle.
pub proof fn lemma_burst_reloads_once(s: WatchState, n: nat)
    requires
        n >= 1,
    ensures
        ({
            let (end, actions) = watch_run(s, burst(n).push(WatchEvent::Quiet));
            &&& end == WatchState::Idle
            &&& actions.len() == n + 1
            &&& actions[n as int] == WatchAction::Reload
            &&& forall|i: int| 0 <= i < n ==> actions[i] != WatchAction::Reload
        }),
{
    lemma_run_split(s, burst(n), seq![WatchEvent::Quiet]);
    assert(burst(n) + seq![WatchEvent::Quiet] =~= burst(n).push(WatchEvent::Quiet));
    lemma_burst_only_waits(s, n);
    let mid = watch_run(s, burst(n));
    assert(seq![WatchEvent::Quiet].drop_first() =~= Seq::<WatchEvent>::empty());
    assert(seq![WatchEvent::Quiet][0] == WatchEvent::Quiet);
    let tail = watch_run(mid.0, seq![WatchEvent::Quiet]);
    let step = watch_next(mid.0, WatchEvent::Quiet);
    assert(step == (WatchState::Idle, WatchAction::Reload));
    let rest = watch_run(step.0, seq![WatchEvent::Quiet].drop_first());
    assert(rest == (WatchState::Idle, Seq::<WatchAction>::empty()));
    assert(tail == (rest.0, seq![step.1] + rest.1));
    assert(tail.0 == WatchState::Idle);
    assert(tail.1 =~= seq![WatchAction::Reload] + Seq::<WatchAction>::empty());
    assert(tail.1 =~= seq![WatchAction::Reload]);
    let all = mid.1 + tail.1;
    assert(all[n as int] == WatchAction::Reload);
    assert forall|i: int| 0 <= i < n implies all[i] != WatchAction::Reload by {
        assert(all[i] == mid.1[i]);
    }
}

/// Running two stretches of events one after the other is running them
/// together.
pub proof fn lemma_run_split(s: WatchState, a: Seq<WatchEvent>, b: Seq<WatchEvent>)
    ensures
        watch_run(s, a + b).0 == watch_run(watch_run(s, a).0, b).0,
        watch_run(s, a + b).1 == watch_run(s, a).1 + watch_run(watch_run(s, a).0, b).1,
    decreases a.len(),
{
    if a.len() == 0 {
        assert(a + b =~= b);
        assert(watch_run(s, a).1 + watch_run(s, b).1 =~= watch_run(s, b).1);
    } else {
        let s1 = watch_next(s, a[0]).0;
        assert((a + b)[0] == a[0]);
        assert((a + b).drop_first() =~= a.drop_first() + b);
        lemma_run_split(s1, a.drop_first(), b);
        let r = watch_run(s1, a.drop_first()).1;
        let t = watch_run(watch_run(s1, a.drop_first()).0, b).1;
        assert(seq![watch_next(s, a[0]).1] + (r + t) =~= (seq![watch_next(s, a[0]).1] + r) + t);
    }
}

} // verus!
