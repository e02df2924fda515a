use vstd::prelude::*;
use vstd::pervasive::VecAdditionalExecFns;

use crate::board::{Command, reload_spec};
use crate::imposter_cfg::ImposterCfg;
use crate::config::MeasurementType;
use crate::state::{MeasurementSpec, SimMode};

verus! {

/// The control state of one board's simulation loop.
#[derive(Clone, Copy, Debug, PartialEq, Eq, Structural)]
pub struct Simulator {
    /// The tick period, in milliseconds.
    pub period_ms: u64,
    /// Whether a UDP socket is bound and packets go out.
    pub udp_open: bool,
    /// Whether a UDP bind was asked for and its outcome not yet reported.
    pub udp_pending: bool,
    /// Whether a TCP listener is bound and orders are taken.
    pub tcp_open: bool,
    /// Whether a TCP bind was asked for and its outcome not yet reported.
    pub tcp_pending: bool,
    /// How measurements evolve.
    pub mode: SimMode,
}

/// What the loop around the simulator must do after a control message.
#[derive(Clone, Copy, Debug, PartialEq, Eq, Structural)]
pub enum Effect {
    /// Nothing to do.
    Nothing,
    /// Restart the tick timer with this period.
    Retime(u64),
    /// Bind a UDP socket and report whether that worked.
    OpenUdp,
    /// Drop the UDP socket.
    CloseUdp,
    /// Bind the TCP listener and report whether that worked.
    OpenTcp,
    /// Stop the TCP listener and drop its connection.
    CloseTcp,
    /// Rebuild every measurement's value for this mode.
    Restart(SimMode),
    /// Give every measurement this random step.
    Restep(u64),
    /// The control channel is gone: end the loop.
    Stop,
}

/// What one tick does.
#[derive(Clone, Copy, Debug, PartialEq, Eq, Structural)]
pub struct TickPlan {
    /// The values take a random-walk step.
    pub walk: bool,
    /// The data packets are built and sent.
    pub send: bool,
}

/// The simulator's answer to a control message (`None`: the channel closed).
pub open spec fn next(s: Simulator, cmd: Option<Command>) -> (Simulator, Effect) {
    match cmd {
        None => (s, Effect::Stop),
        Some(Command::SetPeriod(ms)) => (Simulator { period_ms: ms, ..s }, Effect::Retime(ms)),
        Some(Command::SetUdp(enabled)) => if enabled && !s.udp_open {
            (Simulator { udp_pending: true, ..s }, Effect::OpenUdp)
        } else if !enabled && s.udp_open {
            (Simulator { udp_open: false, udp_pending: false, ..s }, Effect::CloseUdp)
        } else if !enabled {
            (Simulator { udp_pending: false, ..s }, Effect::Nothing)
        } else {
            (s, Effect::Nothing)
        },
        Some(Command::SetMode(m)) => (Simulator { mode: m, ..s }, Effect::Restart(m)),
        Some(Command::SetRandomStep(step)) => (s, Effect::Restep(step)),
        Some(Command::SetTcp(enabled)) => if enabled && !s.tcp_open {
            (Simulator { tcp_pending: true, ..s }, Effect::OpenTcp)
        } else if !enabled && s.tcp_open {
            (Simulator { tcp_open: false, tcp_pending: false, ..s }, Effect::CloseTcp)
        } else if !enabled {
            (Simulator { tcp_pending: false, ..s }, Effect::Nothing)
        } else {
            (s, Effect::Nothing)
        },
    }
}

/// The state after a UDP bind outcome is reported.
pub open spec fn udp_bound(s: Simulator, bound: bool) -> Simulator {
    if s.udp_pending {
        Simulator { udp_open: bound, udp_pending: false, ..s }
    } else {
        s
    }
}

/// The state after a TCP bind outcome is reported.
pub open spec fn tcp_bound(s: Simulator, bound: bool) -> Simulator {
    if s.tcp_pending {
        Simulator { tcp_open: bound, tcp_pending: false, ..s }
    } else {
        s
    }
}

impl Simulator {
    /// The state a board starts in; the flags say whether to bind UDP and
    /// the TCP listener now.
    pub fn start(period_ms: u64, udp_enabled: bool, tcp_enabled: bool, mode: SimMode) -> (r: (
        Simulator,
        bool,
        bool,
    ))
        ensures
            r.0 == (Simulator {
                period_ms,
                udp_open: false,
                udp_pending: udp_enabled,
                tcp_open: false,
                tcp_pending: tcp_enabled,
                mode,
            }),
            r.1 == udp_enabled,
            r.2 == tcp_enabled,
    {
        (
            Simulator {
                period_ms,
                udp_open: false,
                udp_pending: udp_enabled,
                tcp_open: false,
                tcp_pending: tcp_enabled,
                mode,
            },
            udp_enabled,
            tcp_enabled,
        )
    }

    /// Handles one control message (`None`: the channel closed).
    pub fn on_command(&mut self, cmd: Option<Command>) -> (e: Effect)
        ensures
            (*final(self), e) == next(*old(self), cmd),
    {
        match cmd {
            None => Effect::Stop,
            Some(Command::SetPeriod(ms)) => {
                self.period_ms = ms;
                Effect::Retime(ms)
            },
            Some(Command::SetUdp(enabled)) => {
                if enabled && !self.udp_open {
                    self.udp_pending = true;
                    Effect::OpenUdp
                } else if !enabled && self.udp_open {
                    self.udp_open = false;
                    self.udp_pending = false;
                    Effect::CloseUdp
                } else {
                    if !enabled {
                        self.udp_pending = false;
                    }
                    Effect::Nothing
                }
            },
            Some(Command::SetMode(m)) => {
                self.mode = m;
                Effect::Restart(m)
            },
            Some(Command::SetRandomStep(step)) => Effect::Restep(step),
            Some(Command::SetTcp(enabled)) => {
                if enabled && !self.tcp_open {
                    self.tcp_pending = true;
                    Effect::OpenTcp
                } else if !enabled && self.tcp_open {
                    self.tcp_open = false;
                    self.tcp_pending = false;
                    Effect::CloseTcp
                } else {
                    if !enabled {
                        self.tcp_pending = false;
                    }
                    Effect::Nothing
                }
            },
        }
    }

    /// Records whether binding the UDP socket worked. A report counts only
    /// while a bind is pending; one for a bind that UDP was switched off
    /// since, or that was never asked for, changes nothing.
    pub fn on_udp_bound(&mut self, bound: bool)
        ensures
            *final(self) == udp_bound(*old(self), bound),
    {
        if self.udp_pending {
            self.udp_open = bound;
            self.udp_pending = false;
        }
    }

    /// Records whether binding the TCP listener worked; as for UDP, a report
    /// counts only while a bind is pending.
    pub fn on_tcp_bound(&mut self, bound: bool)
        ensures
            *final(self) == tcp_bound(*old(self), bound),
    {
        if self.tcp_pending {
            self.tcp_open = bound;
            self.tcp_pending = false;
        }
    }

    /// What a tick does: values move only in `Random` mode, and packets go
    /// out only while a socket is bound.
    pub fn on_tick(&self) -> (t: TickPlan)
        ensures
            t.walk == (self.mode == SimMode::Random),
            t.send == self.udp_open,
    {
        TickPlan { walk: self.mode.ticks_move(), send: self.udp_open }
    }
}

/// Gives every measurement the same random step, changing nothing else.
pub fn apply_random_step(specs: &mut Vec<MeasurementSpec>, step: u64)
    ensures
        final(specs)@.len() == old(specs)@.len(),
        forall|i: int|
            0 <= i < final(specs)@.len() ==> {
                &&& (#[trigger] final(specs)@[i]).random_step == step
                &&& final(specs)@[i].id == old(specs)@[i].id
                &&& final(specs)@[i].kind == old(specs)@[i].kind
                &&& final(specs)@[i].range == old(specs)@[i].range
                &&& final(specs)@[i].enum_count == old(specs)@[i].enum_count
            },
{
    let n = specs.len();
    for i in 0..n
        invariant
            n == specs@.len(),
            n == old(specs)@.len(),
            forall|j: int|
                0 <= j < n ==> {
                    &&& (#[trigger] specs@[j]).id == old(specs)@[j].id
                    &&& specs@[j].kind == old(specs)@[j].kind
                    &&& specs@[j].range == old(specs)@[j].range
                    &&& specs@[j].enum_count == old(specs)@[j].enum_count
                    &&& j < i ==> specs@[j].random_step == step
                },
    {
        // a stand-in, swapped with the entry so that it can be changed in place
        let mut spec = MeasurementSpec {
            id: String::new(),
            kind: MeasurementType::Bool,
            range: None,
            enum_count: 0,
            random_step: 0,
        };
        specs.set_and_swap(i, &mut spec);
        spec.random_step = step;
        specs.set_and_swap(i, &mut spec);
    }
}

/// A new random step changes no field of the state; a UDP message leaves
/// the TCP listener alone and a TCP message the UDP socket.
pub proof fn lemma_unrelated_commands_keep_state(s: Simulator, b: bool, step: u64)
    ensures
        next(s, Some(Command::SetRandomStep(step))).0 == s,
        next(s, Some(Command::SetTcp(b))).0 == (Simulator {
            tcp_open: next(s, Some(Command::SetTcp(b))).0.tcp_open,
            tcp_pending: next(s, Some(Command::SetTcp(b))).0.tcp_pending,
            ..s
        }),
        next(s, Some(Command::SetUdp(b))).0 == (Simulator {
            udp_open: next(s, Some(Command::SetUdp(b))).0.udp_open,
            udp_pending: next(s, Some(Command::SetUdp(b))).0.udp_pending,
            ..s
        }),
{
}

/// The loop stops exactly when the control channel closes.
pub proof fn lemma_stop_only_on_close(s: Simulator, cmd: Option<Command>)
    ensures
        (next(s, cmd).1 == Effect::Stop) <==> cmd is None,
{
}

/// Switching TCP to the state it is already in does nothing; stopping the
/// listener is immediate, and once it is bound, enabling again does nothing.
pub proof fn lemma_tcp_switch_idempotent(s: Simulator)
    ensures
        next(next(s, Some(Command::SetTcp(false))).0, Some(Command::SetTcp(false))).1
            == Effect::Nothing,
        !next(s, Some(Command::SetTcp(false))).0.tcp_open,
        s.tcp_open ==> next(s, Some(Command::SetTcp(true))) == (s, Effect::Nothing),
        !s.tcp_open ==> next(s, Some(Command::SetTcp(true))).1 == Effect::OpenTcp,
        s.tcp_open ==> next(s, Some(Command::SetTcp(false))).1 == Effect::CloseTcp,
{
}

/// Switching UDP to the state it is already in does nothing; closing is
/// immediate, and once a bind has succeeded, enabling again does nothing.
pub proof fn lemma_udp_switch_idempotent(s: Simulator)
    ensures
        next(next(s, Some(Command::SetUdp(false))).0, Some(Command::SetUdp(false))).1
            == Effect::Nothing,
        !next(s, Some(Command::SetUdp(false))).0.udp_open,
        s.udp_open ==> next(s, Some(Command::SetUdp(true))) == (s, Effect::Nothing),
        !s.udp_open ==> next(s, Some(Command::SetUdp(true))).1 == Effect::OpenUdp,
{
}

/// A new period or mode is what the state holds afterwards, and the other
/// fields do not change.
pub proof fn lemma_setters_take_effect(s: Simulator, ms: u64, m: SimMode)
    ensures
        next(s, Some(Command::SetPeriod(ms))).0 == (Simulator { period_ms: ms, ..s }),
        next(s, Some(Command::SetMode(m))).0 == (Simulator { mode: m, ..s }),
{
}

/// The state after each of `cmds` in turn, binds left pending.
pub open spec fn run_all(s: Simulator, cmds: Seq<Command>) -> Simulator
    decreases cmds.len(),
{
    if cmds.len() == 0 {
        s
    } else {
        run_all(next(s, Some(cmds[0])).0, cmds.drop_first())
    }
}

/// After a reload the board ticks at the configured period and keeps its
/// mode; a board the settings switch off has no socket, and one they switch
/// on is asked to bind unless it already has a socket.
pub proof fn lemma_reload_applies_settings(s: Simulator, cfg: ImposterCfg, name: Seq<char>)
    ensures
        run_all(s, reload_spec(cfg, name)).period_ms == cfg.period_for(name),
        run_all(s, reload_spec(cfg, name)).mode == s.mode,
        !cfg.udp_for(name) ==> !run_all(s, reload_spec(cfg, name)).udp_open,
        cfg.udp_for(name) ==> run_all(s, reload_spec(cfg, name)).udp_open == s.udp_open,
        !cfg.tcp_for(name) ==> !run_all(s, reload_spec(cfg, name)).tcp_open,
        cfg.tcp_for(name) ==> run_all(s, reload_spec(cfg, name)).tcp_open == s.tcp_open,
        cfg.udp_for(name) && !s.udp_open ==> next(
            next(s, Some(Command::SetPeriod(cfg.period_for(name)))).0,
            Some(Command::SetUdp(true)),
        ).1 == Effect::OpenUdp,
{
    let cmds = reload_spec(cfg, name);
    let s1 = next(s, Some(cmds[0])).0;
    let s2 = next(s1, Some(cmds[1])).0;
    let s3 = next(s2, Some(cmds[2])).0;
    assert(cmds.drop_first()[0] == cmds[1]);
    assert(cmds.drop_first().drop_first()[0] == cmds[2]);
    assert(cmds.drop_first().drop_first().drop_first().len() == 0);
    assert(run_all(s3, cmds.drop_first().drop_first().drop_first()) == s3);
    assert(run_all(s2, cmds.drop_first().drop_first()) == s3);
    assert(run_all(s1, cmds.drop_first()) == s3);
    assert(run_all(s, cmds) == s3);
}

/// A board without a socket stays without one, and so sends nothing, until
/// it is told to enable UDP: no other message opens a socket.
pub proof fn lemma_silent_until_enabled(s: Simulator, cmds: Seq<Command>)
    requires
        !s.udp_open,
        forall|i: int| 0 <= i < cmds.len() ==> cmds[i] != Command::SetUdp(true),
    ensures
        !run_all(s, cmds).udp_open,
        forall|i: int| 0 <= i < cmds.len() ==> next(s, Some(cmds[i])).1 != Effect::OpenUdp,
    decreases cmds.len(),
{
    if cmds.len() > 0 {
        let s1 = next(s, Some(cmds[0])).0;
        assert forall|i: int| 0 <= i < cmds.drop_first().len() implies cmds.drop_first()[i]
            != Command::SetUdp(true) by {
            assert(cmds.drop_first()[i] == cmds[i + 1]);
        }
        lemma_silent_until_enabled(s1, cmds.drop_first());
    }
}

/// What the loop around the simulator feeds it: a control message (`None`:
/// the channel closed), or the outcome of a bind it asked for.
#[derive(Clone, Copy, Debug, PartialEq, Eq, Structural)]
pub enum SimInput {
    Message(Option<Command>),
    UdpBound(bool),
    TcpBound(bool),
}

/// The state after one input.
pub open spec fn apply(s: Simulator, input: SimInput) -> Simulator {
    match input {
        SimInput::Message(cmd) => next(s, cmd).0,
        SimInput::UdpBound(b) => udp_bound(s, b),
        SimInput::TcpBound(b) => tcp_bound(s, b),
    }
}

/// The state after each input in turn.
pub open spec fn feed(s: Simulator, inputs: Seq<SimInput>) -> Simulator
    decreases inputs.len(),
{
    if inputs.len() == 0 {
        s
    } else {
        apply(feed(s, inputs.drop_last()), inputs.last())
    }
}

/// The UDP setting after `inputs`: the last `SetUdp` message's value, or
/// `initial` when there was none.
pub open spec fn udp_setting(initial: bool, inputs: Seq<SimInput>) -> bool
    decreases inputs.len(),
{
    if inputs.len() == 0 {
        initial
    } else {
        match inputs.last() {
            SimInput::Message(Some(Command::SetUdp(b))) => b,
            _ => udp_setting(initial, inputs.drop_last()),
        }
    }
}

/// While UDP is set off, no socket is held and no bind is pending, so a
/// tick sends nothing (`on_tick` sends only with a socket): whatever
/// messages and bind reports come, in any order, a board with UDP off is
/// silent. From `Simulator::start` the precondition holds with `initial`
/// the board's UDP setting.
pub proof fn lemma_udp_off_sends_nothing(s: Simulator, initial: bool, inputs: Seq<SimInput>)
    requires
        (s.udp_open || s.udp_pending) ==> initial,
    ensures
        !udp_setting(initial, inputs) ==> !feed(s, inputs).udp_open && !feed(s, inputs).udp_pending,
        !udp_setting(initial, inputs) ==> !apply(feed(s, inputs), SimInput::UdpBound(true)).udp_open,
    decreases inputs.len(),
{
    if inputs.len() > 0 {
        lemma_udp_off_sends_nothing(s, initial, inputs.drop_last());
    }
    lemma_udp_state_follows_setting(s, initial, inputs);
}

proof fn lemma_udp_state_follows_setting(s: Simulator, initial: bool, inputs: Seq<SimInput>)
    requires
        (s.udp_open || s.udp_pending) ==> initial,
    ensures
        (feed(s, inputs).udp_open || feed(s, inputs).udp_pending) ==> udp_setting(initial, inputs),
    decreases inputs.len(),
{
    if inputs.len() > 0 {
        lemma_udp_state_follows_setting(s, initial, inputs.drop_last());
    }
}

/// A board started with UDP off, and never told to enable it, never binds
/// a socket and never sends, whatever else it is told or reported.
pub proof fn lemma_udp_disabled_board_is_silent(
    period_ms: u64,
    tcp_enabled: bool,
    mode: SimMode,
    inputs: Seq<SimInput>,
)
    requires
        forall|i: int|
            0 <= i < inputs.len() ==> #[trigger] inputs[i] != SimInput::Message(
                Some(Command::SetUdp(true)),
            ),
    ensures
        ({
            let s = Simulator {
                period_ms,
                udp_open: false,
                udp_pending: false,
                tcp_open: false,
                tcp_pending: tcp_enabled,
                mode,
            };
            !feed(s, inputs).udp_open
        }),
    decreases inputs.len(),
{
    let s = Simulator {
        period_ms,
        udp_open: false,
        udp_pending: false,
        tcp_open: false,
        tcp_pending: tcp_enabled,
        mode,
    };
    lemma_setting_stays_off(inputs);
    lemma_udp_off_sends_nothing(s, false, inputs);
}

proof fn lemma_setting_stays_off(inputs: Seq<SimInput>)
    requires
        forall|i: int|
            0 <= i < inputs.len() ==> #[trigger] inputs[i] != SimInput::Message(
                Some(Command::SetUdp(true)),
            ),
    ensures
        !udp_setting(false, inputs),
    decreases inputs.len(),
{
    if inputs.len() > 0 {
        let prefix = inputs.drop_last();
        assert forall|i: int| 0 <= i < prefix.len() implies #[trigger] prefix[i] != SimInput::Message(
            Some(Command::SetUdp(true)),
        ) by {
            assert(prefix[i] == inputs[i]);
        }
        lemma_setting_stays_off(prefix);
        assert(inputs[inputs.len() - 1] == inputs.last());
    }
}

} // verus!
