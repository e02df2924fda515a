use vstd::prelude::*;

use crate::names::NameMap;
use crate::state::SimMode;

verus! {

/// Default for the boolean switches that a configuration file may omit.
pub fn default_true() -> (b: bool)
    ensures
        b,
{
    true
}

/// Per-board settings; each one left out falls back to the fleet default.
#[derive(Debug)]
pub struct BoardCfg {
    pub period_ms: Option<u64>,
    pub udp: Option<bool>,
    pub tcp: Option<bool>,
}

/// The simulator's own settings.
///
/// `udp` and `tcp` are fleet-wide kill-switches: when set they override
/// every board. `default_udp` and `default_tcp` apply to boards that say
/// nothing themselves. `random_step` is the bit pattern of an IEEE-754
/// double: the fraction of a range a value may move in one tick.
pub struct ImposterCfg {
    pub default_period_ms: u64,
    pub udp: Option<bool>,
    pub tcp: Option<bool>,
    pub default_udp: bool,
    pub default_tcp: bool,
    pub verbose: bool,
    pub mode: SimMode,
    pub random_step: u64,
    pub boards: NameMap<BoardCfg>,
}

impl ImposterCfg {
    /// The settings given for `name`, if any.
    pub open spec fn board(self, name: Seq<char>) -> Option<BoardCfg> {
        if self.boards@.contains_key(name) {
            Some(self.boards@[name])
        } else {
            None
        }
    }

    /// The tick period of board `name`: its own, else the default.
    pub open spec fn period_for(self, name: Seq<char>) -> u64 {
        match self.board(name) {
            Some(b) => match b.period_ms {
                Some(p) => p,
                None => self.default_period_ms,
            },
            None => self.default_period_ms,
        }
    }

    /// Whether board `name` streams over UDP: the kill-switch if set, else
    /// the board's own choice, else the default.
    pub open spec fn udp_for(self, name: Seq<char>) -> bool {
        match self.udp {
            Some(g) => g,
            None => match self.board(name) {
                Some(b) => match b.udp {
                    Some(u) => u,
                    None => self.default_udp,
                },
                None => self.default_udp,
            },
        }
    }

    /// Whether board `name` serves TCP, resolved as for UDP.
    pub open spec fn tcp_for(self, name: Seq<char>) -> bool {
        match self.tcp {
            Some(g) => g,
            None => match self.board(name) {
                Some(b) => match b.tcp {
                    Some(t) => t,
                    None => self.default_tcp,
                },
                None => self.default_tcp,
            },
        }
    }

    /// The tick period of the named board, in milliseconds.
    pub fn period_ms(&self, board_name: &str) -> (p: u64)
        ensures
            p == self.period_for(board_name@),
            self.boards@.contains_key(board_name@) && self.boards@[board_name@].period_ms is Some
                ==> p == self.boards@[board_name@].period_ms->0,
            !self.boards@.contains_key(board_name@) || self.boards@[board_name@].period_ms is None
                ==> p == self.default_period_ms,
    {
        match self.boards.get(board_name) {
            Some(b) => match b.period_ms {
                Some(p) => p,
                None => self.default_period_ms,
            },
            None => self.default_period_ms,
        }
    }

    /// Whether the named board streams over UDP.
    pub fn udp_enabled(&self, board_name: &str) -> (e: bool)
        ensures
            e == self.udp_for(board_name@),
    {
        if let Some(global) = self.udp {
            return global;
        }
        match self.boards.get(board_name) {
            Some(b) => match b.udp {
                Some(u) => u,
                None => self.default_udp,
            },
            None => self.default_udp,
        }
    }

    /// Whether the named board serves TCP.
    pub fn tcp_enabled(&self, board_name: &str) -> (e: bool)
        ensures
            e == self.tcp_for(board_name@),
    {
        if let Some(global) = self.tcp {
            return global;
        }
        match self.boards.get(board_name) {
            Some(b) => match b.tcp {
                Some(t) => t,
                None => self.default_tcp,
            },
            None => self.default_tcp,
        }
    }
}

/// A fleet-wide switch, when set, decides for every board, whatever the
/// board's own settings and the defaults say.
pub proof fn lemma_kill_switch_overrides(cfg: ImposterCfg, name: Seq<char>)
    ensures
        cfg.udp matches Some(g) ==> cfg.udp_for(name) == g,
        cfg.tcp matches Some(g) ==> cfg.tcp_for(name) == g,
{
}

/// Without a fleet-wide switch, a board's own setting wins over the default.
pub proof fn lemma_board_setting_wins(cfg: ImposterCfg, name: Seq<char>)
    requires
        cfg.boards@.contains_key(name),
    ensures
        cfg.boards@[name].period_ms matches Some(p) ==> cfg.period_for(name) == p,
        cfg.udp is None && cfg.boards@[name].udp is Some ==> cfg.udp_for(name)
            == cfg.boards@[name].udp->0,
        cfg.tcp is None && cfg.boards@[name].tcp is Some ==> cfg.tcp_for(name)
            == cfg.boards@[name].tcp->0,
{
}

/// A board that the settings do not name, or that names nothing itself,
/// gets the defaults (the kill-switches still apply).
pub proof fn lemma_defaults_fill_in(cfg: ImposterCfg, name: Seq<char>)
    requires
        !cfg.boards@.contains_key(name) || (cfg.boards@[name].period_ms is None
            && cfg.boards@[name].udp is None && cfg.boards@[name].tcp is None),
    ensures
        cfg.period_for(name) == cfg.default_period_ms,
        cfg.udp is None ==> cfg.udp_for(name) == cfg.default_udp,
        cfg.tcp is None ==> cfg.tcp_for(name) == cfg.default_tcp,
{
}

/// Each setting falls back on its own: a board that gives no period of its
/// own (or is not named at all) ticks at the default period, whatever it says
/// of UDP and TCP; without a kill-switch, a board that gives no UDP choice
/// gets the UDP default whatever its period and TCP choice, and likewise for
/// TCP.
pub proof fn lemma_each_setting_falls_back_alone(cfg: ImposterCfg, name: Seq<char>)
    ensures
        !cfg.boards@.contains_key(name) || cfg.boards@[name].period_ms is None
            ==> cfg.period_for(name) == cfg.default_period_ms,
        cfg.udp is None && (!cfg.boards@.contains_key(name) || cfg.boards@[name].udp is None)
            ==> cfg.udp_for(name) == cfg.default_udp,
        cfg.tcp is None && (!cfg.boards@.contains_key(name) || cfg.boards@[name].tcp is None)
            ==> cfg.tcp_for(name) == cfg.default_tcp,
{
}

} // verus!
