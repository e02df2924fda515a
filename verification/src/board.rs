use vstd::prelude::*;

use crate::imposter_cfg::ImposterCfg;
use crate::state::SimMode;

verus! {

/// A control message for a running board. The random step is the bit
/// pattern of an IEEE-754 double.
#[derive(Clone, Copy, Debug, PartialEq, Eq, Structural)]
pub enum Command {
    SetPeriod(u64),
    SetUdp(bool),
    SetTcp(bool),
    SetMode(SimMode),
    SetRandomStep(u64),
}

/// The messages a running board is sent when the settings are reloaded:
/// its period, then its UDP switch, then its TCP switch.
pub open spec fn reload_spec(cfg: ImposterCfg, name: Seq<char>) -> Seq<Command> {
    seq![
        Command::SetPeriod(cfg.period_for(name)),
        Command::SetUdp(cfg.udp_for(name)),
        Command::SetTcp(cfg.tcp_for(name)),
    ]
}

/// The messages that bring board `board_name` in line with reloaded settings.
pub fn reload_commands(cfg: &ImposterCfg, board_name: &str) -> (cmds: Vec<Command>)
    ensures
        cmds@ == reload_spec(*cfg, board_name@),
{
    let mut cmds: Vec<Command> = Vec::new();
    cmds.push(Command::SetPeriod(cfg.period_ms(board_name)));
    cmds.push(Command::SetUdp(cfg.udp_enabled(board_name)));
    cmds.push(Command::SetTcp(cfg.tcp_enabled(board_name)));
    assert(cmds@ =~= reload_spec(*cfg, board_name@));
    cmds
}

} // verus!
