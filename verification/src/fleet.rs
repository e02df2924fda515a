use vstd::prelude::*;
use vstd::string::*;

use crate::config::{Board, Config, GeneralInfo, Measurement, Packet, PacketType};
use crate::imposter_cfg::ImposterCfg;
use crate::names::{NameMap, lemma_names_are_keys};
use crate::state::{MeasurementSpec, SimMode};
use crate::text::{octet_key, octet_key_spec};

verus! {

broadcast use vstd::string::group_string_axioms;

/// Why a fleet cannot be launched.
#[derive(Clone, Copy, Debug, PartialEq, Eq, Structural)]
pub enum FleetError {
    /// The general info names no `backend` address.
    MissingBackend,
    /// The general info names no `UDP` port.
    MissingUdpPort,
}

impl FleetError {
    /// The message that reports the error.
    pub fn message(&self) -> (m: String)
        ensures
            m@ == (match *self {
                FleetError::MissingBackend => "missing 'backend' in addresses"@,
                FleetError::MissingUdpPort => "missing 'UDP' in ports"@,
            }),
    {
        match self {
            FleetError::MissingBackend => "missing 'backend' in addresses".to_string(),
            FleetError::MissingUdpPort => "missing 'UDP' in ports".to_string(),
        }
    }
}

/// The number of values an enum measurement can take (0 when it lists none).
pub open spec fn enum_count_of(m: Measurement) -> nat {
    match m.enum_values {
        Some(v) => v@.len(),
        None => 0,
    }
}

/// The bounds a measurement is simulated within: its safe range, else its
/// warning range.
pub open spec fn range_of(m: Measurement) -> Option<[u64; 2]> {
    match m.safe_range {
        Some(r) => Some(r),
        None => m.warning_range,
    }
}

/// `spec` is what the simulator is told of measurement `m`.
pub open spec fn spec_of(spec: MeasurementSpec, m: Measurement, random_step: u64) -> bool {
    &&& spec.id@ == m.id@
    &&& spec.kind == m.kind
    &&& spec.range == range_of(m)
    &&& spec.enum_count == enum_count_of(m)
    &&& spec.random_step == random_step
}

/// `specs` describe `ms`, one for one and in order.
pub open spec fn specs_of(specs: Seq<MeasurementSpec>, ms: Seq<Measurement>, random_step: u64) -> bool {
    &&& specs.len() == ms.len()
    &&& forall|i: int| 0 <= i < ms.len() ==> spec_of(#[trigger] specs[i], ms[i], random_step)
}

/// What the simulator needs of each of a board's measurements.
pub fn measurement_specs(board: &Board, random_step: u64) -> (specs: Vec<MeasurementSpec>)
    ensures
        specs_of(specs@, board.measurements@, random_step),
{
    let mut specs: Vec<MeasurementSpec> = Vec::new();
    let n = board.measurements.len();
    for i in 0..n
        invariant
            n == board.measurements@.len(),
            specs_of(specs@, board.measurements@.take(i as int), random_step),
    {
        let m = &board.measurements[i];
        let range = match m.safe_range {
            Some(r) => Some(r),
            None => m.warning_range,
        };
        let enum_count = match &m.enum_values {
            Some(v) => v.len(),
            None => 0,
        };
        specs.push(
            MeasurementSpec { id: m.id.clone(), kind: m.kind, range, enum_count, random_step },
        );
    }
    assert(board.measurements@.take(n as int) =~= board.measurements@);
    specs
}

/// The data (board to backend) packets among `ps`, in order.
pub open spec fn data_only(ps: Seq<Packet>) -> Seq<Packet>
    decreases ps.len(),
{
    if ps.len() == 0 {
        Seq::empty()
    } else if ps.last().kind == PacketType::Data {
        data_only(ps.drop_last()).push(ps.last())
    } else {
        data_only(ps.drop_last())
    }
}

/// The ids of the order (backend to board) packets among `ps`, in order.
pub open spec fn order_ids(ps: Seq<Packet>) -> Seq<u32>
    decreases ps.len(),
{
    if ps.len() == 0 {
        Seq::empty()
    } else if ps.last().kind == PacketType::Order {
        order_ids(ps.drop_last()).push(ps.last().id)
    } else {
        order_ids(ps.drop_last())
    }
}

/// The ids of the board's order packets, in the order it lists them.
pub fn order_packets(board: &Board) -> (ids: Vec<u32>)
    ensures
        ids@ == order_ids(board.packets@),
        forall|id: u32|
            ids@.contains(id) <==> exists|i: int|
                0 <= i < board.packets@.len() && (#[trigger] board.packets@[i]).kind
                    == PacketType::Order && board.packets@[i].id == id,
{
    let mut ids: Vec<u32> = Vec::new();
    let n = board.packets.len();
    for i in 0..n
        invariant
            n == board.packets@.len(),
            ids@ == order_ids(board.packets@.take(i as int)),
    {
        assert(board.packets@.take(i + 1).drop_last() =~= board.packets@.take(i as int));
        if board.packets[i].kind == PacketType::Order {
            ids.push(board.packets[i].id);
        }
    }
    assert(board.packets@.take(n as int) =~= board.packets@);
    proof {
        lemma_order_ids_are_the_orders(board.packets@);
        assert forall|id: u32|
            (exists|i: int|
                0 <= i < board.packets@.len() && (#[trigger] board.packets@[i]).kind
                    == PacketType::Order && board.packets@[i].id == id) implies ids@.contains(id) by {
            let i = choose|i: int|
                0 <= i < board.packets@.len() && (#[trigger] board.packets@[i]).kind
                    == PacketType::Order && board.packets@[i].id == id;
            assert(order_ids(board.packets@).contains(board.packets@[i].id));
        }
    }
    ids
}

/// The board's data packets, in the order it lists them; orders are left out.
pub fn data_packets(board: &Board) -> (ps: Vec<&Packet>)
    ensures
        ps@.map_values(|p: &Packet| *p) == data_only(board.packets@),
        ps@.map_values(|p: &Packet| *p) == board.packets@.filter(
            |p: Packet| p.kind == PacketType::Data,
        ),
{
    let mut ps: Vec<&Packet> = Vec::new();
    let n = board.packets.len();
    for i in 0..n
        invariant
            n == board.packets@.len(),
            ps@.map_values(|p: &Packet| *p) == data_only(board.packets@.take(i as int)),
    {
        let p = &board.packets[i];
        assert(board.packets@.take(i + 1).drop_last() =~= board.packets@.take(i as int));
        let ghost before = ps@;
        if p.kind == PacketType::Data {
            ps.push(p);
            assert(ps@.map_values(|p: &Packet| *p) =~= before.map_values(|p: &Packet| *p).push(*p));
        }
    }
    assert(board.packets@.take(n as int) =~= board.packets@);
    proof {
        lemma_data_only_keeps_every_data_packet(board.packets@);
    }
    ps
}

/// A board's data packets are exactly its packets of kind `Data`, in the
/// order it lists them: every one of them is there, and nothing else is, so
/// there are as many as the board lists.
pub proof fn lemma_data_only_keeps_every_data_packet(ps: Seq<Packet>)
    ensures
        data_only(ps) == ps.filter(|p: Packet| p.kind == PacketType::Data),
        data_only(ps).len() == ps.filter(|p: Packet| p.kind == PacketType::Data).len(),
        forall|i: int|
            0 <= i < ps.len() && ps[i].kind == PacketType::Data ==> #[trigger] data_only(
                ps,
            ).contains(ps[i]),
        forall|j: int|
            0 <= j < data_only(ps).len() ==> (#[trigger] data_only(ps)[j]).kind == PacketType::Data
                && ps.contains(data_only(ps)[j]),
    decreases ps.len(),
{
    broadcast use vstd::seq_lib::group_filter_ensures, Seq::lemma_filter_contains_rev;

    if ps.len() == 0 {
        reveal(Seq::filter);
    } else {
        let q = ps.drop_last();
        lemma_data_only_keeps_every_data_packet(q);
        assert(ps =~= q.push(ps.last()));
        q.lemma_filter_push(ps.last(), |p: Packet| p.kind == PacketType::Data);
    }
}

/// An id is among a board's order ids exactly when one of its packets is an
/// order with that id; the ids come in the order the board lists its orders.
pub proof fn lemma_order_ids_are_the_orders(ps: Seq<Packet>)
    ensures
        order_ids(ps) == ps.filter(|p: Packet| p.kind == PacketType::Order).map_values(
            |p: Packet| p.id,
        ),
        forall|i: int|
            0 <= i < ps.len() && ps[i].kind == PacketType::Order ==> #[trigger] order_ids(
                ps,
            ).contains(ps[i].id),
        forall|id: u32|
            #[trigger] order_ids(ps).contains(id) ==> exists|i: int|
                0 <= i < ps.len() && ps[i].kind == PacketType::Order && ps[i].id == id,
    decreases ps.len(),
{
    if ps.len() == 0 {
        reveal(Seq::filter);
        assert(order_ids(ps) =~= ps.filter(|p: Packet| p.kind == PacketType::Order).map_values(
            |p: Packet| p.id,
        ));
    } else {
        let q = ps.drop_last();
        let last = ps.last();
        let o = order_ids(ps);
        let oq = order_ids(q);
        lemma_order_ids_are_the_orders(q);
        assert(ps =~= q.push(last));
        q.lemma_filter_push(last, |p: Packet| p.kind == PacketType::Order);
        let fq = q.filter(|p: Packet| p.kind == PacketType::Order);
        if last.kind == PacketType::Order {
            assert(fq.push(last).map_values(|p: Packet| p.id) =~= fq.map_values(|p: Packet| p.id).push(
                last.id,
            ));
        }
        assert forall|i: int|
            0 <= i < ps.len() && ps[i].kind == PacketType::Order implies #[trigger] o.contains(
                ps[i].id,
            ) by {
            if i == ps.len() - 1 {
                assert(o[o.len() - 1] == last.id);
            } else {
                assert(q[i] == ps[i]);
                assert(oq.contains(q[i].id));
                let j = choose|j: int| 0 <= j < oq.len() && oq[j] == q[i].id;
                assert(o[j] == oq[j]);
            }
        }
        assert forall|id: u32| #[trigger] o.contains(id) implies exists|i: int|
            0 <= i < ps.len() && ps[i].kind == PacketType::Order && ps[i].id == id by {
            let j = choose|j: int| 0 <= j < o.len() && o[j] == id;
            if last.kind == PacketType::Order && j == o.len() - 1 {
                assert(ps[ps.len() - 1].id == id);
            } else {
                assert(oq[j] == id);
                assert(oq.contains(id));
                let i = choose|i: int| 0 <= i < q.len() && q[i].kind == PacketType::Order && q[i].id == id;
                assert(ps[i] == q[i]);
            }
        }
    }
}

/// Where data packets go: the `backend` address and the `UDP` port.
pub open spec fn backend_spec(info: GeneralInfo) -> Result<(Seq<char>, u16), FleetError> {
    if !info.addresses@.contains_key("backend"@) {
        Err(FleetError::MissingBackend)
    } else if !info.ports@.contains_key("UDP"@) {
        Err(FleetError::MissingUdpPort)
    } else {
        Ok((info.addresses@["backend"@]@, info.ports@["UDP"@]))
    }
}

/// The backend address and UDP port that data packets are sent to.
pub fn backend_endpoint(info: &GeneralInfo) -> (r: Result<(String, u16), FleetError>)
    ensures
        match (r, backend_spec(*info)) {
            (Ok((addr, port)), Ok((want_addr, want_port))) => addr@ == want_addr && port
                == want_port,
            (Err(e), Err(want)) => e == want,
            _ => false,
        },
{
    let addr = match info.addresses.get("backend") {
        Some(a) => a,
        None => return Err(FleetError::MissingBackend),
    };
    let port = match info.ports.get("UDP") {
        Some(p) => *p,
        None => return Err(FleetError::MissingUdpPort),
    };
    Ok((addr.clone(), port))
}

/// The views of a list of names.
pub open spec fn name_views(v: Seq<String>) -> Seq<Seq<char>> {
    v.map_values(|s: String| s@)
}

/// The launch-order key of board `name`: the last byte of its address.
pub open spec fn board_key(boards: Map<Seq<char>, Board>, name: Seq<char>) -> u8 {
    octet_key_spec(boards[name].board_ip@)
}

/// `order` holds each board name once and is sorted by the last byte of
/// the boards' addresses (boards with equal keys may come in any order).
pub open spec fn is_launch_order(order: Seq<Seq<char>>, boards: NameMap<Board>) -> bool {
    &&& order.to_multiset() == boards.names().to_multiset()
    &&& forall|i: int, j: int|
        0 <= i < j < order.len() ==> board_key(boards@, #[trigger] order[i]) <= board_key(
            boards@,
            #[trigger] order[j],
        )
}

/// `order` with `name` put before the first name whose key is larger than
/// its own (at the end when there is none).
pub open spec fn place(order: Seq<Seq<char>>, name: Seq<char>, boards: Map<Seq<char>, Board>) -> Seq<
    Seq<char>,
>
    decreases order.len(),
{
    if order.len() == 0 {
        seq![name]
    } else if board_key(boards, order[0]) > board_key(boards, name) {
        seq![name] + order
    } else {
        seq![order[0]] + place(order.drop_first(), name, boards)
    }
}

/// The names, put in launch order one at a time: sorted by key, and names
/// with equal keys in the order they were given.
pub open spec fn ordered(names: Seq<Seq<char>>, boards: Map<Seq<char>, Board>) -> Seq<Seq<char>>
    decreases names.len(),
{
    if names.len() == 0 {
        Seq::empty()
    } else {
        place(ordered(names.drop_last(), boards), names.last(), boards)
    }
}

proof fn lemma_place_is_insert(
    order: Seq<Seq<char>>,
    name: Seq<char>,
    boards: Map<Seq<char>, Board>,
    pos: int,
)
    requires
        0 <= pos <= order.len(),
        forall|j: int| 0 <= j < pos ==> board_key(boards, #[trigger] order[j]) <= board_key(boards, name),
        pos == order.len() || board_key(boards, order[pos]) > board_key(boards, name),
    ensures
        place(order, name, boards) =~= order.insert(pos, name),
    decreases order.len(),
{
    if order.len() > 0 && pos > 0 {
        assert forall|j: int| 0 <= j < pos - 1 implies board_key(
            boards,
            #[trigger] order.drop_first()[j],
        ) <= board_key(boards, name) by {
            assert(order.drop_first()[j] == order[j + 1]);
        }
        if pos < order.len() {
            assert(order.drop_first()[pos - 1] == order[pos]);
        }
        lemma_place_is_insert(order.drop_first(), name, boards, pos - 1);
        assert(seq![order[0]] + order.drop_first().insert(pos - 1, name) =~= order.insert(pos, name));
    }
}

/// The board names, sorted by the last byte of each board's address (read
/// as a number; 0 where it is not one); boards with equal keys keep the
/// order in which the fleet lists them.
pub fn launch_order(boards: &NameMap<Board>) -> (order: Vec<String>)
    ensures
        is_launch_order(name_views(order@), *boards),
        name_views(order@) == ordered(boards.names(), boards@),
{
    let n = boards.len();
    let mut order: Vec<String> = Vec::new();
    let mut keys: Vec<u8> = Vec::new();
    assert(name_views(order@) =~= boards.names().take(0));
    for i in 0..n
        invariant
            n == boards.names().len(),
            order@.len() == keys@.len(),
            forall|j: int| 0 <= j < keys@.len() ==> #[trigger] keys@[j] == board_key(boards@, order@[j]@),
            forall|a: int, b: int| 0 <= a < b < keys@.len() ==> #[trigger] keys@[a] <= #[trigger] keys@[b],
            name_views(order@).to_multiset() == boards.names().take(i as int).to_multiset(),
            name_views(order@) == ordered(boards.names().take(i as int), boards@),
    {
        let name = boards.name_at(i);
        let board = boards.value_at(i);
        let k = octet_key(board.board_ip.as_str());
        let mut pos: usize = 0;
        while pos < keys.len() && keys[pos] <= k
            invariant
                pos <= keys@.len(),
                forall|j: int| 0 <= j < pos ==> keys@[j] <= k,
            decreases keys@.len() - pos,
        {
            pos += 1;
        }
        let ghost old_order = order@;
        let ghost old_keys = keys@;
        let copy = name.clone();
        order.insert(pos, copy);
        keys.insert(pos, k);
        proof {
            assert(name_views(order@) =~= name_views(old_order).insert(pos as int, name@));
            assert(boards.names().take(i + 1) =~= boards.names().take(i as int).push(name@));
            vstd::seq_lib::to_multiset_insert(name_views(old_order), pos as int, name@);
            vstd::seq_lib::to_multiset_build(boards.names().take(i as int), name@);
            assert forall|j: int| 0 <= j < pos implies board_key(
                boards@,
                #[trigger] name_views(old_order)[j],
            ) <= board_key(boards@, name@) by {
                assert(old_keys[j] <= k);
            }
            if pos < old_keys.len() {
                assert(old_keys[pos as int] > k);
            }
            lemma_place_is_insert(name_views(old_order), name@, boards@, pos as int);
            assert(boards.names().take(i + 1).drop_last() =~= boards.names().take(i as int));
            assert forall|j: int| 0 <= j < keys@.len() implies #[trigger] keys@[j] == board_key(
                boards@,
                order@[j]@,
            ) by {
                if j < pos {
                    assert(keys@[j] == old_keys[j]);
                    assert(order@[j] == old_order[j]);
                } else if j > pos {
                    assert(keys@[j] == old_keys[j - 1]);
                    assert(order@[j] == old_order[j - 1]);
                }
            }
            assert forall|a: int, b: int| 0 <= a < b < keys@.len() implies #[trigger] keys@[a]
                <= #[trigger] keys@[b] by {
                if pos < old_keys.len() && a <= pos && pos < b {
                    assert(old_keys[pos as int] > k);
                }
                if a > pos {
                    assert(keys@[a] == old_keys[a - 1]);
                }
                if b > pos {
                    assert(keys@[b] == old_keys[b - 1]);
                }
                if a < pos {
                    assert(keys@[a] == old_keys[a]);
                }
                if b < pos {
                    assert(keys@[b] == old_keys[b]);
                }
            }
        }
    }
    proof {
        assert(boards.names().take(n as int) =~= boards.names());
        assert forall|a: int, b: int| 0 <= a < b < order@.len() implies board_key(
            boards@,
            #[trigger] name_views(order@)[a],
        ) <= board_key(boards@, #[trigger] name_views(order@)[b]) by {
            assert(keys@[a] <= keys@[b]);
        }
    }
    order
}

/// The names in `names` that `known` does not hold, in order.
pub open spec fn unknown_names(names: Seq<Seq<char>>, known: Set<Seq<char>>) -> Seq<Seq<char>>
    decreases names.len(),
{
    if names.len() == 0 {
        Seq::empty()
    } else if known.contains(names.last()) {
        unknown_names(names.drop_last(), known)
    } else {
        unknown_names(names.drop_last(), known).push(names.last())
    }
}

/// The boards the simulator's settings name but the fleet does not have.
pub fn unknown_boards(config: &Config, cfg: &ImposterCfg) -> (unknown: Vec<String>)
    ensures
        name_views(unknown@) == unknown_names(cfg.boards.names(), config.boards@.dom()),
{
    let n = cfg.boards.len();
    let mut unknown: Vec<String> = Vec::new();
    for i in 0..n
        invariant
            n == cfg.boards.names().len(),
            name_views(unknown@) == unknown_names(cfg.boards.names().take(i as int), config.boards@.dom()),
    {
        let name = cfg.boards.name_at(i);
        assert(cfg.boards.names().take(i + 1).drop_last() =~= cfg.boards.names().take(i as int));
        let ghost before = unknown@;
        if !config.boards.contains_key(name.as_str()) {
            unknown.push(name.clone());
            assert(name_views(unknown@) =~= name_views(before).push(name@));
        }
    }
    assert(cfg.boards.names().take(n as int) =~= cfg.boards.names());
    unknown
}

/// A copy of a list of strings.
fn clone_strings(v: &Vec<String>) -> (c: Vec<String>)
    ensures
        name_views(c@) == name_views(v@),
{
    let mut c: Vec<String> = Vec::new();
    let n = v.len();
    for i in 0..n
        invariant
            n == v@.len(),
            name_views(c@) == name_views(v@.take(i as int)),
    {
        let ghost before = c@;
        c.push(v[i].clone());
        assert(name_views(c@) =~= name_views(before).push(v@[i as int]@));
        assert(v@.take(i + 1) =~= v@.take(i as int).push(v@[i as int]));
        assert(name_views(v@.take(i + 1)) =~= name_views(v@.take(i as int)).push(v@[i as int]@));
    }
    assert(v@.take(n as int) =~= v@);
    c
}

/// `dp` lists the data packets among `ps`, in order, by id and variables.
pub open spec fn data_packets_of(dp: Seq<(u32, Vec<String>)>, ps: Seq<Packet>) -> bool {
    let d = data_only(ps);
    &&& dp.len() == d.len()
    &&& forall|i: int|
        0 <= i < d.len() ==> (#[trigger] dp[i]).0 == d[i].id && name_views(dp[i].1@) == name_views(
            d[i].variables@,
        )
}

/// Everything needed to start one board.
pub struct BoardLaunch {
    pub name: String,
    pub board_ip: String,
    pub board_id: u32,
    pub period_ms: u64,
    pub udp_enabled: bool,
    pub tcp_enabled: bool,
    pub specs: Vec<MeasurementSpec>,
    /// Each data packet's id and the measurement ids it carries.
    pub data_packets: Vec<(u32, Vec<String>)>,
    /// The ids of the orders the board accepts over TCP.
    pub order_packets: Vec<u32>,
    pub mode: SimMode,
    pub measurement_count: usize,
    pub packet_count: usize,
}

/// `bl` starts board `name`, described by `board`, under settings `cfg`.
pub open spec fn launches(bl: BoardLaunch, name: Seq<char>, board: Board, cfg: ImposterCfg) -> bool {
    &&& bl.name@ == name
    &&& bl.board_ip@ == board.board_ip@
    &&& bl.board_id == board.board_id
    &&& bl.period_ms == cfg.period_for(name)
    &&& bl.udp_enabled == cfg.udp_for(name)
    &&& bl.tcp_enabled == cfg.tcp_for(name)
    &&& specs_of(bl.specs@, board.measurements@, cfg.random_step)
    &&& data_packets_of(bl.data_packets@, board.packets@)
    &&& bl.order_packets@ == order_ids(board.packets@)
    &&& bl.mode == cfg.mode
    &&& bl.measurement_count == board.measurements@.len()
    &&& bl.packet_count == board.packets@.len()
}

/// What one board is started with.
pub fn board_launch(name: &String, board: &Board, cfg: &ImposterCfg) -> (bl: BoardLaunch)
    ensures
        launches(bl, name@, *board, *cfg),
{
    let packets = data_packets(board);
    let mut dp: Vec<(u32, Vec<String>)> = Vec::new();
    let n = packets.len();
    for i in 0..n
        invariant
            n == packets@.len(),
            packets@.map_values(|p: &Packet| *p) == data_only(board.packets@),
            dp@.len() == i,
            forall|j: int|
                0 <= j < i ==> (#[trigger] dp@[j]).0 == data_only(board.packets@)[j].id
                    && name_views(dp@[j].1@) == name_views(data_only(board.packets@)[j].variables@),
    {
        let p = packets[i];
        assert(*p == packets@.map_values(|p: &Packet| *p)[i as int]);
        dp.push((p.id, clone_strings(&p.variables)));
    }
    BoardLaunch {
        name: name.clone(),
        board_ip: board.board_ip.clone(),
        board_id: board.board_id,
        period_ms: cfg.period_ms(name.as_str()),
        udp_enabled: cfg.udp_enabled(name.as_str()),
        tcp_enabled: cfg.tcp_enabled(name.as_str()),
        specs: measurement_specs(board, cfg.random_step),
        data_packets: dp,
        order_packets: order_packets(board),
        mode: cfg.mode,
        measurement_count: board.measurements.len(),
        packet_count: board.packets.len(),
    }
}

/// A fleet ready to start: where packets go, the port boards take orders
/// on, and each board in start order.
pub struct LaunchPlan {
    pub backend_addr: String,
    pub backend_port: u16,
    pub tcp_port: Option<u16>,
    pub boards: Vec<BoardLaunch>,
}

/// The port boards listen on for orders: the `TCP_SERVER` port, if given.
pub open spec fn tcp_port_spec(info: GeneralInfo) -> Option<u16> {
    if info.ports@.contains_key("TCP_SERVER"@) {
        Some(info.ports@["TCP_SERVER"@])
    } else {
        None
    }
}

/// The names of the boards a plan starts, in order.
pub open spec fn plan_names(boards: Seq<BoardLaunch>) -> Seq<Seq<char>> {
    boards.map_values(|b: BoardLaunch| b.name@)
}

/// `plan` starts every board of `config` under `cfg`: in launch order, each
/// with its settings resolved, and with the fleet's order port.
pub open spec fn plan_matches(plan: LaunchPlan, config: Config, cfg: ImposterCfg) -> bool {
    &&& plan.tcp_port == tcp_port_spec(config.general_info)
    &&& is_launch_order(plan_names(plan.boards@), config.boards)
    &&& plan_names(plan.boards@) == ordered(config.boards.names(), config.boards@)
    &&& forall|i: int|
        0 <= i < plan.boards@.len() ==> launches(
            #[trigger] plan.boards@[i],
            plan.boards@[i].name@,
            config.boards@[plan.boards@[i].name@],
            cfg,
        )
}

/// Plans the start of the fleet: every board, ordered by the last byte of
/// its address, with its settings resolved; fails when the backend address
/// or the UDP port is missing.
pub fn launch(config: &Config, cfg: &ImposterCfg) -> (r: Result<LaunchPlan, FleetError>)
    ensures
        match r {
            Ok(plan) => {
                &&& backend_spec(config.general_info) == Ok::<(Seq<char>, u16), FleetError>(
                    (plan.backend_addr@, plan.backend_port),
                )
                &&& plan_matches(plan, *config, *cfg)
            },
            Err(e) => backend_spec(config.general_info) == Err::<(Seq<char>, u16), FleetError>(e),
        },
{
    let order = launch_order(&config.boards);
    let (backend_addr, backend_port) = match backend_endpoint(&config.general_info) {
        Ok(endpoint) => endpoint,
        Err(e) => return Err(e),
    };
    let mut boards: Vec<BoardLaunch> = Vec::new();
    let n = order.len();
    for i in 0..n
        invariant
            n == order@.len(),
            is_launch_order(name_views(order@), config.boards),
            name_views(order@) == ordered(config.boards.names(), config.boards@),
            boards@.len() == i,
            forall|j: int| 0 <= j < i ==> (#[trigger] boards@[j]).name@ == order@[j]@,
            forall|j: int|
                0 <= j < i ==> launches(
                    #[trigger] boards@[j],
                    boards@[j].name@,
                    config.boards@[boards@[j].name@],
                    *cfg,
                ),
    {
        let name = &order[i];
        proof {
            let views = name_views(order@);
            assert(views[i as int] == name@);
            vstd::seq_lib::to_multiset_contains(views, name@);
            vstd::seq_lib::to_multiset_contains(config.boards.names(), name@);
            lemma_names_are_keys(config.boards, name@);
        }
        match config.boards.get(name.as_str()) {
            Some(board) => {
                boards.push(board_launch(name, board, cfg));
            },
            None => {
                // every name in the order is a board of the fleet
                assert(false);
            },
        }
    }
    assert(plan_names(boards@) =~= name_views(order@));
    let tcp_port = match config.general_info.ports.get("TCP_SERVER") {
        Some(p) => Some(*p),
        None => None,
    };
    Ok(LaunchPlan { backend_addr, backend_port, tcp_port, boards })
}

/// Settings for boards the fleet does not have change nothing: two settings
/// that agree on every fleet board and on the fleet-wide values give plans
/// that start the same boards, in the same order, in the same way.
pub proof fn lemma_unknown_settings_ignored(
    config: Config,
    c1: ImposterCfg,
    c2: ImposterCfg,
    p1: LaunchPlan,
    p2: LaunchPlan,
)
    requires
        plan_matches(p1, config, c1),
        plan_matches(p2, config, c2),
        forall|n: Seq<char>| #[trigger] config.boards@.contains_key(n) ==> c2.board(n) == c1.board(n),
        c2.default_period_ms == c1.default_period_ms,
        c2.udp == c1.udp,
        c2.tcp == c1.tcp,
        c2.default_udp == c1.default_udp,
        c2.default_tcp == c1.default_tcp,
        c2.mode == c1.mode,
        c2.random_step == c1.random_step,
    ensures
        plan_names(p2.boards@) == plan_names(p1.boards@),
        p2.tcp_port == p1.tcp_port,
        forall|i: int|
            0 <= i < p2.boards@.len() ==> launches(
                #[trigger] p2.boards@[i],
                p2.boards@[i].name@,
                config.boards@[p2.boards@[i].name@],
                c1,
            ),
{
    assert forall|i: int| 0 <= i < p2.boards@.len() implies launches(
        #[trigger] p2.boards@[i],
        p2.boards@[i].name@,
        config.boards@[p2.boards@[i].name@],
        c1,
    ) by {
        let n = p2.boards@[i].name@;
        let names = plan_names(p2.boards@);
        assert(names[i] == n);
        vstd::seq_lib::to_multiset_contains(names, n);
        vstd::seq_lib::to_multiset_contains(config.boards.names(), n);
        lemma_names_are_keys(config.boards, n);
        assert(c2.board(n) == c1.board(n));
    }
}

} // verus!
