use imposter::board::{reload_commands, Command};
use imposter::config::{
    assemble_board, concat_chunks, Board, BoardFile, Config, GeneralInfo, Measurement,
    MeasurementType, Packet, PacketType,
};
use imposter::fleet::{backend_endpoint, launch, launch_order, unknown_boards, FleetError};
use imposter::imposter_cfg::{default_true, BoardCfg, ImposterCfg};
use imposter::names::NameMap;
use imposter::simulator::{apply_random_step, Effect, Simulator, TickPlan};
use imposter::watcher::{watch_step, WatchAction, WatchEvent, WatchState, QUIET_MS};
use imposter::state::{
    Entry, MeasurementTable,
    effective_range, initial_seed, tick_update, Bounds, MeasurementSpec, Seed, SimMode, Update,
};
use imposter::text::{octet_key, str_eq};
use imposter::wire::{build_packet, is_plain_decimal, order_ack, wire_type, write_reading, Reading, WireType};

fn board_cfg(period_ms: Option<u64>, udp: Option<bool>, tcp: Option<bool>) -> BoardCfg {
    BoardCfg { period_ms, udp, tcp }
}

fn sample_cfg() -> ImposterCfg {
    let mut boards = NameMap::new();
    boards.insert("VCU".to_string(), board_cfg(Some(100), None, Some(false)));
    boards.insert("BCU".to_string(), board_cfg(Some(200), Some(false), None));
    ImposterCfg {
        default_period_ms: 50,
        udp: None,
        tcp: None,
        default_udp: true,
        default_tcp: true,
        verbose: false,
        mode: SimMode::Random,
        random_step: 0.02f64.to_bits(),
        boards,
    }
}

fn board(ip: &str, packets: Vec<Packet>) -> Board {
    Board { board_id: 7, board_ip: ip.to_string(), measurements: vec![], packets }
}

fn general_info(backend: Option<&str>, udp: Option<u16>) -> GeneralInfo {
    let mut addresses = NameMap::new();
    if let Some(b) = backend {
        addresses.insert("backend".to_string(), b.to_string());
    }
    let mut ports = NameMap::new();
    ports.insert("TCP_SERVER".to_string(), 50500u16);
    if let Some(p) = udp {
        ports.insert("UDP".to_string(), p);
    }
    GeneralInfo { ports, addresses, units: NameMap::new(), message_ids: NameMap::new() }
}

fn fleet_config(backend: Option<&str>, udp: Option<u16>) -> Config {
    let mut boards = NameMap::new();
    boards.insert("VCU".to_string(), board("127.0.0.3", vec![]));
    boards.insert(
        "BMSL".to_string(),
        board(
            "127.0.0.2",
            vec![
                Packet {
                    id: 9,
                    kind: PacketType::Order,
                    name: "o".to_string(),
                    variables: vec![],
                },
                Packet {
                    id: 249,
                    kind: PacketType::Data,
                    name: "d".to_string(),
                    variables: vec!["a".to_string(), "b".to_string()],
                },
            ],
        ),
    );
    boards.insert("LOOSE".to_string(), board("not-an-ip", vec![]));
    Config { general_info: general_info(backend, udp), boards }
}

#[test]
fn default_true_is_true() {
    assert!(default_true());
}

#[test]
fn sim_mode_defaults_to_random() {
    assert_eq!(SimMode::default(), SimMode::Random);
}

#[test]
fn period_falls_back_to_default() {
    let cfg = sample_cfg();
    assert_eq!(cfg.period_ms("VCU"), 100);
    assert_eq!(cfg.period_ms("BCU"), 200);
    assert_eq!(cfg.period_ms("UNKNOWN"), 50);
}

#[test]
fn board_switches_override_defaults() {
    let cfg = sample_cfg();
    assert!(cfg.udp_enabled("VCU"));
    assert!(!cfg.udp_enabled("BCU"));
    assert!(!cfg.tcp_enabled("VCU"));
    assert!(cfg.tcp_enabled("BCU"));
    assert!(cfg.udp_enabled("UNKNOWN"));
}

#[test]
fn kill_switches_override_every_board() {
    let mut cfg = sample_cfg();
    cfg.udp = Some(false);
    cfg.tcp = Some(true);
    for name in ["VCU", "BCU", "UNKNOWN"] {
        assert!(!cfg.udp_enabled(name));
        assert!(cfg.tcp_enabled(name));
    }
}

#[test]
fn name_map_reads_back_writes() {
    let mut m = NameMap::new();
    assert_eq!(m.len(), 0);
    m.insert("a".to_string(), 1u32);
    m.insert("b".to_string(), 2u32);
    m.insert("a".to_string(), 3u32);
    assert_eq!(m.len(), 2);
    assert_eq!(m.get("a"), Some(&3));
    assert_eq!(m.get("b"), Some(&2));
    assert_eq!(m.get("c"), None);
    assert!(m.contains_key("b"));
    assert!(!m.contains_key("B"));
    assert_eq!(m.name_at(0), "a");
    assert_eq!(m.name_at(1), "b");
    assert_eq!(*m.value_at(0), 3);
}

#[test]
fn str_eq_compares_characters() {
    assert!(str_eq("héllo", "héllo"));
    assert!(!str_eq("hello", "hellO"));
    assert!(!str_eq("hello", "hell"));
    assert!(str_eq("", ""));
}

#[test]
fn octet_key_reads_last_component() {
    assert_eq!(octet_key("127.0.0.3"), 3);
    assert_eq!(octet_key("10.0.0.255"), 255);
    assert_eq!(octet_key("10.0.0.256"), 0);
    assert_eq!(octet_key("10.0.0.+7"), 7);
    assert_eq!(octet_key("10.0.0.007"), 7);
    assert_eq!(octet_key("10.0.0."), 0);
    assert_eq!(octet_key("10.0.0.+"), 0);
    assert_eq!(octet_key("10.0.0.-1"), 0);
    assert_eq!(octet_key("10.0.0. 4"), 0);
    assert_eq!(octet_key("42"), 42);
    assert_eq!(octet_key("abc"), 0);
    assert_eq!(octet_key(""), 0);
}

#[test]
fn launch_order_sorts_by_last_octet() {
    let config = fleet_config(Some("127.0.0.9"), Some(50400));
    let order = launch_order(&config.boards);
    assert_eq!(order, vec!["LOOSE".to_string(), "BMSL".to_string(), "VCU".to_string()]);
}

#[test]
fn unknown_boards_lists_names_missing_from_fleet() {
    let config = fleet_config(Some("127.0.0.9"), Some(50400));
    let mut cfg = sample_cfg();
    cfg.boards.insert("GHOST".to_string(), board_cfg(None, None, None));
    assert_eq!(unknown_boards(&config, &cfg), vec!["BCU".to_string(), "GHOST".to_string()]);
}

#[test]
fn backend_endpoint_reads_address_and_port() {
    let info = general_info(Some("127.0.0.9"), Some(50400));
    assert_eq!(backend_endpoint(&info), Ok(("127.0.0.9".to_string(), 50400)));
}

#[test]
fn backend_endpoint_reports_missing_entries() {
    assert_eq!(backend_endpoint(&general_info(None, Some(1))), Err(FleetError::MissingBackend));
    assert_eq!(backend_endpoint(&general_info(None, None)), Err(FleetError::MissingBackend));
    assert_eq!(
        backend_endpoint(&general_info(Some("127.0.0.9"), None)),
        Err(FleetError::MissingUdpPort)
    );
    assert_eq!(FleetError::MissingBackend.message(), "missing 'backend' in addresses");
    assert_eq!(FleetError::MissingUdpPort.message(), "missing 'UDP' in ports");
}

#[test]
fn launch_plans_every_board_in_order() {
    let config = fleet_config(Some("127.0.0.9"), Some(50400));
    let mut cfg = sample_cfg();
    cfg.boards.insert("BMSL".to_string(), board_cfg(Some(30), None, None));
    cfg.tcp = Some(false);
    let plan = launch(&config, &cfg).unwrap();
    assert_eq!(plan.backend_addr, "127.0.0.9");
    assert_eq!(plan.backend_port, 50400);
    let names: Vec<&str> = plan.boards.iter().map(|b| b.name.as_str()).collect();
    assert_eq!(names, vec!["LOOSE", "BMSL", "VCU"]);
    let bmsl = &plan.boards[1];
    assert_eq!(bmsl.board_ip, "127.0.0.2");
    assert_eq!(bmsl.board_id, 7);
    assert_eq!(bmsl.period_ms, 30);
    assert!(bmsl.udp_enabled);
    assert!(!bmsl.tcp_enabled);
    assert_eq!(bmsl.packet_count, 2);
    assert_eq!(bmsl.data_packets, vec![(249, vec!["a".to_string(), "b".to_string()])]);
    assert_eq!(bmsl.order_packets, vec![9]);
    assert_eq!(plan.tcp_port, Some(50500));
    assert_eq!(bmsl.mode, SimMode::Random);
    assert_eq!(plan.boards[2].period_ms, 100);
    assert_eq!(plan.boards[0].period_ms, 50);
}

#[test]
fn launch_fails_without_backend() {
    let cfg = sample_cfg();
    assert_eq!(launch(&fleet_config(None, Some(1)), &cfg).err(), Some(FleetError::MissingBackend));
    assert_eq!(
        launch(&fleet_config(Some("127.0.0.9"), None), &cfg).err(),
        Some(FleetError::MissingUdpPort)
    );
}

fn text(chars: Vec<char>) -> String {
    chars.into_iter().collect()
}

#[test]
fn packet_is_one_json_line() {
    let entries = vec![
        ("general_state".to_string(), Some(Reading::Unsigned(3))),
        ("missing".to_string(), None),
        ("offset".to_string(), Some(Reading::Signed(-12))),
        ("speed".to_string(), Some(Reading::Decimal("12.5".to_string()))),
        ("brake".to_string(), Some(Reading::Boolean(true))),
    ];
    assert_eq!(
        text(build_packet(249, &entries)),
        "{\"id\":249,\"values\":{\"general_state\":3,\"offset\":-12,\"speed\":12.5,\"brake\":true}}\n"
    );
}

#[test]
fn empty_packet_has_no_values() {
    assert_eq!(text(build_packet(249, &vec![])), "{\"id\":249,\"values\":{}}\n");
    assert_eq!(
        text(build_packet(502, &vec![("a".to_string(), None)])),
        "{\"id\":502,\"values\":{}}\n"
    );
}

#[test]
fn packet_escapes_names_and_nulls_bad_numbers() {
    let entries = vec![
        ("a\"b\\c\n".to_string(), Some(Reading::Decimal("NaN".to_string()))),
        ("é".to_string(), Some(Reading::Decimal("inf".to_string()))),
    ];
    assert_eq!(
        text(build_packet(4_000_000_000, &entries)),
        "{\"id\":4000000000,\"values\":{\"a\\\"b\\\\c\\u000a\":null,\"é\":null}}\n"
    );
}

#[test]
fn readings_are_json_values() {
    let write = |r: Reading| {
        let mut out = Vec::new();
        write_reading(&mut out, &r);
        text(out)
    };
    assert_eq!(write(Reading::Unsigned(0)), "0");
    assert_eq!(write(Reading::Unsigned(u64::MAX)), "18446744073709551615");
    assert_eq!(write(Reading::Signed(i64::MIN)), "-9223372036854775808");
    assert_eq!(write(Reading::Signed(7)), "7");
    assert_eq!(write(Reading::Boolean(false)), "false");
    assert_eq!(write(Reading::Decimal("-0.25".to_string())), "-0.25");
    assert_eq!(write(Reading::Decimal("1.".to_string())), "null");
}

#[test]
fn plain_decimals_are_json_numbers() {
    for ok in ["0", "-0", "12.5", "0.001", "-3", "100"] {
        assert!(is_plain_decimal(ok), "{ok}");
    }
    for bad in ["", "-", "01", ".5", "5.", "1.2.3", "NaN", "inf", "-inf", "1e5", "+1", " 1"] {
        assert!(!is_plain_decimal(bad), "{bad}");
    }
}

#[test]
fn float_display_reads_back_as_plain_decimal() {
    for v in [0.0f64, -0.0, 0.5, 1e21, 1e-7, -123.456, f64::MAX] {
        let s = format!("{}", v);
        assert!(is_plain_decimal(&s), "{s}");
        assert_eq!(s.parse::<f64>().unwrap(), v);
    }
}

#[test]
fn wire_type_follows_measurement_type() {
    assert_eq!(wire_type(MeasurementType::Enum), WireType::U8);
    assert_eq!(wire_type(MeasurementType::Int8), WireType::I8);
    assert_eq!(wire_type(MeasurementType::Bool), WireType::Bool);
    assert_eq!(wire_type(MeasurementType::Float32), WireType::F32);
    assert_eq!(wire_type(MeasurementType::Uint64), WireType::U64);
}

#[test]
fn orders_in_the_catalog_are_acked() {
    let orders = vec![502u32, 503];
    assert_eq!(order_ack(&orders, 503).map(text), Some("{\"ack\":503}\n".to_string()));
    assert_eq!(order_ack(&orders, 249), None);
    assert_eq!(order_ack(&vec![], 0), None);
}

#[test]
fn watcher_reloads_once_after_a_burst() {
    let mut state = WatchState::Idle;
    let mut actions = Vec::new();
    for e in [WatchEvent::Changed, WatchEvent::Changed, WatchEvent::Changed, WatchEvent::Quiet] {
        let (next, action) = watch_step(state, e);
        state = next;
        actions.push(action);
    }
    assert_eq!(
        actions,
        vec![
            WatchAction::AwaitQuiet(QUIET_MS),
            WatchAction::AwaitQuiet(QUIET_MS),
            WatchAction::AwaitQuiet(QUIET_MS),
            WatchAction::Reload
        ]
    );
    assert_eq!(QUIET_MS, 300);
    assert_eq!(state, WatchState::Idle);
    assert_eq!(watch_step(state, WatchEvent::Closed), (WatchState::Idle, WatchAction::Stop));
    assert_eq!(
        watch_step(WatchState::Settling, WatchEvent::Closed),
        (WatchState::Idle, WatchAction::Reload)
    );
    assert_eq!(watch_step(WatchState::Idle, WatchEvent::Quiet), (WatchState::Idle, WatchAction::AwaitEvent));
}

#[test]
fn simulator_handles_commands() {
    let (mut sim, bind, listen) = Simulator::start(100, true, false, SimMode::Random);
    assert!(bind);
    assert!(!listen);
    assert!(!sim.udp_open);
    sim.on_udp_bound(true);
    assert_eq!(sim.on_tick(), TickPlan { walk: true, send: true });
    assert_eq!(sim.on_command(Some(Command::SetPeriod(250))), Effect::Retime(250));
    assert_eq!(sim.period_ms, 250);
    assert_eq!(sim.on_command(Some(Command::SetUdp(true))), Effect::Nothing);
    assert_eq!(sim.on_command(Some(Command::SetUdp(false))), Effect::CloseUdp);
    assert_eq!(sim.on_command(Some(Command::SetUdp(false))), Effect::Nothing);
    assert_eq!(sim.on_command(Some(Command::SetUdp(true))), Effect::OpenUdp);
    sim.on_udp_bound(false);
    assert!(!sim.udp_open);
    assert_eq!(sim.on_command(Some(Command::SetTcp(true))), Effect::OpenTcp);
    sim.on_tcp_bound(true);
    assert!(sim.tcp_open);
    assert_eq!(sim.on_command(Some(Command::SetTcp(true))), Effect::Nothing);
    assert_eq!(sim.on_command(Some(Command::SetTcp(false))), Effect::CloseTcp);
    assert!(!sim.tcp_open);
    assert_eq!(sim.on_command(Some(Command::SetTcp(false))), Effect::Nothing);
    assert_eq!(sim.on_command(Some(Command::SetRandomStep(5))), Effect::Restep(5));
    assert_eq!(sim.on_command(Some(Command::SetMode(SimMode::Stable))), Effect::Restart(SimMode::Stable));
    assert_eq!(sim.on_tick(), TickPlan { walk: false, send: false });
    assert_eq!(sim.on_command(None), Effect::Stop);
    assert_eq!(
        sim,
        Simulator {
            period_ms: 250,
            udp_open: false,
            udp_pending: false,
            tcp_open: false,
            tcp_pending: false,
            mode: SimMode::Stable
        }
    );
}

fn spec(id: &str, kind: MeasurementType, enum_count: usize) -> MeasurementSpec {
    MeasurementSpec { id: id.to_string(), kind, range: None, enum_count, random_step: 1 }
}

#[test]
fn random_step_reaches_every_spec() {
    let mut specs = vec![spec("a", MeasurementType::Int8, 0), spec("b", MeasurementType::Enum, 4)];
    apply_random_step(&mut specs, 0.5f64.to_bits());
    assert_eq!(specs.len(), 2);
    assert!(specs.iter().all(|s| f64::from_bits(s.random_step) == 0.5));
    assert_eq!(specs[0].id, "a");
    assert_eq!(specs[1].enum_count, 4);
}

#[test]
fn enum_and_bool_draws_stay_in_bounds() {
    let e = spec("e", MeasurementType::Enum, 5);
    let b = spec("b", MeasurementType::Bool, 0);
    for _ in 0..200 {
        match tick_update(&e) {
            Update::Index(i) => assert!(i < 5),
            other => panic!("unexpected {other:?}"),
        }
        match tick_update(&b) {
            Update::Index(i) => assert!(i < 2),
            other => panic!("unexpected {other:?}"),
        }
        match initial_seed(&e, SimMode::Stable) {
            Seed::Index(i) => assert!(i < 5),
            other => panic!("unexpected {other:?}"),
        }
    }
}

#[test]
fn draws_reach_more_than_one_value() {
    let e = spec("e", MeasurementType::Enum, 3);
    let mut seen = [false; 3];
    for _ in 0..500 {
        if let Update::Index(i) = tick_update(&e) {
            seen[i] = true;
        }
    }
    assert!(seen.iter().filter(|s| **s).count() > 1);
}

#[test]
fn numbers_seed_by_mode_and_walk() {
    let n = spec("n", MeasurementType::Float32, 0);
    assert_eq!(initial_seed(&n, SimMode::Stable), Seed::Uniform);
    assert_eq!(initial_seed(&n, SimMode::Random), Seed::Midpoint);
    assert_eq!(tick_update(&n), Update::Walk);
    let empty = spec("x", MeasurementType::Enum, 0);
    assert_eq!(initial_seed(&empty, SimMode::Random), Seed::Index(0));
    assert_eq!(tick_update(&empty), Update::Keep);
}

#[test]
fn effective_range_prefers_configured_bounds() {
    let given = [10.0f64.to_bits(), 20.0f64.to_bits()];
    assert!(matches!(effective_range(MeasurementType::Int16, Some(given)), Bounds::Given(g) if g == given));
    assert!(matches!(effective_range(MeasurementType::Float64, None), Bounds::Default([0, 1])));
    assert!(matches!(effective_range(MeasurementType::Uint32, None), Bounds::Default([0, 0])));
    assert!(matches!(effective_range(MeasurementType::Int8, None), Bounds::Default([0, 0])));
}

#[test]
fn board_is_assembled_from_its_files() {
    let file = BoardFile {
        board_id: 11,
        board_ip: "127.0.0.3".to_string(),
        measurements: vec!["m.json".to_string()],
        packets: vec!["orders.json".to_string(), "packets.json".to_string()],
        sockets: vec![],
    };
    let m = |id: &str| Measurement {
        id: id.to_string(),
        name: id.to_string(),
        kind: MeasurementType::Bool,
        enum_values: None,
        safe_range: None,
        warning_range: None,
        pod_units: None,
        display_units: None,
    };
    let p = |id: u32, kind: PacketType| Packet { id, kind, name: String::new(), variables: vec![] };
    let board = assemble_board(
        file,
        vec![vec![m("x"), m("y")]],
        vec![vec![p(502, PacketType::Order)], vec![], vec![p(249, PacketType::Data), p(250, PacketType::Data)]],
    );
    assert_eq!(board.board_id, 11);
    assert_eq!(board.board_ip, "127.0.0.3");
    let ids: Vec<&str> = board.measurements.iter().map(|m| m.id.as_str()).collect();
    assert_eq!(ids, vec!["x", "y"]);
    let pids: Vec<u32> = board.packets.iter().map(|p| p.id).collect();
    assert_eq!(pids, vec![502, 249, 250]);
    assert_eq!(concat_chunks(vec![vec![1, 2], vec![], vec![3]]), vec![1, 2, 3]);
}

#[test]
fn reload_sends_period_udp_tcp() {
    let mut cfg = sample_cfg();
    cfg.udp = Some(false);
    assert_eq!(
        reload_commands(&cfg, "VCU"),
        vec![Command::SetPeriod(100), Command::SetUdp(false), Command::SetTcp(false)]
    );
    assert_eq!(
        reload_commands(&cfg, "NEW"),
        vec![Command::SetPeriod(50), Command::SetUdp(false), Command::SetTcp(true)]
    );
}

#[test]
fn board_without_udp_stays_silent() {
    let (mut sim, bind, _) = Simulator::start(100, false, true, SimMode::Random);
    assert!(!bind);
    let cmds = [
        Command::SetPeriod(5),
        Command::SetTcp(true),
        Command::SetMode(SimMode::Stable),
        Command::SetUdp(false),
        Command::SetRandomStep(3),
    ];
    for cmd in cmds {
        assert_ne!(sim.on_command(Some(cmd)), Effect::OpenUdp);
        assert!(!sim.on_tick().send);
    }
}

#[test]
fn reload_brings_board_in_line() {
    let mut cfg = sample_cfg();
    let (mut sim, _, _) = Simulator::start(999, true, true, SimMode::Stable);
    sim.on_udp_bound(true);
    sim.on_tcp_bound(true);
    let effects: Vec<Effect> =
        reload_commands(&cfg, "BCU").into_iter().map(|c| sim.on_command(Some(c))).collect();
    assert_eq!(effects, vec![Effect::Retime(200), Effect::CloseUdp, Effect::Nothing]);
    assert_eq!(
        sim,
        Simulator {
            period_ms: 200,
            udp_open: false,
            udp_pending: false,
            tcp_open: true,
            tcp_pending: false,
            mode: SimMode::Stable
        }
    );
    cfg.udp = Some(true);
    cfg.tcp = Some(false);
    let effects: Vec<Effect> =
        reload_commands(&cfg, "BCU").into_iter().map(|c| sim.on_command(Some(c))).collect();
    assert_eq!(effects, vec![Effect::Retime(200), Effect::OpenUdp, Effect::CloseTcp]);
}

#[test]
fn equal_keys_keep_fleet_order() {
    let mut boards = NameMap::new();
    boards.insert("B".to_string(), board("10.0.0.5", vec![]));
    boards.insert("A".to_string(), board("10.0.1.5", vec![]));
    boards.insert("C".to_string(), board("10.0.0.1", vec![]));
    assert_eq!(launch_order(&boards), vec!["C".to_string(), "B".to_string(), "A".to_string()]);
}

#[test]
fn settings_for_unknown_boards_change_nothing() {
    let config = fleet_config(Some("127.0.0.9"), Some(50400));
    let cfg = sample_cfg();
    let mut extended = sample_cfg();
    extended.boards.insert("GHOST".to_string(), board_cfg(Some(1), Some(false), Some(false)));
    let a = launch(&config, &cfg).unwrap();
    let b = launch(&config, &extended).unwrap();
    let summary = |p: &imposter::fleet::LaunchPlan| {
        p.boards
            .iter()
            .map(|b| (b.name.clone(), b.period_ms, b.udp_enabled, b.tcp_enabled))
            .collect::<Vec<_>>()
    };
    assert_eq!(summary(&a), summary(&b));
}

#[test]
fn measurement_table_keeps_ids_and_kinds() {
    let specs = vec![
        spec("a", MeasurementType::Int8, 0),
        spec("b", MeasurementType::Enum, 4),
        spec("a", MeasurementType::Float64, 0),
    ];
    let mut table = MeasurementTable::from_specs(&specs);
    assert_eq!(table.get("a"), Some(Entry { kind: MeasurementType::Float64, value: 0 }));
    assert_eq!(table.get("b"), Some(Entry { kind: MeasurementType::Enum, value: 0 }));
    assert_eq!(table.get("c"), None);
    table.set("b", 3);
    table.set("c", 9);
    assert_eq!(table.get("b"), Some(Entry { kind: MeasurementType::Enum, value: 3 }));
    assert_eq!(table.get("c"), None);
}

#[test]
fn bind_reports_count_only_when_pending() {
    let (mut sim, bind, _) = Simulator::start(100, true, false, SimMode::Random);
    assert!(bind);
    assert!(sim.udp_pending);
    assert_eq!(sim.on_command(Some(Command::SetUdp(false))), Effect::Nothing);
    assert!(!sim.udp_pending);
    sim.on_udp_bound(true);
    assert!(!sim.udp_open);
    assert!(!sim.on_tick().send);
    sim.on_tcp_bound(true);
    assert!(!sim.tcp_open);
    assert_eq!(sim.on_command(Some(Command::SetUdp(true))), Effect::OpenUdp);
    sim.on_udp_bound(true);
    assert!(sim.udp_open);
    sim.on_udp_bound(false);
    assert!(sim.udp_open);
}
