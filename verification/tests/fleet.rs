use imposter::config::{Board, Measurement, MeasurementType, Packet, PacketType};
use imposter::fleet::{data_packets, measurement_specs};

fn bits(r: [f64; 2]) -> [u64; 2] {
    [r[0].to_bits(), r[1].to_bits()]
}

fn floats(r: [u64; 2]) -> [f64; 2] {
    [f64::from_bits(r[0]), f64::from_bits(r[1])]
}

fn make_board() -> Board {
    Board {
        board_id: 1,
        board_ip: "127.0.0.1".to_string(),
        measurements: vec![Measurement {
            id: "pressure".to_string(),
            name: "Pressure".to_string(),
            kind: MeasurementType::Float32,
            safe_range: Some(bits([0.0, 100.0])),
            warning_range: None,
            enum_values: None,
            pod_units: None,
            display_units: None,
        }],
        packets: vec![
            Packet {
                id: 1,
                kind: PacketType::Data,
                name: "d".to_string(),
                variables: vec!["pressure".to_string()],
            },
            Packet { id: 2, kind: PacketType::Order, name: "o".to_string(), variables: vec![] },
        ],
    }
}

#[test]
fn measurement_specs_builds_correctly() {
    let board = make_board();
    let specs = measurement_specs(&board, 0.02f64.to_bits());
    assert_eq!(specs.len(), 1);
    assert_eq!(specs[0].id, "pressure");
    assert_eq!(specs[0].range.map(floats), Some([0.0, 100.0]));
    assert_eq!(f64::from_bits(specs[0].random_step), 0.02);
    assert_eq!(specs[0].enum_count, 0);
}

#[test]
fn data_packets_filters_orders() {
    let board = make_board();
    let pkts: Vec<_> = data_packets(&board);
    assert_eq!(pkts.len(), 1);
    assert_eq!(pkts[0].id, 1);
}

#[test]
fn measurement_specs_uses_warning_range_as_fallback() {
    let board = Board {
        board_id: 1,
        board_ip: "127.0.0.1".to_string(),
        measurements: vec![Measurement {
            id: "temp".to_string(),
            name: "Temp".to_string(),
            kind: MeasurementType::Float32,
            safe_range: None,
            warning_range: Some(bits([50.0, 90.0])),
            enum_values: None,
            pod_units: None,
            display_units: None,
        }],
        packets: vec![],
    };
    let specs = measurement_specs(&board, 0.02f64.to_bits());
    assert_eq!(specs[0].range.map(floats), Some([50.0, 90.0]));
}

#[test]
fn measurement_specs_prefers_safe_range_and_counts_enum_values() {
    let board = Board {
        board_id: 2,
        board_ip: "127.0.0.2".to_string(),
        measurements: vec![
            Measurement {
                id: "both".to_string(),
                name: "Both".to_string(),
                kind: MeasurementType::Uint16,
                safe_range: Some(bits([1.0, 2.0])),
                warning_range: Some(bits([3.0, 4.0])),
                enum_values: None,
                pod_units: None,
                display_units: None,
            },
            Measurement {
                id: "state".to_string(),
                name: "State".to_string(),
                kind: MeasurementType::Enum,
                safe_range: None,
                warning_range: None,
                enum_values: Some(vec!["a".to_string(), "b".to_string(), "c".to_string()]),
                pod_units: None,
                display_units: None,
            },
        ],
        packets: vec![],
    };
    let specs = measurement_specs(&board, 7);
    assert_eq!(specs.len(), 2);
    assert_eq!(specs[0].range.map(floats), Some([1.0, 2.0]));
    assert_eq!(specs[1].range, None);
    assert_eq!(specs[1].enum_count, 3);
    assert_eq!(specs[1].kind, MeasurementType::Enum);
    assert_eq!(specs[1].random_step, 7);
}
