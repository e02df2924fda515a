use vstd::prelude::*;
use vstd::pervasive::VecAdditionalExecFns;

use crate::names::NameMap;

verus! {

broadcast use vstd::seq_lib::group_seq_properties;

/// The shared ports, addresses, units and message ids of the fleet.
pub struct GeneralInfo {
    pub ports: NameMap<u16>,
    pub addresses: NameMap<String>,
    pub units: NameMap<String>,
    pub message_ids: NameMap<u32>,
}

/// A board's own description file: its id and address, and the files that
/// hold its measurements and packets (relative to the board's directory).
pub struct BoardFile {
    pub board_id: u32,
    pub board_ip: String,
    pub measurements: Vec<String>,
    pub packets: Vec<String>,
    /// Read and kept, but never used.
    pub sockets: Vec<String>,
}

/// The type of a measured value.
#[derive(Clone, Copy, Debug, PartialEq, Eq, Structural)]
pub enum MeasurementType {
    Uint8,
    Uint16,
    Uint32,
    Uint64,
    Int8,
    Int16,
    Int32,
    Int64,
    Float32,
    Float64,
    Enum,
    Bool,
}

impl MeasurementType {
    /// A whole-number type of a fixed width.
    pub open spec fn is_integer(self) -> bool {
        self is Uint8 || self is Uint16 || self is Uint32 || self is Uint64 || self is Int8
            || self is Int16 || self is Int32 || self is Int64
    }

    /// A whole-number type that holds negative values.
    pub open spec fn is_signed(self) -> bool {
        self is Int8 || self is Int16 || self is Int32 || self is Int64
    }

    /// A floating-point type.
    pub open spec fn is_float(self) -> bool {
        self is Float32 || self is Float64
    }

    /// The number of bits a value of the type takes (an enum takes a byte,
    /// a boolean none).
    pub open spec fn bits(self) -> nat {
        if self is Uint8 || self is Int8 || self is Enum {
            8
        } else if self is Uint16 || self is Int16 {
            16
        } else if self is Uint32 || self is Int32 || self is Float32 {
            32
        } else if self is Uint64 || self is Int64 || self is Float64 {
            64
        } else {
            0
        }
    }
}

/// One measurement a board reports. Range bounds are carried as the bit
/// patterns of the IEEE-754 doubles that the configuration gives.
pub struct Measurement {
    pub id: String,
    pub name: String,
    pub kind: MeasurementType,
    pub enum_values: Option<Vec<String>>,
    pub safe_range: Option<[u64; 2]>,
    pub warning_range: Option<[u64; 2]>,
    pub pod_units: Option<String>,
    pub display_units: Option<String>,
}

/// Whether a packet flows from the board (data) or to it (order).
#[derive(Clone, Copy, Debug, PartialEq, Eq, Structural)]
pub enum PacketType {
    Data,
    Order,
}

/// A packet definition: its id and the measurement ids it carries, in order.
pub struct Packet {
    pub id: u32,
    pub kind: PacketType,
    pub name: String,
    pub variables: Vec<String>,
}

/// A board with every file it references read in.
pub struct Board {
    pub board_id: u32,
    pub board_ip: String,
    pub measurements: Vec<Measurement>,
    pub packets: Vec<Packet>,
}

/// The whole fleet description.
pub struct Config {
    pub general_info: GeneralInfo,
    pub boards: NameMap<Board>,
}

/// The views of `chunks`, concatenated in order.
pub open spec fn concat_views<T>(chunks: Seq<Vec<T>>) -> Seq<T> {
    chunks.map_values(|c: Vec<T>| c@).flatten()
}

/// Concatenates the chunks in order.
pub fn concat_chunks<T>(chunks: Vec<Vec<T>>) -> (all: Vec<T>)
    ensures
        all@ == concat_views(chunks@),
{
    let ghost orig = chunks@;
    let mut chunks = chunks;
    let mut all: Vec<T> = Vec::new();
    let n = chunks.len();
    for i in 0..n
        invariant
            n == chunks@.len(),
            n == orig.len(),
            forall|j: int| i <= j < n ==> chunks@[j] == orig[j],
            all@ == concat_views(orig.take(i as int)),
    {
        let mut chunk: Vec<T> = Vec::new();
        chunks.set_and_swap(i, &mut chunk);
        proof {
            let views = orig.take(i as int).map_values(|c: Vec<T>| c@);
            views.lemma_flatten_push(orig[i as int]@);
            assert(orig.take(i + 1).map_values(|c: Vec<T>| c@) =~= views.push(orig[i as int]@));
        }
        all.append(&mut chunk);
    }
    assert(orig.take(n as int) =~= orig);
    all
}

/// Assembles a board from its description file and the contents of the
/// measurement and packet files it references, each list in file order.
pub fn assemble_board(
    file: BoardFile,
    measurement_chunks: Vec<Vec<Measurement>>,
    packet_chunks: Vec<Vec<Packet>>,
) -> (board: Board)
    ensures
        board.board_id == file.board_id,
        board.board_ip == file.board_ip,
        board.measurements@ == concat_views(measurement_chunks@),
        board.packets@ == concat_views(packet_chunks@),
{
    Board {
        board_id: file.board_id,
        board_ip: file.board_ip,
        measurements: concat_chunks(measurement_chunks),
        packets: concat_chunks(packet_chunks),
    }
}

} // verus!
