use rand::RngExt;
use vstd::prelude::*;
use vstd::string::*;

use crate::config::MeasurementType;
use crate::names::NameMap;

verus! {

/// How a board's measurements evolve over time.
#[derive(Clone, Copy, Debug, PartialEq, Eq, Structural)]
pub enum SimMode {
    /// Values start somewhere inside their range and then stay put.
    Stable,
    /// Values start at the middle of their range and then drift.
    Random,
}

impl Default for SimMode {
    fn default() -> (m: SimMode)
        ensures
            m == SimMode::Random,
    {
        SimMode::Random
    }
}

impl SimMode {
    /// Whether a tick moves the values: only in `Random` mode.
    pub fn ticks_move(&self) -> (b: bool)
        ensures
            b == (*self == SimMode::Random),
    {
        match self {
            SimMode::Stable => false,
            SimMode::Random => true,
        }
    }
}

/// What the simulator needs to know of one measurement. `range` holds the
/// bit patterns of the two IEEE-754 bounds, `random_step` that of the
/// fraction of the range a value may move per tick.
pub struct MeasurementSpec {
    pub id: String,
    pub kind: MeasurementType,
    pub range: Option<[u64; 2]>,
    pub enum_count: usize,
    pub random_step: u64,
}

/// The bounds a measurement moves within.
#[derive(Clone, Copy, Debug)]
pub enum Bounds {
    /// The configured bounds (IEEE-754 bit patterns).
    Given([u64; 2]),
    /// The default bounds for the measurement's type.
    Default([i64; 2]),
}

/// The bounds used for a type when the configuration gives none:
/// 0 to 1 for floating-point, enum and boolean values, 0 for integers.
pub open spec fn default_bounds(kind: MeasurementType) -> [i64; 2] {
    match kind {
        MeasurementType::Float32 | MeasurementType::Float64 | MeasurementType::Bool
        | MeasurementType::Enum => [0, 1],
        _ => [0, 0],
    }
}

/// Without configured bounds, a floating-point value moves between 0 and 1
/// (a range that is not empty), as do boolean and enum values; a whole-number
/// value stays at 0.
pub proof fn lemma_default_bounds_by_type(kind: MeasurementType)
    ensures
        kind.is_float() ==> default_bounds(kind)[0] == 0 && default_bounds(kind)[1] == 1,
        kind is Bool || kind is Enum ==> default_bounds(kind)[0] == 0 && default_bounds(kind)[1]
            == 1,
        kind.is_integer() ==> default_bounds(kind)[0] == 0 && default_bounds(kind)[1] == 0,
        default_bounds(kind)[0] <= default_bounds(kind)[1],
{
}

/// The configured bounds if there are any, else the type's defaults.
pub fn effective_range(kind: MeasurementType, range: Option<[u64; 2]>) -> (b: Bounds)
    ensures
        b == (match range {
            Some(r) => Bounds::Given(r),
            None => Bounds::Default(default_bounds(kind)),
        }),
        range is None && (kind.is_float() || kind is Bool || kind is Enum) ==> (b matches Bounds::Default(d)
            && d[0] == 0 && d[1] == 1),
        range is None && kind.is_integer() ==> (b matches Bounds::Default(d)
            && d[0] == 0 && d[1] == 0),
{
    if let Some(r) = range {
        return Bounds::Given(r);
    }
    match kind {
        MeasurementType::Float32 | MeasurementType::Float64 | MeasurementType::Bool
        | MeasurementType::Enum => Bounds::Default([0, 1]),
        _ => Bounds::Default([0, 0]),
    }
}

/// `rand::rng().random_range(0..bound)`: an index drawn uniformly below
/// `bound`. Only the bound is stated; which index comes out is chance.
#[verifier::external_body]
fn random_index(bound: usize) -> (i: usize)
    requires
        bound > 0,
    ensures
        i < bound,
{
    rand::rng().random_range(0..bound)
}

/// The first value of a measurement.
#[derive(Clone, Copy, Debug, PartialEq, Eq, Structural)]
pub enum Seed {
    /// This index (enum position, or 0/1 for a boolean).
    Index(usize),
    /// A value drawn uniformly within the bounds.
    Uniform,
    /// The middle of the bounds.
    Midpoint,
}

/// What a tick does to a measurement's value.
#[derive(Clone, Copy, Debug, PartialEq, Eq, Structural)]
pub enum Update {
    /// The value stays.
    Keep,
    /// The value becomes this index.
    Index(usize),
    /// The value takes a random step, clamped to its bounds.
    Walk,
}

/// How a measurement starts: enums at a random position among their values
/// (0 when they have none), booleans at random 0 or 1, numbers anywhere in
/// their bounds in `Stable` mode and at the middle in `Random` mode.
pub fn initial_seed(spec: &MeasurementSpec, mode: SimMode) -> (s: Seed)
    ensures
        match spec.kind {
            MeasurementType::Enum => if spec.enum_count > 0 {
                s matches Seed::Index(i) && i < spec.enum_count
            } else {
                s == Seed::Index(0)
            },
            MeasurementType::Bool => s matches Seed::Index(i) && i < 2,
            _ => s == (match mode {
                SimMode::Stable => Seed::Uniform,
                SimMode::Random => Seed::Midpoint,
            }),
        },
{
    match spec.kind {
        MeasurementType::Enum => {
            if spec.enum_count > 0 {
                Seed::Index(random_index(spec.enum_count))
            } else {
                Seed::Index(0)
            }
        },
        MeasurementType::Bool => Seed::Index(random_index(2)),
        _ => match mode {
            SimMode::Stable => Seed::Uniform,
            SimMode::Random => Seed::Midpoint,
        },
    }
}

/// What one random-walk tick does: enums jump to a random position (and
/// stay when they have no values), booleans to a random 0 or 1, numbers
/// take a clamped random step.
pub fn tick_update(spec: &MeasurementSpec) -> (u: Update)
    ensures
        match spec.kind {
            MeasurementType::Enum => if spec.enum_count > 0 {
                u matches Update::Index(i) && i < spec.enum_count
            } else {
                u == Update::Keep
            },
            MeasurementType::Bool => u matches Update::Index(i) && i < 2,
            _ => u == Update::Walk,
        },
{
    match spec.kind {
        MeasurementType::Enum => {
            if spec.enum_count > 0 {
                Update::Index(random_index(spec.enum_count))
            } else {
                Update::Keep
            }
        },
        MeasurementType::Bool => Update::Index(random_index(2)),
        _ => Update::Walk,
    }
}

/// The current value of one measurement (the bit pattern of an IEEE-754
/// double) and its type.
#[derive(Clone, Copy, Debug, PartialEq, Eq, Structural)]
pub struct Entry {
    pub kind: MeasurementType,
    pub value: u64,
}

/// The type of each measurement id, as `specs` give them; when an id comes
/// twice, the later spec wins.
pub open spec fn kinds_of(specs: Seq<MeasurementSpec>) -> Map<Seq<char>, MeasurementType>
    decreases specs.len(),
{
    if specs.len() == 0 {
        Map::empty()
    } else {
        kinds_of(specs.drop_last()).insert(specs.last().id@, specs.last().kind)
    }
}

/// The live values of one board's measurements, by id.
pub struct MeasurementTable {
    entries: NameMap<Entry>,
}

impl View for MeasurementTable {
    type V = Map<Seq<char>, Entry>;

    closed spec fn view(&self) -> Map<Seq<char>, Entry> {
        self.entries@
    }
}

impl MeasurementTable {
    /// A table holding each spec's id with its type; every value starts as
    /// the bits 0 (the double 0.0) until it is set.
    pub fn from_specs(specs: &Vec<MeasurementSpec>) -> (t: MeasurementTable)
        ensures
            t@.dom() == kinds_of(specs@).dom(),
            forall|id: Seq<char>|
                #[trigger] t@.contains_key(id) ==> t@[id] == (Entry {
                    kind: kinds_of(specs@)[id],
                    value: 0,
                }),
    {
        let mut entries: NameMap<Entry> = NameMap::new();
        let n = specs.len();
        for i in 0..n
            invariant
                n == specs@.len(),
                entries@.dom() == kinds_of(specs@.take(i as int)).dom(),
                forall|id: Seq<char>|
                    #[trigger] entries@.contains_key(id) ==> entries@[id] == (Entry {
                        kind: kinds_of(specs@.take(i as int))[id],
                        value: 0,
                    }),
        {
            assert(specs@.take(i + 1).drop_last() =~= specs@.take(i as int));
            assert(specs@.take(i + 1).last() == specs@[i as int]);
            let spec = &specs[i];
            entries.insert(spec.id.clone(), Entry { kind: spec.kind, value: 0 });
            assert(entries@.dom() =~= kinds_of(specs@.take(i + 1)).dom());
        }
        assert(specs@.take(n as int) =~= specs@);
        MeasurementTable { entries }
    }

    /// The value and type of measurement `id`, if the table holds it.
    pub fn get(&self, id: &str) -> (e: Option<Entry>)
        ensures
            e == (if self@.contains_key(id@) {
                Some(self@[id@])
            } else {
                None
            }),
    {
        match self.entries.get(id) {
            Some(e) => Some(*e),
            None => None,
        }
    }

    /// Sets the value of measurement `id`, keeping its type; an id the table
    /// does not hold is ignored.
    pub fn set(&mut self, id: &str, value: u64)
        ensures
            final(self)@ == (if old(self)@.contains_key(id@) {
                old(self)@.insert(id@, Entry { kind: old(self)@[id@].kind, value })
            } else {
                old(self)@
            }),
    {
        broadcast use vstd::string::group_string_axioms;

        let kind = match self.entries.get(id) {
            Some(e) => e.kind,
            None => return,
        };
        self.entries.insert(id.to_string(), Entry { kind, value });
    }
}

/// Setting values never adds or removes a measurement, nor changes a type.
pub proof fn lemma_set_keeps_shape(before: Map<Seq<char>, Entry>, id: Seq<char>, value: u64)
    ensures
        ({
            let after = if before.contains_key(id) {
                before.insert(id, Entry { kind: before[id].kind, value })
            } else {
                before
            };
            &&& after.dom() == before.dom()
            &&& forall|k: Seq<char>| #[trigger] after.contains_key(k) ==> after[k].kind == before[k].kind
        }),
{
    if before.contains_key(id) {
        assert(before.insert(id, Entry { kind: before[id].kind, value }).dom() =~= before.dom());
    }
}

} // verus!
