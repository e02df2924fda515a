use vstd::prelude::*;
use vstd::string::*;

use crate::config::MeasurementType;
use crate::text::{all_digits, decimal_value, digit_value, is_digit};

verus! {

/// How a value of each measurement type is written: as an integer of the
/// type's width (the value saturated to it), a boolean, or decimal text.
#[derive(Clone, Copy, Debug, PartialEq, Eq, Structural)]
pub enum WireType {
    U8,
    I8,
    U16,
    I16,
    U32,
    I32,
    U64,
    I64,
    Bool,
    F32,
    F64,
}

impl WireType {
    /// Written as a whole number.
    pub open spec fn is_integer(self) -> bool {
        self is U8 || self is I8 || self is U16 || self is I16 || self is U32 || self is I32
            || self is U64 || self is I64
    }

    /// Written as a whole number that may be negative.
    pub open spec fn is_signed(self) -> bool {
        self is I8 || self is I16 || self is I32 || self is I64
    }

    /// Written as decimal text.
    pub open spec fn is_float(self) -> bool {
        self is F32 || self is F64
    }

    /// The width, in bits, that a value is saturated or rounded to (none for
    /// a boolean).
    pub open spec fn bits(self) -> nat {
        if self is U8 || self is I8 {
            8
        } else if self is U16 || self is I16 {
            16
        } else if self is U32 || self is I32 || self is F32 {
            32
        } else if self is U64 || self is I64 || self is F64 {
            64
        } else {
            0
        }
    }
}

/// Enums go out as their index, in a byte.
pub open spec fn wire_type_spec(kind: MeasurementType) -> WireType {
    match kind {
        MeasurementType::Enum | MeasurementType::Uint8 => WireType::U8,
        MeasurementType::Int8 => WireType::I8,
        MeasurementType::Uint16 => WireType::U16,
        MeasurementType::Int16 => WireType::I16,
        MeasurementType::Uint32 => WireType::U32,
        MeasurementType::Int32 => WireType::I32,
        MeasurementType::Uint64 => WireType::U64,
        MeasurementType::Int64 => WireType::I64,
        MeasurementType::Bool => WireType::Bool,
        MeasurementType::Float32 => WireType::F32,
        MeasurementType::Float64 => WireType::F64,
    }
}

/// The wire type of a measurement type.
pub fn wire_type(kind: MeasurementType) -> (t: WireType)
    ensures
        t == wire_type_spec(kind),
        kind.is_integer() ==> t.is_integer() && t.is_signed() == kind.is_signed() && t.bits()
            == kind.bits(),
        kind.is_float() ==> t.is_float() && t.bits() == kind.bits(),
        kind is Bool <==> t is Bool,
        kind is Enum ==> t == WireType::U8,
{
    match kind {
        MeasurementType::Enum | MeasurementType::Uint8 => WireType::U8,
        MeasurementType::Int8 => WireType::I8,
        MeasurementType::Uint16 => WireType::U16,
        MeasurementType::Int16 => WireType::I16,
        MeasurementType::Uint32 => WireType::U32,
        MeasurementType::Int32 => WireType::I32,
        MeasurementType::Uint64 => WireType::U64,
        MeasurementType::Int64 => WireType::I64,
        MeasurementType::Bool => WireType::Bool,
        MeasurementType::Float32 => WireType::F32,
        MeasurementType::Float64 => WireType::F64,
    }
}

/// A whole-number measurement goes out as a whole number of the same
/// signedness and width: Int8 as I8, Uint8 as U8, and so on up to 64 bits. A
/// floating-point one goes out as decimal text of its width, a boolean as a
/// boolean, and an enum as its index in an unsigned byte.
pub proof fn lemma_wire_type_keeps_sign_and_width(kind: MeasurementType)
    ensures
        kind.is_integer() ==> wire_type_spec(kind).is_integer() && wire_type_spec(kind).is_signed()
            == kind.is_signed() && wire_type_spec(kind).bits() == kind.bits(),
        kind.is_float() ==> wire_type_spec(kind).is_float() && wire_type_spec(kind).bits()
            == kind.bits(),
        kind is Bool <==> wire_type_spec(kind) is Bool,
        kind is Enum ==> wire_type_spec(kind) == WireType::U8,
{
}

/// One measurement value, ready to be written. A decimal is the text of a
/// floating-point value as Rust prints it.
#[derive(Debug)]
pub enum Reading {
    Unsigned(u64),
    Signed(i64),
    Boolean(bool),
    Decimal(String),
}

/// The character of a decimal digit.
pub open spec fn digit_char(d: nat) -> char {
    (d + 48) as char
}

/// The character of a lower-case hexadecimal digit.
pub open spec fn hex_char(d: nat) -> char {
    if d < 10 {
        digit_char(d)
    } else {
        (d + 87) as char
    }
}

/// The decimal digits of `n`, most significant first, without leading zeros.
pub open spec fn digits(n: nat) -> Seq<char>
    decreases n,
{
    if n < 10 {
        seq![digit_char(n)]
    } else {
        digits(n / 10).push(digit_char(n % 10))
    }
}

/// `s` without its leading `-`, if it has one.
pub open spec fn decimal_body(s: Seq<char>) -> Seq<char> {
    if s.len() > 0 && s[0] == '-' {
        s.drop_first()
    } else {
        s
    }
}

/// A JSON number as Rust prints a finite float: an optional `-`, an integer
/// part without leading zeros, and an optional fraction of at least one digit.
pub open spec fn plain_decimal(s: Seq<char>) -> bool {
    let body = decimal_body(s);
    &&& body.len() > 0
    &&& is_digit(body[0])
    &&& is_digit(body.last())
    &&& forall|i: int| 0 <= i < body.len() ==> is_digit(#[trigger] body[i]) || body[i] == '.'
    &&& forall|i: int, j: int|
        #![trigger body[i], body[j]]
        0 <= i < j < body.len() ==> !(body[i] == '.' && body[j] == '.')
    &&& !(body.len() >= 2 && body[0] == '0' && is_digit(body[1]))
}

/// The JSON text of a value; a decimal that is not a plain JSON number (a
/// NaN or an infinity) is written as `null`.
pub open spec fn reading_text(r: Reading) -> Seq<char> {
    match r {
        Reading::Unsigned(n) => digits(n as nat),
        Reading::Signed(n) => if n < 0 {
            seq!['-'] + digits((-n) as nat)
        } else {
            digits(n as nat)
        },
        Reading::Boolean(b) => if b {
            seq!['t', 'r', 'u', 'e']
        } else {
            seq!['f', 'a', 'l', 's', 'e']
        },
        Reading::Decimal(s) => if plain_decimal(s@) {
            s@
        } else {
            seq!['n', 'u', 'l', 'l']
        },
    }
}

/// One character inside a JSON string: quote and backslash escaped, control
/// characters as `\u00XX`, everything else as it is.
pub open spec fn escape(c: char) -> Seq<char> {
    if c == '"' {
        seq!['\\', '"']
    } else if c == '\\' {
        seq!['\\', '\\']
    } else if (c as u32) < 32 {
        seq!['\\', 'u', '0', '0', hex_char((c as u32 / 16) as nat), hex_char((c as u32 % 16) as nat)]
    } else {
        seq![c]
    }
}

/// The escaped characters of `s`.
pub open spec fn escape_all(s: Seq<char>) -> Seq<char>
    decreases s.len(),
{
    if s.len() == 0 {
        Seq::empty()
    } else {
        escape_all(s.drop_last()) + escape(s.last())
    }
}

/// `s` as a JSON string.
pub open spec fn quoted(s: Seq<char>) -> Seq<char> {
    seq!['"'] + escape_all(s) + seq!['"']
}

/// The `"name":value` members for the variables that have a value, in order.
pub open spec fn members(entries: Seq<(String, Option<Reading>)>) -> Seq<Seq<char>>
    decreases entries.len(),
{
    if entries.len() == 0 {
        Seq::empty()
    } else {
        match entries.last().1 {
            Some(r) => members(entries.drop_last()).push(
                quoted(entries.last().0@) + seq![':'] + reading_text(r),
            ),
            None => members(entries.drop_last()),
        }
    }
}

/// The items separated by commas.
pub open spec fn join(items: Seq<Seq<char>>) -> Seq<char>
    decreases items.len(),
{
    if items.len() == 0 {
        Seq::empty()
    } else if items.len() == 1 {
        items[0]
    } else {
        join(items.drop_last()) + seq![','] + items.last()
    }
}

/// A data packet: one JSON object holding the packet id and the values of
/// its variables by name, then a newline.
/// `{"id":249,"values":{"general_state":1,"speed":12.5}}`
pub open spec fn packet_text(packet_id: u32, entries: Seq<(String, Option<Reading>)>) -> Seq<char> {
    seq!['{', '"', 'i', 'd', '"', ':'] + digits(packet_id as nat) + seq![
        ',',
        '"',
        'v',
        'a',
        'l',
        'u',
        'e',
        's',
        '"',
        ':',
        '{',
    ] + join(members(entries)) + seq!['}', '}', '\n']
}

/// The acknowledgement of an order: `{"ack":502}` and a newline.
pub open spec fn ack_text(id: u32) -> Seq<char> {
    seq!['{', '"', 'a', 'c', 'k', '"', ':'] + digits(id as nat) + seq!['}', '\n']
}

fn digit(d: u64) -> (c: char)
    requires
        d < 10,
    ensures
        c == digit_char(d as nat),
{
    ((d as u8) + 48) as char
}

fn hex(d: u32) -> (c: char)
    requires
        d < 16,
    ensures
        c == hex_char(d as nat),
{
    if d < 10 {
        ((d as u8) + 48) as char
    } else {
        ((d as u8) + 87) as char
    }
}

/// Appends the decimal digits of `n`.
fn push_digits(out: &mut Vec<char>, n: u64)
    ensures
        final(out)@ == old(out)@ + digits(n as nat),
    decreases n,
{
    if n >= 10 {
        push_digits(out, n / 10);
    }
    out.push(digit(n % 10));
    proof {
        if n >= 10 {
            assert(old(out)@ + digits((n / 10) as nat) + seq![digit_char((n % 10) as nat)]
                =~= old(out)@ + digits(n as nat));
        } else {
            assert(old(out)@ + seq![digit_char(n as nat)] =~= old(out)@ + digits(n as nat));
        }
    }
}

fn push_all(out: &mut Vec<char>, chars: &[char])
    ensures
        final(out)@ == old(out)@ + chars@,
{
    let n = chars.len();
    for i in 0..n
        invariant
            n == chars@.len(),
            out@ == old(out)@ + chars@.take(i as int),
    {
        out.push(chars[i]);
        assert(chars@.take(i + 1) =~= chars@.take(i as int).push(chars@[i as int]));
    }
    assert(chars@.take(n as int) =~= chars@);
}

/// Appends `s` as a JSON string.
fn push_quoted(out: &mut Vec<char>, s: &str)
    ensures
        final(out)@ == old(out)@ + quoted(s@),
{
    out.push('"');
    let n = s.unicode_len();
    let ghost start = out@;
    for i in 0..n
        invariant
            n == s@.len(),
            out@ == start + escape_all(s@.take(i as int)),
    {
        let c = s.get_char(i);
        assert(s@.take(i + 1).drop_last() =~= s@.take(i as int));
        let ghost before = out@;
        if c == '"' {
            out.push('\\');
            out.push('"');
        } else if c == '\\' {
            out.push('\\');
            out.push('\\');
        } else if (c as u32) < 32 {
            out.push('\\');
            out.push('u');
            out.push('0');
            out.push('0');
            out.push(hex(c as u32 / 16));
            out.push(hex(c as u32 % 16));
        } else {
            out.push(c);
        }
        assert(out@ =~= before + escape(c));
    }
    assert(s@.take(n as int) =~= s@);
    out.push('"');
    assert(out@ =~= old(out)@ + quoted(s@));
}

/// Whether `s` is a plain JSON number, as Rust prints a finite float.
pub fn is_plain_decimal(s: &str) -> (b: bool)
    ensures
        b == plain_decimal(s@),
{
    let n = s.unicode_len();
    let start: usize = if n > 0 && s.get_char(0) == '-' {
        1
    } else {
        0
    };
    let ghost body = decimal_body(s@);
    assert(body =~= s@.subrange(start as int, n as int));
    if start == n {
        return false;
    }
    let first = s.get_char(start) as u32;
    let last = s.get_char(n - 1) as u32;
    if first < 48 || first > 57 || last < 48 || last > 57 {
        return false;
    }
    if n - start >= 2 && first == 48 {
        let second = s.get_char(start + 1) as u32;
        if 48 <= second && second <= 57 {
            return false;
        }
    }
    let mut dot: Option<usize> = None;
    let mut i = start;
    while i < n
        invariant
            start <= i <= n,
            n == s@.len(),
            body == s@.subrange(start as int, n as int),
            body == decimal_body(s@),
            forall|j: int| start <= j < i ==> is_digit(#[trigger] s@[j]) || s@[j] == '.',
            match dot {
                None => forall|j: int| start <= j < i ==> #[trigger] s@[j] != '.',
                Some(d) => start <= d < i && s@[d as int] == '.' && forall|j: int|
                    start <= j < i && j != d ==> #[trigger] s@[j] != '.',
            },
        decreases n - i,
    {
        let c = s.get_char(i);
        let code = c as u32;
        if c == '.' {
            if let Some(d) = dot {
                assert(body[d as int - start as int] == s@[d as int]);
                assert(body[i as int - start as int] == s@[i as int]);
                assert(body[d as int - start as int] == '.' && body[i as int - start as int] == '.');
                return false;
            }
            dot = Some(i);
        } else if code < 48 || code > 57 {
            assert(body[i as int - start as int] == s@[i as int]);
            assert(!(is_digit(body[i as int - start as int]) || body[i as int - start as int] == '.'));
            return false;
        }
        i += 1;
    }
    assert forall|a: int, b: int|
        #![trigger body[a], body[b]]
        0 <= a < b < body.len() implies !(body[a] == '.' && body[b] == '.') by {
        assert(body[a] == s@[a + start]);
        assert(body[b] == s@[b + start]);
    }
    assert forall|a: int| 0 <= a < body.len() implies is_digit(#[trigger] body[a]) || body[a]
        == '.' by {
        assert(body[a] == s@[a + start]);
    }
    true
}

/// Appends the JSON text of a value.
pub fn write_reading(out: &mut Vec<char>, r: &Reading)
    ensures
        final(out)@ == old(out)@ + reading_text(*r),
{
    match r {
        Reading::Unsigned(n) => push_digits(out, *n),
        Reading::Signed(n) => {
            if *n < 0 {
                out.push('-');
                let magnitude: u64 = if *n == i64::MIN {
                    0x8000_0000_0000_0000
                } else {
                    (-*n) as u64
                };
                push_digits(out, magnitude);
                assert(out@ =~= old(out)@ + reading_text(*r));
            } else {
                push_digits(out, *n as u64);
            }
        },
        Reading::Boolean(b) => {
            if *b {
                push_all(out, &['t', 'r', 'u', 'e']);
            } else {
                push_all(out, &['f', 'a', 'l', 's', 'e']);
            }
        },
        Reading::Decimal(s) => {
            if is_plain_decimal(s.as_str()) {
                let ghost before = out@;
                let n = s.as_str().unicode_len();
                for i in 0..n
                    invariant
                        n == s@.len(),
                        out@ == before + s@.take(i as int),
                {
                    out.push(s.as_str().get_char(i));
                    assert(s@.take(i + 1) =~= s@.take(i as int).push(s@[i as int]));
                }
                assert(s@.take(n as int) =~= s@);
            } else {
                push_all(out, &['n', 'u', 'l', 'l']);
            }
        },
    }
}

/// Builds a data packet from its id and each variable's name and value, in
/// variable order; a variable with no value (`None`) is left out.
pub fn build_packet(packet_id: u32, entries: &Vec<(String, Option<Reading>)>) -> (text: Vec<char>)
    ensures
        text@ == packet_text(packet_id, entries@),
{
    let mut out: Vec<char> = Vec::new();
    push_all(&mut out, &['{', '"', 'i', 'd', '"', ':']);
    push_digits(&mut out, packet_id as u64);
    push_all(&mut out, &[',', '"', 'v', 'a', 'l', 'u', 'e', 's', '"', ':', '{']);
    let ghost head = out@;
    let n = entries.len();
    let mut first = true;
    for i in 0..n
        invariant
            n == entries@.len(),
            out@ == head + join(members(entries@.take(i as int))),
            first == (members(entries@.take(i as int)).len() == 0),
    {
        let ghost items = members(entries@.take(i as int));
        assert(entries@.take(i + 1).drop_last() =~= entries@.take(i as int));
        assert(entries@.take(i + 1).last() == entries@[i as int]);
        let (name, value) = &entries[i];
        if let Some(r) = value {
            let ghost before = out@;
            if !first {
                out.push(',');
            }
            first = false;
            push_quoted(&mut out, name.as_str());
            out.push(':');
            write_reading(&mut out, r);
            proof {
                let item = quoted(name@) + seq![':'] + reading_text(*r);
                assert(members(entries@.take(i + 1)) == items.push(item));
                assert(items.push(item).drop_last() =~= items);
                if items.len() == 0 {
                    assert(join(items) =~= Seq::<char>::empty());
                    assert(before =~= head);
                    assert(out@ =~= head + item);
                } else {
                    assert(out@ =~= head + (join(items) + seq![','] + item));
                }
            }
        }
    }
    assert(entries@.take(n as int) =~= entries@);
    push_all(&mut out, &['}', '}', '\n']);
    out
}

/// The acknowledgement of order `id` when the board accepts that order, and
/// nothing otherwise.
pub fn order_ack(order_ids: &Vec<u32>, id: u32) -> (ack: Option<Vec<char>>)
    ensures
        match ack {
            Some(text) => order_ids@.contains(id) && text@ == ack_text(id),
            None => !order_ids@.contains(id),
        },
{
    let n = order_ids.len();
    for i in 0..n
        invariant
            n == order_ids@.len(),
            forall|j: int| 0 <= j < i ==> order_ids@[j] != id,
    {
        if order_ids[i] == id {
            let mut out: Vec<char> = Vec::new();
            push_all(&mut out, &['{', '"', 'a', 'c', 'k', '"', ':']);
            push_digits(&mut out, id as u64);
            push_all(&mut out, &['}', '\n']);
            assert(order_ids@[i as int] == id);
            return Some(out);
        }
    }
    None
}

proof fn lemma_digit_char(d: nat)
    requires
        d < 10,
    ensures
        is_digit(digit_char(d)),
        digit_value(digit_char(d)) == d,
{
}

/// The digits of a number read back give the number.
pub proof fn lemma_digits_round_trip(n: nat)
    ensures
        all_digits(digits(n)),
        decimal_value(digits(n)) == n,
        digits(n).len() > 0,
    decreases n,
{
    if n < 10 {
        lemma_digit_char(n);
        let one = seq![digit_char(n)];
        assert(one.drop_last() =~= Seq::<char>::empty());
        assert(one.last() == digit_char(n));
        assert(digits(n) == one);
        assert(decimal_value(one) == decimal_value(one.drop_last()) * 10 + digit_value(one.last()));
    } else {
        lemma_digits_round_trip(n / 10);
        lemma_digit_char(n % 10);
        let d = digits(n / 10);
        let c = digit_char(n % 10);
        assert(d.push(c).drop_last() =~= d);
        assert(d.push(c).last() == c);
        assert(digits(n) == d.push(c));
        assert(decimal_value(d.push(c)) == decimal_value(d) * 10 + digit_value(c));
        assert((n / 10) * 10 + n % 10 == n);
        assert forall|i: int| 0 <= i < d.push(c).len() implies is_digit(#[trigger] d.push(c)[i]) by {
            if i < d.len() {
                assert(d.push(c)[i] == d[i]);
            }
        }
    }
}

/// Reading the text of an integer value back gives the value: its digits
/// (after a `-` for a negative one) denote its magnitude.
pub proof fn lemma_reading_round_trip(r: Reading)
    ensures
        r matches Reading::Unsigned(n) ==> all_digits(reading_text(r)) && decimal_value(
            reading_text(r),
        ) == n,
        r matches Reading::Signed(n) ==> (n >= 0 ==> decimal_value(reading_text(r)) == n) && (n < 0
            ==> reading_text(r)[0] == '-' && decimal_value(reading_text(r).drop_first()) == -n),
{
    match r {
        Reading::Unsigned(n) => lemma_digits_round_trip(n as nat),
        Reading::Signed(n) => {
            if n < 0 {
                lemma_digits_round_trip((-n) as nat);
                assert((seq!['-'] + digits((-n) as nat)).drop_first() =~= digits((-n) as nat));
            } else {
                lemma_digits_round_trip(n as nat);
            }
        },
        _ => {},
    }
}

/// `s` holds no newline.
pub open spec fn single_line(s: Seq<char>) -> bool {
    forall|i: int| 0 <= i < s.len() ==> #[trigger] s[i] != '\n'
}

proof fn lemma_concat_single_line(a: Seq<char>, b: Seq<char>)
    requires
        single_line(a),
        single_line(b),
    ensures
        single_line(a + b),
{
    assert forall|i: int| 0 <= i < (a + b).len() implies #[trigger] (a + b)[i] != '\n' by {
        if i < a.len() {
            assert((a + b)[i] == a[i]);
        } else {
            assert((a + b)[i] == b[i - a.len()]);
        }
    }
}

proof fn lemma_digits_single_line(n: nat)
    ensures
        single_line(digits(n)),
{
    lemma_digits_round_trip(n);
    assert forall|i: int| 0 <= i < digits(n).len() implies #[trigger] digits(n)[i] != '\n' by {
        assert(is_digit(digits(n)[i]));
    }
}

proof fn lemma_escape_all_single_line(s: Seq<char>)
    ensures
        single_line(escape_all(s)),
    decreases s.len(),
{
    if s.len() > 0 {
        lemma_escape_all_single_line(s.drop_last());
        let c = s.last();
        if (c as u32) < 32 && c != '"' && c != '\\' {
            let hi = (c as u32 / 16) as nat;
            let lo = (c as u32 % 16) as nat;
            assert(hex_char(hi) != '\n');
            assert(hex_char(lo) != '\n');
        }
        assert(single_line(escape(c)));
        lemma_concat_single_line(escape_all(s.drop_last()), escape(c));
    }
}

proof fn lemma_reading_single_line(r: Reading)
    ensures
        single_line(reading_text(r)),
{
    match r {
        Reading::Unsigned(n) => lemma_digits_single_line(n as nat),
        Reading::Signed(n) => {
            if n < 0 {
                lemma_digits_single_line((-n) as nat);
                lemma_concat_single_line(seq!['-'], digits((-n) as nat));
            } else {
                lemma_digits_single_line(n as nat);
            }
        },
        Reading::Boolean(_) => {},
        Reading::Decimal(t) => {
            if plain_decimal(t@) {
                let body = decimal_body(t@);
                assert forall|i: int| 0 <= i < t@.len() implies #[trigger] t@[i] != '\n' by {
                    if t@.len() > 0 && t@[0] == '-' {
                        if i > 0 {
                            assert(t@[i] == body[i - 1]);
                        }
                    } else {
                        assert(t@[i] == body[i]);
                    }
                }
            }
        },
    }
}

proof fn lemma_members_single_line(entries: Seq<(String, Option<Reading>)>)
    ensures
        forall|i: int| 0 <= i < members(entries).len() ==> single_line(#[trigger] members(entries)[i]),
    decreases entries.len(),
{
    if entries.len() > 0 {
        lemma_members_single_line(entries.drop_last());
        if let Some(r) = entries.last().1 {
            let name = entries.last().0@;
            lemma_escape_all_single_line(name);
            lemma_concat_single_line(seq!['"'], escape_all(name));
            lemma_concat_single_line(seq!['"'] + escape_all(name), seq!['"']);
            lemma_concat_single_line(quoted(name), seq![':']);
            lemma_reading_single_line(r);
            lemma_concat_single_line(quoted(name) + seq![':'], reading_text(r));
            let item = quoted(name) + seq![':'] + reading_text(r);
            let prev = members(entries.drop_last());
            assert(members(entries) == prev.push(item));
            assert forall|i: int| 0 <= i < prev.push(item).len() implies single_line(
                #[trigger] prev.push(item)[i],
            ) by {
                if i < prev.len() {
                    assert(prev.push(item)[i] == prev[i]);
                }
            }
        }
    }
}

proof fn lemma_join_single_line(items: Seq<Seq<char>>)
    requires
        forall|i: int| 0 <= i < items.len() ==> single_line(#[trigger] items[i]),
    ensures
        single_line(join(items)),
    decreases items.len(),
{
    if items.len() > 1 {
        lemma_join_single_line(items.drop_last());
        lemma_concat_single_line(join(items.drop_last()), seq![',']);
        lemma_concat_single_line(join(items.drop_last()) + seq![','], items.last());
    } else if items.len() == 1 {
        assert(single_line(items[0]));
    }
}

/// A packet is exactly one line: it ends with a newline and holds no other,
/// as newline-delimited framing needs (names are escaped, numbers are digits).
pub proof fn lemma_packet_is_one_line(packet_id: u32, entries: Seq<(String, Option<Reading>)>)
    ensures
        packet_text(packet_id, entries).last() == '\n',
        single_line(packet_text(packet_id, entries).drop_last()),
{
    let a = seq!['{', '"', 'i', 'd', '"', ':'];
    let b = seq![',', '"', 'v', 'a', 'l', 'u', 'e', 's', '"', ':', '{'];
    let j = join(members(entries));
    lemma_digits_single_line(packet_id as nat);
    lemma_members_single_line(entries);
    lemma_join_single_line(members(entries));
    lemma_concat_single_line(a, digits(packet_id as nat));
    lemma_concat_single_line(a + digits(packet_id as nat), b);
    lemma_concat_single_line(a + digits(packet_id as nat) + b, j);
    lemma_concat_single_line(a + digits(packet_id as nat) + b + j, seq!['}', '}']);
    let whole = packet_text(packet_id, entries);
    assert(whole =~= (a + digits(packet_id as nat) + b + j + seq!['}', '}']).push('\n'));
    assert(whole.drop_last() =~= a + digits(packet_id as nat) + b + j + seq!['}', '}']);
}

} // verus!
