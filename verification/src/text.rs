use vstd::prelude::*;
use vstd::string::*;

verus! {

/// Whether `c` is one of the ASCII digits `0` to `9`.
pub open spec fn is_digit(c: char) -> bool {
    48 <= (c as u32) <= 57
}

/// The value of an ASCII digit.
pub open spec fn digit_value(c: char) -> nat {
    ((c as u32) - 48) as nat
}

/// Every character of `s` is an ASCII digit.
pub open spec fn all_digits(s: Seq<char>) -> bool {
    forall|i: int| 0 <= i < s.len() ==> is_digit(#[trigger] s[i])
}

/// The number that a string of decimal digits denotes.
pub open spec fn decimal_value(s: Seq<char>) -> nat
    decreases s.len(),
{
    if s.len() == 0 {
        0
    } else {
        decimal_value(s.drop_last()) * 10 + digit_value(s.last())
    }
}

/// What `u8::from_str` gives for `s`: an optional `+` followed by one or
/// more decimal digits whose value fits in a byte; nothing else is accepted.
pub open spec fn parse_u8_spec(s: Seq<char>) -> Option<u8> {
    let digits = if s.len() > 0 && s[0] == '+' {
        s.drop_first()
    } else {
        s
    };
    if digits.len() > 0 && all_digits(digits) && decimal_value(digits) <= 255 {
        Some(decimal_value(digits) as u8)
    } else {
        None
    }
}

/// The part of `s` after its last `.` (all of `s` when it holds no `.`).
pub open spec fn last_segment(s: Seq<char>) -> Seq<char>
    decreases s.len(),
{
    if s.len() == 0 {
        s
    } else if s.last() == '.' {
        Seq::empty()
    } else {
        last_segment(s.drop_last()).push(s.last())
    }
}

/// The key by which boards are ordered: the last dotted component of the
/// address read as a byte, or 0 where it is not one.
pub open spec fn octet_key_spec(ip: Seq<char>) -> u8 {
    match parse_u8_spec(last_segment(ip)) {
        Some(v) => v,
        None => 0,
    }
}

/// A number, saturated at 256: enough to tell whether it fits in a byte.
spec fn cap(v: nat) -> nat {
    if v < 256 {
        v
    } else {
        256
    }
}

proof fn lemma_last_segment_from(s: Seq<char>, k: int)
    requires
        0 <= k <= s.len(),
        forall|j: int| k <= j < s.len() ==> s[j] != '.',
        k == 0 || s[k - 1] == '.',
    ensures
        last_segment(s) =~= s.subrange(k, s.len() as int),
    decreases s.len(),
{
    if s.len() == 0 {
    } else if s.len() == k {
        assert(s.last() == '.');
    } else {
        lemma_last_segment_from(s.drop_last(), k);
        assert(s.drop_last().subrange(k, s.len() - 1).push(s.last()) =~= s.subrange(
            k,
            s.len() as int,
        ));
    }
}

proof fn lemma_decimal_push(d: Seq<char>, c: char)
    ensures
        decimal_value(d.push(c)) == decimal_value(d) * 10 + digit_value(c),
        cap(decimal_value(d.push(c))) == cap(cap(decimal_value(d)) * 10 + digit_value(c)),
{
    assert(d.push(c).drop_last() =~= d);
}

/// The ordering key of an address is the number that its last dotted part
/// spells when that number fits in a byte (the key of `192.168.1.7` is 7);
/// a last part that is empty, holds anything but digits, or spells a number
/// above 255 gives 0.
pub proof fn lemma_octet_key_reads_last_part(prefix: Seq<char>, d: Seq<char>)
    requires
        forall|j: int| 0 <= j < d.len() ==> d[j] != '.',
    ensures
        d.len() > 0 && all_digits(d) && decimal_value(d) <= 255 ==> octet_key_spec(
            prefix + seq!['.'] + d,
        ) == decimal_value(d),
        d.len() == 0 ==> octet_key_spec(prefix + seq!['.'] + d) == 0,
        d.len() > 0 && d[0] != '+' && !all_digits(d) ==> octet_key_spec(prefix + seq!['.'] + d)
            == 0,
        all_digits(d) && decimal_value(d) > 255 ==> octet_key_spec(prefix + seq!['.'] + d) == 0,
{
    let s = prefix + seq!['.'] + d;
    let k: int = prefix.len() as int + 1;
    assert forall|j: int| k <= j < s.len() implies s[j] != '.' by {
        assert(s[j] == d[j - k]);
    }
    assert(s[k - 1] == '.');
    lemma_last_segment_from(s, k);
    assert(s.subrange(k, s.len() as int) =~= d);
    if d.len() > 0 && all_digits(d) {
        assert(d[0] != '+') by {
            assert(is_digit(d[0]));
        }
    }
}

/// Equality of two string slices, character by character.
pub fn str_eq(a: &str, b: &str) -> (r: bool)
    ensures
        r == (a@ == b@),
{
    let n = a.unicode_len();
    let m = b.unicode_len();
    if n != m {
        return false;
    }
    let mut i: usize = 0;
    while i < n
        invariant
            n == a@.len(),
            m == b@.len(),
            n == m,
            i <= n,
            forall|j: int| 0 <= j < i ==> a@[j] == b@[j],
        decreases n - i,
    {
        if a.get_char(i) != b.get_char(i) {
            return false;
        }
        i += 1;
    }
    assert(a@ =~= b@);
    true
}

/// The ordering key of a board address: its last dotted component parsed
/// as a byte, 0 where that fails.
pub fn octet_key(ip: &str) -> (k: u8)
    ensures
        k == octet_key_spec(ip@),
{
    let n = ip.unicode_len();
    // find where the last segment begins
    let mut start: usize = n;
    while start > 0
        invariant
            n == ip@.len(),
            start <= n,
            forall|j: int| start <= j < n ==> ip@[j] != '.',
        ensures
            start <= n,
            forall|j: int| start <= j < n ==> ip@[j] != '.',
            start == 0 || ip@[start - 1] == '.',
        decreases start,
    {
        if ip.get_char(start - 1) == '.' {
            break;
        }
        start -= 1;
    }
    proof {
        lemma_last_segment_from(ip@, start as int);
    }
    let ghost seg = ip@.subrange(start as int, n as int);
    let mut i = start;
    if i < n && ip.get_char(i) == '+' {
        i += 1;
    }
    let dstart = i;
    let ghost digits = ip@.subrange(dstart as int, n as int);
    assert(digits =~= (if seg.len() > 0 && seg[0] == '+' {
        seg.drop_first()
    } else {
        seg
    }));
    assert(octet_key_spec(ip@) == (if digits.len() > 0 && all_digits(digits) && decimal_value(
        digits,
    ) <= 255 {
        decimal_value(digits) as u8
    } else {
        0
    }));
    if dstart == n {
        return 0;
    }
    let mut acc: u32 = 0;
    while i < n
        invariant
            n == ip@.len(),
            dstart <= i <= n,
            digits == ip@.subrange(dstart as int, n as int),
            octet_key_spec(ip@) == (if digits.len() > 0 && all_digits(digits) && decimal_value(
                digits,
            ) <= 255 {
                decimal_value(digits) as u8
            } else {
                0
            }),
            all_digits(ip@.subrange(dstart as int, i as int)),
            acc as nat == cap(decimal_value(ip@.subrange(dstart as int, i as int))),
        decreases n - i,
    {
        let c = ip.get_char(i);
        let code = c as u32;
        if code < 48 || code > 57 {
            assert(digits[i - dstart] == c);
            assert(!all_digits(digits));
            return 0;
        }
        proof {
            lemma_decimal_push(ip@.subrange(dstart as int, i as int), c);
            assert(ip@.subrange(dstart as int, i as int).push(c) =~= ip@.subrange(
                dstart as int,
                i + 1,
            ));
        }
        let next = acc * 10 + (code - 48);
        acc = if next < 256 {
            next
        } else {
            256
        };
        i += 1;
    }
    assert(ip@.subrange(dstart as int, n as int) =~= digits);
    if acc <= 255 {
        acc as u8
    } else {
        0
    }
}

} // verus!
