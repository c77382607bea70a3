//! The address range of a line of `/proc/self/maps`: `begin-end perms ...`
//! with `begin` and `end` in hexadecimal.
use vstd::prelude::*;

verus! {

/// Is `c` an ASCII hexadecimal digit?
pub open spec fn is_hex_digit(c: u8) -> bool {
    (48 <= c <= 57) || (97 <= c <= 102) || (65 <= c <= 70)
}

/// The value of the hexadecimal digit `c`.
pub open spec fn hex_digit_value(c: u8) -> int {
    if 48 <= c <= 57 {
        c - 48
    } else if 97 <= c <= 102 {
        c - 87
    } else {
        c - 55
    }
}

/// The value of the hexadecimal numeral `s`.
pub open spec fn hex_value(s: Seq<u8>) -> int
    decreases s.len(),
{
    if s.len() == 0 {
        0
    } else {
        hex_value(s.drop_last()) * 16 + hex_digit_value(s.last())
    }
}

/// `s` is a numeral that `u64` can hold: one or more hex digits, value in range.
pub open spec fn is_hex_u64(s: Seq<u8>) -> bool {
    &&& s.len() > 0
    &&& forall|i: int| 0 <= i < s.len() ==> is_hex_digit(#[trigger] s[i])
    &&& hex_value(s) <= u64::MAX
}

/// The first position at or after `from`, and before `to`, that holds `c`;
/// `to` if there is none.
pub open spec fn find(s: Seq<u8>, c: u8, from: int, to: int) -> int
    decreases to - from,
{
    if from >= to {
        to
    } else if s[from] == c {
        from
    } else {
        find(s, c, from + 1, to)
    }
}

/// The range a maps line names: the first field (up to the first space)
/// holds `begin`, a dash, then `end` (up to a further dash, if any).
pub open spec fn spec_maps_range(line: Seq<u8>) -> Option<(u64, u64)> {
    let field_end = find(line, 32, 0, line.len() as int);
    let dash = find(line, 45, 0, field_end);
    let end_end = find(line, 45, dash + 1, field_end);
    let b = line.subrange(0, dash);
    let e = line.subrange(dash + 1, end_end);
    if dash < field_end && is_hex_u64(b) && is_hex_u64(e) {
        Some((hex_value(b) as u64, hex_value(e) as u64))
    } else {
        None
    }
}

proof fn lemma_find_bounds(s: Seq<u8>, c: u8, from: int, to: int)
    requires
        0 <= from,
        to <= s.len(),
    ensures
        from <= to ==> from <= find(s, c, from, to) <= to,
        from > to ==> find(s, c, from, to) == to,
    decreases to - from,
{
    if from < to && s[from] != c {
        lemma_find_bounds(s, c, from + 1, to);
    }
}

/// The first position in `[from, to)` of `line` that holds `c`, or `to`.
fn find_byte(line: &[u8], c: u8, from: usize, to: usize) -> (r: usize)
    requires
        from <= to <= line@.len(),
    ensures
        r == find(line@, c, from as int, to as int),
{
    let mut i = from;
    while i < to
        invariant
            from <= i <= to <= line@.len(),
            find(line@, c, i as int, to as int) == find(line@, c, from as int, to as int),
        decreases to - i,
    {
        if line[i] == c {
            return i;
        }
        i = i + 1;
    }
    i
}

/// The value of the hex numeral `line[from..to]`, if it is one that `u64`
/// can hold.
pub fn parse_hex(line: &[u8], from: usize, to: usize) -> (r: Option<u64>)
    requires
        from <= to <= line@.len(),
    ensures
        r is Some <==> is_hex_u64(line@.subrange(from as int, to as int)),
        r is Some ==> r->Some_0 == hex_value(line@.subrange(from as int, to as int)),
{
    let ghost s = line@.subrange(from as int, to as int);
    if from == to {
        return None;
    }
    let mut acc: u64 = 0;
    let mut i = from;
    while i < to
        invariant
            from <= i <= to <= line@.len(),
            s == line@.subrange(from as int, to as int),
            forall|j: int| from <= j < i ==> is_hex_digit(#[trigger] line@[j]),
            acc == hex_value(line@.subrange(from as int, i as int)),
        decreases to - i,
    {
        let c = line[i];
        let d: u64 = if 48 <= c && c <= 57 {
            (c - 48) as u64
        } else if 97 <= c && c <= 102 {
            (c - 87) as u64
        } else if 65 <= c && c <= 70 {
            (c - 55) as u64
        } else {
            proof {
                assert(!is_hex_digit(s[i - from]));
            }
            return None;
        };
        proof {
            assert(line@.subrange(from as int, i + 1).drop_last() =~= line@.subrange(
                from as int,
                i as int,
            ));
            lemma_hex_prefix_bound(s, (i - from + 1) as int);
            assert(line@.subrange(from as int, i + 1) =~= s.subrange(0, i - from + 1));
        }
        if acc > (u64::MAX - d) / 16 {
            proof {
                assert(hex_value(line@.subrange(from as int, i + 1)) > u64::MAX);
            }
            return None;
        }
        acc = acc * 16 + d;
        i = i + 1;
    }
    proof {
        assert(line@.subrange(from as int, i as int) =~= s);
    }
    Some(acc)
}

/// A prefix of a numeral of hex digits has a value no larger than the whole.
proof fn lemma_hex_prefix_bound(s: Seq<u8>, k: int)
    requires
        0 <= k <= s.len(),
    ensures
        (forall|i: int| 0 <= i < s.len() ==> is_hex_digit(#[trigger] s[i])) ==> hex_value(
            s.subrange(0, k),
        ) <= hex_value(s),
        hex_value(s.subrange(0, k)) >= 0 || !(forall|i: int|
            0 <= i < s.len() ==> is_hex_digit(#[trigger] s[i])),
    decreases s.len(),
{
    if forall|i: int| 0 <= i < s.len() ==> is_hex_digit(#[trigger] s[i]) {
        if k < s.len() {
            let t = s.drop_last();
            assert(forall|i: int| 0 <= i < t.len() ==> is_hex_digit(#[trigger] t[i])) by {
                assert forall|i: int| 0 <= i < t.len() implies is_hex_digit(#[trigger] t[i]) by {
                    assert(t[i] == s[i]);
                }
            }
            lemma_hex_prefix_bound(t, k);
            assert(t.subrange(0, k) =~= s.subrange(0, k));
            lemma_hex_nonneg(t);
        } else {
            assert(s.subrange(0, k) =~= s);
            lemma_hex_nonneg(s);
        }
    }
}

proof fn lemma_hex_nonneg(s: Seq<u8>)
    requires
        forall|i: int| 0 <= i < s.len() ==> is_hex_digit(#[trigger] s[i]),
    ensures
        hex_value(s) >= 0,
    decreases s.len(),
{
    if s.len() > 0 {
        let t = s.drop_last();
        assert forall|i: int| 0 <= i < t.len() implies is_hex_digit(#[trigger] t[i]) by {
            assert(t[i] == s[i]);
        }
        lemma_hex_nonneg(t);
    }
}

/// The address range a line of `/proc/self/maps` names, if it has one.
pub fn parse_maps_line(line: &[u8]) -> (r: Option<(u64, u64)>)
    ensures
        r == spec_maps_range(line@),
{
    let len = line.len();
    let field_end = find_byte(line, 32, 0, len);
    proof {
        lemma_find_bounds(line@, 32, 0, len as int);
    }
    let dash = find_byte(line, 45, 0, field_end);
    proof {
        lemma_find_bounds(line@, 45, 0, field_end as int);
    }
    if dash >= field_end {
        return None;
    }
    let end_end = find_byte(line, 45, dash + 1, field_end);
    proof {
        lemma_find_bounds(line@, 45, dash + 1, field_end as int);
    }
    let b = parse_hex(line, 0, dash);
    let e = parse_hex(line, dash + 1, end_end);
    match (b, e) {
        (Some(b), Some(e)) => Some((b, e)),
        _ => None,
    }
}

} // verus!
