//! Scanner for the flat `key = value` run description: one assignment per
//! line, `#`-prefixed lines ignored, repeated keys accumulated. Keys are
//! recognised by their length and their last two bytes, lowercased, and
//! each is routed to a fixed slot; the values are kept as raw bytes for the
//! caller to parse. The scanner works on the raw buffer and never panics.
use vstd::prelude::*;

verus! {

pub const EQUALS: u8 = 61;

pub const NEWLINE: u8 = 10;

pub const POUND: u8 = 35;

/// Number of recognised keys, plus one catch-all slot.
pub const SLOTS: usize = 26;

/// ASCII whitespace, as trimming treats it.
pub open spec fn is_space(b: u8) -> bool {
    b == 32 || (9 <= b && b <= 13)
}

/// ASCII lowercasing of one byte.
pub open spec fn lower(b: u8) -> u8 {
    if 65 <= b && b <= 90 {
        (b + 32) as u8
    } else {
        b
    }
}

/// ASCII lowercasing of a byte string.
pub open spec fn lowered(s: Seq<u8>) -> Seq<u8> {
    s.map_values(|b: u8| lower(b))
}

/// Leading whitespace dropped.
pub open spec fn trim_front(s: Seq<u8>) -> Seq<u8>
    decreases s.len(),
{
    if s.len() > 0 && is_space(s[0]) {
        trim_front(s.drop_first())
    } else {
        s
    }
}

/// Trailing whitespace dropped.
pub open spec fn trim_back(s: Seq<u8>) -> Seq<u8>
    decreases s.len(),
{
    if s.len() > 0 && is_space(s.last()) {
        trim_back(s.drop_last())
    } else {
        s
    }
}

/// Whitespace dropped from both ends.
pub open spec fn trimmed(s: Seq<u8>) -> Seq<u8> {
    trim_back(trim_front(s))
}

/// The slot a key's length and last two lowercased bytes select; unknown
/// keys land in the catch-all slot.
pub open spec fn slot_of(b0: u8, b1: u8, length: int) -> int {
    if b0 == 108 && b1 == 107 && length == 5 {
        0  // analk
    } else if b0 == 101 && b1 == 115 && length == 8 {
        1  // mattypes
    } else if b0 == 112 && b1 == 115 && length == 12 {
        2  // energygroups
    } else if b0 == 110 && b1 == 115 && length == 11 {
        3  // generations
    } else if b0 == 101 && b1 == 115 && length == 9 {
        4  // histories
    } else if b0 == 105 && b1 == 112 && length == 4 {
        5  // skip
    } else if b0 == 115 && b1 == 115 && length == 6 {
        6  // numass
    } else if b0 == 100 && b1 == 115 && length == 7 {
        7  // numrods
    } else if b0 == 105 && b1 == 97 && length == 6 {
        8  // roddia
    } else if b0 == 99 && b1 == 104 && length == 8 {
        9  // rodpitch
    } else if b0 == 102 && b1 == 114 && length == 4 {
        10  // mpfr
    } else if b0 == 119 && b1 == 114 && length == 4 {
        11  // mpwr
    } else if b0 == 100 && b1 == 108 && length == 6 {
        12  // boundl
    } else if b0 == 100 && b1 == 114 && length == 6 {
        13  // boundr
    } else if b0 == 103 && b1 == 116 && length == 4 {
        14  // sigt
    } else if b0 == 103 && b1 == 115 && length == 4 {
        15  // sigs
    } else if b0 == 109 && b1 == 117 && length == 2 {
        16  // mu
    } else if b0 == 103 && b1 == 97 && length == 4 {
        17  // siga
    } else if b0 == 103 && b1 == 102 && length == 4 {
        18  // sigf
    } else if b0 == 117 && b1 == 116 && length == 3 {
        19  // nut
    } else if b0 == 105 && b1 == 116 && length == 4 {
        20  // chit
    } else if b0 == 97 && b1 == 116 && length == 4 {
        21  // scat
    } else if b0 == 105 && b1 == 100 && length == 5 {
        22  // matid
    } else if b0 == 111 && b1 == 110 && length == 8 {
        23  // solution
    } else if b0 == 101 && b1 == 114 && length == 6 {
        24  // solver
    } else {
        25  // unknown
    }
}

/// The slot of a whole (trimmed, lowercased) key; keys shorter than two
/// bytes land in the catch-all slot.
pub open spec fn key_slot(key: Seq<u8>) -> int {
    if key.len() < 2 {
        25
    } else {
        slot_of(key[key.len() - 2], key[key.len() - 1], key.len() as int)
    }
}

/// Number of bytes from `pos` to the next newline, or to `end` when the
/// rest of the chunk holds none.
pub open spec fn line_len(s: Seq<u8>, pos: int, end: int) -> nat
    decreases end - pos,
{
    if pos >= end {
        0
    } else if s[pos] == NEWLINE {
        0
    } else {
        1 + line_len(s, pos + 1, end)
    }
}

/// The empty accumulator: one empty byte string per slot.
pub open spec fn empty_slots() -> Seq<Seq<u8>> {
    Seq::new(SLOTS as nat, |i: int| Seq::<u8>::empty())
}

/// One value appended to its slot, behind a single separating space.
pub open spec fn append_entry(acc: Seq<Seq<u8>>, slot: int, value: Seq<u8>) -> Seq<Seq<u8>> {
    acc.update(slot, acc[slot] + seq![32u8] + value)
}

/// The scanner's state machine over the buffer: `line_start` marks the
/// current line's beginning, and `name_end` / `val_start` hold the bounds
/// the last `=` sign set, surviving unchanged across lines without one. A
/// `#` jumps past its line (and, as the scanner's step order has it, past
/// the following line's first byte); an `=` records the key and value
/// bounds, with the key ending one byte before the `=` (the format writes
/// a space there); a newline stores the assignment when an `=` was seen
/// after the line's beginning.
pub open spec fn scan_step(
    s: Seq<u8>,
    pos: int,
    line_start: int,
    name_end: int,
    val_start: int,
    acc: Seq<Seq<u8>>,
) -> Seq<Seq<u8>>
    decreases s.len() - pos,
{
    if pos >= s.len() {
        acc
    } else if s[pos] == POUND {
        let ls = pos + line_len(s, pos, s.len() as int) + 1;
        let np = if ls + 1 <= s.len() {
            ls + 1
        } else {
            s.len() as int
        };
        scan_step(s, np, ls, name_end, val_start, acc)
    } else if s[pos] == EQUALS {
        let ne = if pos == 0 {
            0
        } else {
            pos - 1
        };
        scan_step(s, pos + 1, line_start, ne, pos + 1, acc)
    } else if s[pos] == NEWLINE {
        if name_end > line_start {
            let key = lowered(trimmed(s.subrange(line_start, name_end)));
            let value = trimmed(s.subrange(val_start, pos));
            scan_step(
                s,
                pos + 1,
                pos + 1,
                name_end,
                val_start,
                append_entry(acc, key_slot(key), value),
            )
        } else {
            scan_step(s, pos + 1, pos + 1, name_end, val_start, acc)
        }
    } else {
        scan_step(s, pos + 1, line_start, name_end, val_start, acc)
    }
}

/// What the scanner leaves in each slot, starting from empty slots.
pub open spec fn scan_result(s: Seq<u8>) -> Seq<Seq<u8>> {
    scan_step(s, 0, 0, 0, 0, empty_slots())
}

/// Every byte is a decimal digit.
pub open spec fn all_digits(s: Seq<u8>) -> bool {
    forall|i: int| 0 <= i < s.len() ==> 48 <= #[trigger] s[i] <= 57
}

/// The value of a decimal digit string.
pub open spec fn decimal_value(s: Seq<u8>) -> int
    decreases s.len(),
{
    if s.len() == 0 {
        0
    } else {
        10 * decimal_value(s.drop_last()) + (s.last() - 48)
    }
}

/// A digit string's value is non-negative.
proof fn lemma_decimal_nonneg(s: Seq<u8>)
    requires
        all_digits(s),
    ensures
        decimal_value(s) >= 0,
    decreases s.len(),
{
    if s.len() > 0 {
        assert(all_digits(s.drop_last()));
        lemma_decimal_nonneg(s.drop_last());
    }
}

/// A digit string is worth at least any of its prefixes.
proof fn lemma_decimal_prefix(s: Seq<u8>, i: int)
    requires
        all_digits(s),
        0 <= i <= s.len(),
    ensures
        decimal_value(s.take(i)) <= decimal_value(s),
    decreases s.len() - i,
{
    if i < s.len() {
        assert(s.take(i + 1).drop_last() =~= s.take(i));
        assert(all_digits(s.take(i)));
        lemma_decimal_nonneg(s.take(i));
        assert(decimal_value(s.take(i + 1)) == 10 * decimal_value(s.take(i)) + (s[i] - 48));
        lemma_decimal_prefix(s, i + 1);
        assert(s.take(s.len() as int) =~= s);
    } else {
        assert(s.take(i) =~= s);
    }
}

/// Reads an unsigned decimal number: the value exactly when the bytes are
/// one or more digits and the value fits a u64; nothing otherwise.
pub fn parse_unsigned(s: &[u8]) -> (r: Option<u64>)
    ensures
        match r {
            Some(n) => s@.len() > 0 && all_digits(s@) && n == decimal_value(s@),
            None => s@.len() == 0 || !all_digits(s@) || decimal_value(s@) > u64::MAX,
        },
{
    if s.len() == 0 {
        return None;
    }
    let mut acc: u64 = 0;
    let mut i: usize = 0;
    while i < s.len()
        invariant
            0 <= i <= s@.len(),
            all_digits(s@.take(i as int)),
            acc == decimal_value(s@.take(i as int)),
        decreases s@.len() - i,
    {
        let b = s[i];
        if b < 48 || b > 57 {
            return None;
        }
        proof {
            assert(s@.take(i as int + 1).drop_last() =~= s@.take(i as int));
        }
        let scaled = match acc.checked_mul(10) {
            Some(v) => v,
            None => {
                proof {
                    if all_digits(s@) {
                        lemma_decimal_prefix(s@, i as int + 1);
                    }
                }
                return None;
            },
        };
        let next = match scaled.checked_add((b - 48) as u64) {
            Some(v) => v,
            None => {
                proof {
                    if all_digits(s@) {
                        lemma_decimal_prefix(s@, i as int + 1);
                    }
                }
                return None;
            },
        };
        acc = next;
        i = i + 1;
    }
    proof {
        assert(s@.take(s@.len() as int) =~= s@);
    }
    Some(acc)
}

/// Advances past the current line: returns one past the next newline, or
/// one past `end` when no newline is left.
pub fn skip_line(pos: usize, end: usize, buffer: &[u8]) -> (r: usize)
    requires
        pos <= end,
        end <= buffer@.len(),
        end < usize::MAX,
    ensures
        r == pos + line_len(buffer@, pos as int, end as int) + 1,
        r <= end + 1,
{
    let mut p = pos;
    while p < end && buffer[p] != NEWLINE
        invariant
            pos <= p <= end,
            end <= buffer@.len(),
            pos + line_len(buffer@, pos as int, end as int) == p + line_len(
                buffer@,
                p as int,
                end as int,
            ),
        decreases end - p,
    {
        p = p + 1;
    }
    p + 1
}

/// The slot selected by a key's last two (lowercased) bytes and its length.
pub fn get_index(b0: u8, b1: u8, length: usize) -> (r: usize)
    ensures
        r == slot_of(b0, b1, length as int),
        r < SLOTS,
{
    if b0 == 108 && b1 == 107 && length == 5 {
        0
    } else if b0 == 101 && b1 == 115 && length == 8 {
        1
    } else if b0 == 112 && b1 == 115 && length == 12 {
        2
    } else if b0 == 110 && b1 == 115 && length == 11 {
        3
    } else if b0 == 101 && b1 == 115 && length == 9 {
        4
    } else if b0 == 105 && b1 == 112 && length == 4 {
        5
    } else if b0 == 115 && b1 == 115 && length == 6 {
        6
    } else if b0 == 100 && b1 == 115 && length == 7 {
        7
    } else if b0 == 105 && b1 == 97 && length == 6 {
        8
    } else if b0 == 99 && b1 == 104 && length == 8 {
        9
    } else if b0 == 102 && b1 == 114 && length == 4 {
        10
    } else if b0 == 119 && b1 == 114 && length == 4 {
        11
    } else if b0 == 100 && b1 == 108 && length == 6 {
        12
    } else if b0 == 100 && b1 == 114 && length == 6 {
        13
    } else if b0 == 103 && b1 == 116 && length == 4 {
        14
    } else if b0 == 103 && b1 == 115 && length == 4 {
        15
    } else if b0 == 109 && b1 == 117 && length == 2 {
        16
    } else if b0 == 103 && b1 == 97 && length == 4 {
        17
    } else if b0 == 103 && b1 == 102 && length == 4 {
        18
    } else if b0 == 117 && b1 == 116 && length == 3 {
        19
    } else if b0 == 105 && b1 == 116 && length == 4 {
        20
    } else if b0 == 97 && b1 == 116 && length == 4 {
        21
    } else if b0 == 105 && b1 == 100 && length == 5 {
        22
    } else if b0 == 111 && b1 == 110 && length == 8 {
        23
    } else if b0 == 101 && b1 == 114 && length == 6 {
        24
    } else {
        25
    }
}

/// Copies `buffer[from..to]` with whitespace trimmed from both ends,
/// lowercased when `lower_case` is set.
fn trimmed_copy(buffer: &[u8], from: usize, to: usize, lower_case: bool) -> (r: Vec<u8>)
    requires
        from <= to <= buffer@.len(),
    ensures
        r@ == if lower_case {
            lowered(trimmed(buffer@.subrange(from as int, to as int)))
        } else {
            trimmed(buffer@.subrange(from as int, to as int))
        },
{
    let ghost orig = buffer@.subrange(from as int, to as int);
    let mut lo = from;
    let mut hi = to;
    while lo < hi && (buffer[lo] == 32 || (9 <= buffer[lo] && buffer[lo] <= 13))
        invariant
            from <= lo <= hi <= buffer@.len(),
            hi == to,
            trim_front(orig) == trim_front(buffer@.subrange(lo as int, to as int)),
        decreases hi - lo,
    {
        proof {
            assert(buffer@.subrange(lo as int, to as int).drop_first() =~= buffer@.subrange(
                lo as int + 1,
                to as int,
            ));
        }
        lo = lo + 1;
    }
    proof {
        assert(trim_front(orig) == buffer@.subrange(lo as int, to as int));
    }
    while hi > lo && (buffer[hi - 1] == 32 || (9 <= buffer[hi - 1] && buffer[hi - 1] <= 13))
        invariant
            from <= lo <= hi <= buffer@.len(),
            trim_front(orig) == buffer@.subrange(lo as int, to as int),
            trim_back(buffer@.subrange(lo as int, to as int)) == trim_back(
                buffer@.subrange(lo as int, hi as int),
            ),
        decreases hi - lo,
    {
        proof {
            assert(buffer@.subrange(lo as int, hi as int).drop_last() =~= buffer@.subrange(
                lo as int,
                hi as int - 1,
            ));
        }
        hi = hi - 1;
    }
    proof {
        assert(trimmed(orig) == buffer@.subrange(lo as int, hi as int));
    }
    let mut out: Vec<u8> = Vec::new();
    let mut i = lo;
    while i < hi
        invariant
            lo <= i <= hi <= buffer@.len(),
            out@ == if lower_case {
                lowered(buffer@.subrange(lo as int, i as int))
            } else {
                buffer@.subrange(lo as int, i as int)
            },
        decreases hi - i,
    {
        let b = buffer[i];
        if lower_case && 65 <= b && b <= 90 {
            out.push(b + 32);
        } else {
            out.push(b);
        }
        proof {
            if lower_case {
                assert(lowered(buffer@.subrange(lo as int, i as int + 1)) =~= lowered(
                    buffer@.subrange(lo as int, i as int),
                ).push(lower(buffer@[i as int])));
            } else {
                assert(buffer@.subrange(lo as int, i as int + 1) =~= buffer@.subrange(
                    lo as int,
                    i as int,
                ).push(buffer@[i as int]));
            }
        }
        i = i + 1;
    }
    out
}

/// Scans one chunk of the run description and accumulates each recognised
/// assignment's value, as raw bytes, into its key's slot.
pub fn scan_ascii_chunk(buffer: &[u8]) -> (r: Vec<Vec<u8>>)
    requires
        buffer@.len() + 2 <= usize::MAX,
    ensures
        r@.len() == SLOTS,
        r@.map_values(|v: Vec<u8>| v@) == scan_result(buffer@),
{
    let end = buffer.len();
    let mut acc: Vec<Vec<u8>> = Vec::new();
    let mut s: usize = 0;
    while s < SLOTS
        invariant
            s <= SLOTS,
            acc@.len() == s,
            forall|k: int| 0 <= k < s ==> #[trigger] acc@[k]@ == Seq::<u8>::empty(),
        decreases SLOTS - s,
    {
        acc.push(Vec::new());
        s = s + 1;
    }
    proof {
        assert(acc@.map_values(|v: Vec<u8>| v@) =~= empty_slots());
    }

    let mut pos: usize = 0;
    let mut line_start: usize = 0;
    let mut name_end: usize = 0;
    let mut val_start: usize = 0;
    while pos < end
        invariant
            end == buffer@.len(),
            end + 2 <= usize::MAX,
            name_end <= pos,
            val_start <= pos,
            acc@.len() == SLOTS,
            scan_step(
                buffer@,
                pos as int,
                line_start as int,
                name_end as int,
                val_start as int,
                acc@.map_values(|v: Vec<u8>| v@),
            ) == scan_result(buffer@),
        decreases end - pos,
    {
        let b = buffer[pos];
        if b == POUND {
            let skipped = skip_line(pos, end, buffer);
            line_start = skipped;
            pos = if skipped + 1 <= end {
                skipped + 1
            } else {
                end
            };
        } else if b == EQUALS {
            name_end = if pos == 0 {
                0
            } else {
                pos - 1
            };
            val_start = pos + 1;
            pos = pos + 1;
        } else if b == NEWLINE {
            if name_end > line_start {
                let ghost before = acc@.map_values(|v: Vec<u8>| v@);
                let key = trimmed_copy(buffer, line_start, name_end, true);
                let value = trimmed_copy(buffer, val_start, pos, false);
                let slot = if key.len() < 2 {
                    25
                } else {
                    get_index(key[key.len() - 2], key[key.len() - 1], key.len())
                };
                let mut entry: Vec<u8> = Vec::new();
                entry.extend_from_slice(acc[slot].as_slice());
                entry.push(32u8);
                entry.extend_from_slice(value.as_slice());
                acc.set(slot, entry);
                proof {
                    let ghost k = lowered(
                        trimmed(buffer@.subrange(line_start as int, name_end as int)),
                    );
                    assert(key@ == k);
                    assert(slot == key_slot(k));
                    assert(acc@.map_values(|v: Vec<u8>| v@) =~~= append_entry(
                        before,
                        slot as int,
                        value@,
                    ));
                }
            }
            line_start = pos + 1;
            pos = pos + 1;
        } else {
            pos = pos + 1;
        }
    }
    acc
}

} // verus!
