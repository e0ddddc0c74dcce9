//! The structure of the mesh text format that fonts are stored in: groups
//! opened by `g `, whose first line names the mesh, whose `v ` lines hold
//! vertices and whose `f ` lines hold 1-based vertex numbers counted over the
//! whole file. This module finds the groups, names, vertex lines and face
//! indices; the vertex coordinates are read by the caller.
use vstd::prelude::*;

verus! {

/// A group mark `g ` starts at `p`.
pub open spec fn is_group_mark(d: Seq<u8>, p: int) -> bool {
    0 <= p && p + 1 < d.len() && d[p] == 0x67u8 && d[p + 1] == 0x20u8
}

/// Positions of the group marks that start below `n`, in order.
pub open spec fn marks_below(d: Seq<u8>, n: int) -> Seq<int>
    decreases n,
{
    if n <= 0 {
        Seq::empty()
    } else if is_group_mark(d, n - 1) {
        marks_below(d, n - 1).push(n - 1)
    } else {
        marks_below(d, n - 1)
    }
}

/// Positions of all group marks in `d`, in order.
pub open spec fn group_marks(d: Seq<u8>) -> Seq<int> {
    marks_below(d, d.len() as int)
}

/// The text of group `k`: from just after its mark to the next mark, or to
/// the end.
pub open spec fn group_range(d: Seq<u8>, k: int) -> (int, int) {
    let m = group_marks(d);
    (m[k] + 2, if k + 1 < m.len() { m[k + 1] } else { d.len() as int })
}

/// Line `[p, q)` without the carriage return of a `\r\n` ending at `q`.
pub open spec fn strip_cr(d: Seq<u8>, p: int, q: int) -> (int, int) {
    if q > p && d[q - 1] == 0x0du8 {
        (p, q - 1)
    } else {
        (p, q)
    }
}

/// First line feed in `[p, e)`, or `e` when there is none.
pub open spec fn next_newline(d: Seq<u8>, p: int, e: int) -> int
    decreases e - p,
{
    if p >= e {
        e
    } else if d[p] == 0x0au8 {
        p
    } else {
        next_newline(d, p + 1, e)
    }
}

/// The lines of `[p, e)`: split after each line feed; a line that ends in a
/// line feed loses it and a carriage return before it; an empty last line
/// is no line.
pub open spec fn lines_from(d: Seq<u8>, p: int, e: int) -> Seq<(int, int)>
    decreases e - p,
{
    if p >= e {
        Seq::empty()
    } else {
        let q = next_newline(d, p, e);
        proof {
            lemma_next_newline(d, p, e);
        }
        if q < e {
            seq![strip_cr(d, p, q)] + lines_from(d, q + 1, e)
        } else {
            seq![(p, e)]
        }
    }
}

pub proof fn lemma_next_newline(d: Seq<u8>, p: int, e: int)
    requires
        p <= e,
    ensures
        p <= next_newline(d, p, e) <= e,
        forall|i: int| p <= i < next_newline(d, p, e) ==> d[i] != 0x0au8,
        next_newline(d, p, e) < e ==> d[next_newline(d, p, e)] == 0x0au8,
    decreases e - p,
{
    if p < e && d[p] != 0x0au8 {
        lemma_next_newline(d, p + 1, e);
    }
}

proof fn lemma_next_newline_skip(d: Seq<u8>, p: int, i: int, e: int)
    requires
        p <= i <= e,
        forall|j: int| p <= j < i ==> d[j] != 0x0au8,
    ensures
        next_newline(d, p, e) == next_newline(d, i, e),
    decreases i - p,
{
    if p < i {
        lemma_next_newline_skip(d, p + 1, i, e);
    }
}

/// Positions of the group marks in `d`.
fn find_group_marks(d: &[u8]) -> (marks: Vec<usize>)
    ensures
        marks@.len() == group_marks(d@).len(),
        forall|k: int| 0 <= k < marks@.len() ==> marks@[k] == group_marks(d@)[k],
{
    let mut marks: Vec<usize> = Vec::new();
    let mut i: usize = 0;
    while i < d.len()
        invariant
            i <= d@.len(),
            marks@.len() == marks_below(d@, i as int).len(),
            forall|k: int| 0 <= k < marks@.len() ==> marks@[k] == marks_below(d@, i as int)[k],
        decreases d@.len() - i,
    {
        if i + 1 < d.len() && d[i] == 0x67u8 && d[i + 1] == 0x20u8 {
            marks.push(i);
        }
        i = i + 1;
    }
    marks
}

/// The lines of `[s, e)`.
fn line_ranges(d: &[u8], s: usize, e: usize) -> (lines: Vec<(usize, usize)>)
    requires
        s <= e <= d@.len(),
    ensures
        lines@.len() == lines_from(d@, s as int, e as int).len(),
        forall|k: int|
            0 <= k < lines@.len() ==> lines@[k].0 == lines_from(d@, s as int, e as int)[k].0
                && lines@[k].1 == lines_from(d@, s as int, e as int)[k].1,
{
    let mut lines: Vec<(usize, usize)> = Vec::new();
    let ghost all = lines_from(d@, s as int, e as int);
    let mut p: usize = s;
    let mut q: usize = s;
    while q < e
        invariant
            s <= p <= q <= e <= d@.len(),
            forall|j: int| p <= j < q ==> d@[j] != 0x0au8,
            lines@.len() + lines_from(d@, p as int, e as int).len() == all.len(),
            forall|k: int|
                0 <= k < lines@.len() ==> lines@[k].0 == all[k].0 && lines@[k].1 == all[k].1,
            forall|k: int|
                0 <= k < lines_from(d@, p as int, e as int).len() ==> lines_from(
                    d@,
                    p as int,
                    e as int,
                )[k] == all[lines@.len() + k],
        decreases e - q,
    {
        if d[q] == 0x0au8 {
            proof {
                lemma_next_newline_skip(d@, p as int, q as int, e as int);
                assert(lines_from(d@, p as int, e as int) == seq![
                    strip_cr(d@, p as int, q as int),
                ] + lines_from(d@, q + 1, e as int));
            }
            let end = if q > p && d[q - 1] == 0x0du8 {
                q - 1
            } else {
                q
            };
            let ghost before = lines@;
            let ghost rest = lines_from(d@, q + 1, e as int);
            proof {
                assert(lines_from(d@, p as int, e as int)[0] == strip_cr(d@, p as int, q as int));
                assert(all[before.len() as int] == strip_cr(d@, p as int, q as int));
                assert forall|k: int| 0 <= k < rest.len() implies rest[k] == all[before.len() + 1
                    + k] by {
                    assert(rest[k] == lines_from(d@, p as int, e as int)[k + 1]);
                }
            }
            lines.push((p, end));
            p = q + 1;
            q = q + 1;
        } else {
            q = q + 1;
        }
    }
    if p < e {
        proof {
            lemma_next_newline_skip(d@, p as int, e as int, e as int);
            assert(lines_from(d@, p as int, e as int) == seq![(p as int, e as int)]);
            assert(lines_from(d@, p as int, e as int)[0] == (p as int, e as int));
            assert(all[lines@.len() + 0int] == (p as int, e as int));
        }
        lines.push((p, e));
    } else {
        proof {
            assert(lines_from(d@, p as int, e as int).len() == 0);
        }
    }
    lines
}

/// Length of the whitespace character that starts at `p` within `[p, b)`,
/// or 0 when none does: the ASCII tab, line feed, vertical tab, form feed,
/// carriage return and space, and the UTF-8 encodings of the other Unicode
/// white space characters (U+0085, U+00A0, U+1680, U+2000 to U+200A,
/// U+2028, U+2029, U+202F, U+205F, U+3000).
pub open spec fn ws_len(d: Seq<u8>, p: int, b: int) -> int {
    if !(0 <= p < b) {
        0
    } else if d[p] == 9 || d[p] == 10 || d[p] == 11 || d[p] == 12 || d[p] == 13 || d[p] == 32 {
        1
    } else if p + 1 < b && d[p] == 0xc2 && (d[p + 1] == 0x85 || d[p + 1] == 0xa0) {
        2
    } else if p + 2 < b && ((d[p] == 0xe1 && d[p + 1] == 0x9a && d[p + 2] == 0x80) || (d[p]
        == 0xe2 && d[p + 1] == 0x80 && ((0x80 <= d[p + 2] && d[p + 2] <= 0x8a) || d[p + 2]
        == 0xa8 || d[p + 2] == 0xa9 || d[p + 2] == 0xaf)) || (d[p] == 0xe2 && d[p + 1] == 0x81
        && d[p + 2] == 0x9f) || (d[p] == 0xe3 && d[p + 1] == 0x80 && d[p + 2] == 0x80)) {
        3
    } else {
        0
    }
}

/// End of the run of non-whitespace bytes that starts at `p`.
pub open spec fn token_end(d: Seq<u8>, p: int, b: int) -> int
    decreases b - p,
{
    if p >= b || ws_len(d, p, b) > 0 {
        p
    } else {
        token_end(d, p + 1, b)
    }
}

pub proof fn lemma_token_end(d: Seq<u8>, p: int, b: int)
    requires
        p <= b,
    ensures
        p <= token_end(d, p, b) <= b,
        forall|i: int| p <= i < token_end(d, p, b) ==> ws_len(d, i, b) == 0,
        token_end(d, p, b) < b ==> ws_len(d, token_end(d, p, b), b) > 0,
    decreases b - p,
{
    if p < b && ws_len(d, p, b) == 0 {
        lemma_token_end(d, p + 1, b);
    }
}

/// The whitespace-separated words of `[p, b)`.
pub open spec fn tokens_from(d: Seq<u8>, p: int, b: int) -> Seq<(int, int)>
    decreases b - p,
{
    if p >= b {
        Seq::empty()
    } else if ws_len(d, p, b) > 0 {
        tokens_from(d, p + ws_len(d, p, b), b)
    } else {
        let q = token_end(d, p, b);
        proof {
            lemma_token_end(d, p + 1, b);
        }
        seq![(p, q)] + tokens_from(d, q, b)
    }
}

/// Decimal value of the digits in `[s, q)`.
pub open spec fn digits_value(d: Seq<u8>, s: int, q: int) -> int
    decreases q - s,
{
    if q <= s {
        0
    } else {
        digits_value(d, s, q - 1) * 10 + (d[q - 1] - 48)
    }
}

/// All bytes of `[s, q)` are ASCII digits.
pub open spec fn all_digits(d: Seq<u8>, s: int, q: int) -> bool {
    forall|i: int| s <= i < q ==> 48 <= #[trigger] d[i] <= 57
}

/// The unsigned 32-bit number written in `[p, q)`: an optional `+`, then
/// one or more decimal digits, with a value that fits; `None` otherwise.
pub open spec fn parse_u32_spec(d: Seq<u8>, p: int, q: int) -> Option<u32> {
    let s = if p < q && d[p] == 43 {
        p + 1
    } else {
        p
    };
    if s < q && all_digits(d, s, q) && digits_value(d, s, q) <= u32::MAX {
        Some(digits_value(d, s, q) as u32)
    } else {
        None
    }
}

/// The numbers of a face line's text `[a, b)`, one per word; `None` when a
/// word is not a number.
pub open spec fn face_values_spec(d: Seq<u8>, a: int, b: int) -> Option<Seq<u32>> {
    let ts = tokens_from(d, a, b);
    if forall|k: int| 0 <= k < ts.len() ==> (#[trigger] parse_u32_spec(d, ts[k].0, ts[k].1)) is Some {
        Some(Seq::new(ts.len(), |k: int| parse_u32_spec(d, ts[k].0, ts[k].1).unwrap()))
    } else {
        None
    }
}

proof fn lemma_digits_value_grows(d: Seq<u8>, s: int, i: int, q: int)
    requires
        s <= i <= q,
        all_digits(d, s, q),
    ensures
        0 <= digits_value(d, s, i) <= digits_value(d, s, q),
    decreases q - i,
{
    if i < q {
        lemma_digits_value_grows(d, s, i, q - 1);
        lemma_digits_value_nonneg(d, s, q - 1);
    } else {
        lemma_digits_value_nonneg(d, s, q);
    }
}

proof fn lemma_digits_value_nonneg(d: Seq<u8>, s: int, q: int)
    requires
        all_digits(d, s, q),
    ensures
        0 <= digits_value(d, s, q),
    decreases q - s,
{
    if q > s {
        lemma_digits_value_nonneg(d, s, q - 1);
    }
}

/// Ten to the power `n`.
pub open spec fn pow10(n: nat) -> int
    decreases n,
{
    if n == 0 {
        1
    } else {
        10 * pow10((n - 1) as nat)
    }
}

/// The decimal value of the digits in `[s, q)`: the sum of each digit times
/// ten to the power of the number of digits after it.
pub open spec fn decimal_value(d: Seq<u8>, s: int, q: int) -> int
    decreases q - s,
{
    if q <= s {
        0
    } else {
        (d[s] - 48) * pow10((q - 1 - s) as nat) + decimal_value(d, s + 1, q)
    }
}

proof fn lemma_decimal_value_last(d: Seq<u8>, s: int, q: int)
    requires
        s < q,
    ensures
        decimal_value(d, s, q) == decimal_value(d, s, q - 1) * 10 + (d[q - 1] - 48),
    decreases q - s,
{
    if s < q - 1 {
        lemma_decimal_value_last(d, s + 1, q);
        let a = d[s] - 48;
        let p = pow10((q - 2 - s) as nat);
        assert(pow10((q - 1 - s) as nat) == 10 * p);
        assert(a * (10 * p) == (a * p) * 10) by (nonlinear_arith);
        assert(decimal_value(d, s, q - 1) == a * p + decimal_value(d, s + 1, q - 1));
    } else {
        assert(decimal_value(d, s + 1, q) == 0);
        assert(pow10(0) == 1);
        assert(decimal_value(d, s, q - 1) == 0);
    }
}

proof fn lemma_digits_value_is_decimal(d: Seq<u8>, s: int, q: int)
    ensures
        digits_value(d, s, q) == decimal_value(d, s, q),
    decreases q - s,
{
    if s < q {
        lemma_digits_value_is_decimal(d, s, q - 1);
        lemma_decimal_value_last(d, s, q);
    }
}

/// Face words are decimal: a word that is read as a number is an optional
/// `+` and then decimal digits, and its number is their decimal value; every
/// such word whose value fits in 32 bits is read. A face word `10` therefore
/// stands for vertex ten, index 9 of a file's vertices.
pub proof fn law_face_words_are_decimal(d: Seq<u8>, p: int, q: int)
    requires
        0 <= p <= q <= d.len(),
    ensures
        ({
            let s = if p < q && d[p] == 43 {
                p + 1
            } else {
                p
            };
            &&& parse_u32_spec(d, p, q) matches Some(v) ==> {
                &&& s < q
                &&& forall|i: int| s <= i < q ==> 48 <= #[trigger] d[i] <= 57
                &&& v == decimal_value(d, s, q)
            }
            &&& (s < q && (forall|i: int| s <= i < q ==> 48 <= #[trigger] d[i] <= 57)
                && decimal_value(d, s, q) <= u32::MAX) ==> parse_u32_spec(d, p, q) == Some(
                decimal_value(d, s, q) as u32,
            )
        }),
{
    let s = if p < q && d[p] == 43 {
        p + 1
    } else {
        p
    };
    lemma_digits_value_is_decimal(d, s, q);
    if all_digits(d, s, q) {
        lemma_digits_value_nonneg(d, s, q);
    }
}

/// Length of the whitespace character at `p` within `[p, b)`.
fn whitespace_len(d: &[u8], p: usize, b: usize) -> (n: usize)
    requires
        b <= d@.len(),
    ensures
        n == ws_len(d@, p as int, b as int),
{
    if p >= b {
        return 0;
    }
    let c = d[p];
    if c == 9 || c == 10 || c == 11 || c == 12 || c == 13 || c == 32 {
        1
    } else if p + 1 < b && c == 0xc2 && (d[p + 1] == 0x85 || d[p + 1] == 0xa0) {
        2
    } else if b - p > 2 {
        let c1 = d[p + 1];
        let c2 = d[p + 2];
        if (c == 0xe1 && c1 == 0x9a && c2 == 0x80) || (c == 0xe2 && c1 == 0x80 && ((0x80 <= c2
            && c2 <= 0x8a) || c2 == 0xa8 || c2 == 0xa9 || c2 == 0xaf)) || (c == 0xe2 && c1 == 0x81
            && c2 == 0x9f) || (c == 0xe3 && c1 == 0x80 && c2 == 0x80) {
            3
        } else {
            0
        }
    } else {
        0
    }
}

/// The number written in `[p, q)`, if it is one.
fn parse_u32(d: &[u8], p: usize, q: usize) -> (r: Option<u32>)
    requires
        p <= q <= d@.len(),
    ensures
        r == parse_u32_spec(d@, p as int, q as int),
{
    let s = if p < q && d[p] == 43 {
        p + 1
    } else {
        p
    };
    if s >= q {
        return None;
    }
    let mut value: u64 = 0;
    let mut i: usize = s;
    while i < q
        invariant
            s <= i <= q <= d@.len(),
            s < q,
            s == (if p < q && d@[p as int] == 43 {
                p + 1
            } else {
                p as int
            }),
            all_digits(d@, s as int, i as int),
            value == digits_value(d@, s as int, i as int),
            value <= u32::MAX,
        decreases q - i,
    {
        let c = d[i];
        if c < 48 || c > 57 {
            proof {
                assert(!(48 <= d@[i as int] <= 57));
                assert(!all_digits(d@, s as int, q as int));
            }
            return None;
        }
        let next = value * 10 + (c - 48) as u64;
        if next > 4294967295u64 {
            proof {
                assert(all_digits(d@, s as int, i + 1));
                assert(digits_value(d@, s as int, i + 1) == next);
                if all_digits(d@, s as int, q as int) {
                    lemma_digits_value_grows(d@, s as int, i + 1, q as int);
                }
            }
            return None;
        }
        value = next;
        i = i + 1;
    }
    Some(value as u32)
}

proof fn lemma_ws_len_bound(d: Seq<u8>, p: int, b: int)
    ensures
        0 <= ws_len(d, p, b),
        ws_len(d, p, b) > 0 ==> p + ws_len(d, p, b) <= b,
{
}

/// The numbers of a face line's text `[a, b)`, if every word is one.
fn face_values(d: &[u8], a: usize, b: usize) -> (r: Option<Vec<u32>>)
    requires
        a <= b <= d@.len(),
    ensures
        match r {
            Some(v) => face_values_spec(d@, a as int, b as int) == Some(v@),
            None => face_values_spec(d@, a as int, b as int) is None,
        },
{
    let ghost all = tokens_from(d@, a as int, b as int);
    let mut vals: Vec<u32> = Vec::new();
    let mut p: usize = a;
    while p < b
        invariant
            a <= p <= b <= d@.len(),
            all == tokens_from(d@, a as int, b as int),
            vals@.len() + tokens_from(d@, p as int, b as int).len() == all.len(),
            forall|k: int|
                0 <= k < vals@.len() ==> parse_u32_spec(d@, all[k].0, all[k].1) == Some(vals@[k]),
            forall|k: int|
                0 <= k < tokens_from(d@, p as int, b as int).len() ==> tokens_from(
                    d@,
                    p as int,
                    b as int,
                )[k] == all[vals@.len() + k],
        decreases b - p,
    {
        let w = whitespace_len(d, p, b);
        proof {
            lemma_ws_len_bound(d@, p as int, b as int);
        }
        if w > 0 {
            p = p + w;
        } else {
            let mut q: usize = p + 1;
            proof {
                lemma_token_end(d@, q as int, b as int);
            }
            loop
                invariant
                    p < q <= b <= d@.len(),
                    ws_len(d@, p as int, b as int) == 0,
                    token_end(d@, p as int, b as int) == token_end(d@, q as int, b as int),
                ensures
                    p < q <= b <= d@.len(),
                    token_end(d@, p as int, b as int) == token_end(d@, q as int, b as int),
                    q == b || ws_len(d@, q as int, b as int) > 0,
                decreases b - q,
            {
                if q >= b {
                    break;
                }
                if whitespace_len(d, q, b) > 0 {
                    break;
                }
                q = q + 1;
            }
            let ghost before = vals@;
            let ghost rest = tokens_from(d@, q as int, b as int);
            proof {
                assert(token_end(d@, q as int, b as int) == q);
                assert(tokens_from(d@, p as int, b as int) == seq![(p as int, q as int)] + rest);
                assert(tokens_from(d@, p as int, b as int)[0] == (p as int, q as int));
                assert(all[before.len() + 0int] == (p as int, q as int));
                assert forall|k: int| 0 <= k < rest.len() implies rest[k] == all[before.len() + 1
                    + k] by {
                    assert(rest[k] == tokens_from(d@, p as int, b as int)[k + 1]);
                }
            }
            match parse_u32(d, p, q) {
                Some(v) => {
                    vals.push(v);
                },
                None => {
                    proof {
                        let k = before.len() as int;
                        assert(parse_u32_spec(d@, all[k].0, all[k].1) is None);
                        assert(0 <= k < all.len());
                    }
                    return None;
                },
            }
            p = q;
        }
    }
    proof {
        assert(vals@.len() == all.len());
        assert forall|k: int| 0 <= k < all.len() implies (#[trigger] parse_u32_spec(
            d@,
            all[k].0,
            all[k].1,
        )) is Some by {
            assert(parse_u32_spec(d@, all[k].0, all[k].1) == Some(vals@[k]));
        }
        assert(Seq::new(all.len(), |k: int| parse_u32_spec(d@, all[k].0, all[k].1).unwrap())
            =~= vals@);
    }
    Some(vals)
}

/// Line `r` starts with the two bytes `c0 c1`.
pub open spec fn line_starts_with(d: Seq<u8>, r: (int, int), c0: u8, c1: u8) -> bool {
    r.1 - r.0 >= 2 && d[r.0] == c0 && d[r.0 + 1] == c1
}

/// Line `r` is a vertex line (`v ` first).
pub open spec fn is_vertex_line(d: Seq<u8>, r: (int, int)) -> bool {
    line_starts_with(d, r, 0x76u8, 0x20u8)
}

/// Line `r` is a face line (`f ` first).
pub open spec fn is_face_line(d: Seq<u8>, r: (int, int)) -> bool {
    line_starts_with(d, r, 0x66u8, 0x20u8)
}

/// Line `r` ends in `_Mesh`.
pub open spec fn ends_with_mesh_suffix(d: Seq<u8>, r: (int, int)) -> bool {
    &&& r.1 - r.0 >= 5
    &&& d[r.1 - 5] == 0x5fu8
    &&& d[r.1 - 4] == 0x4du8
    &&& d[r.1 - 3] == 0x65u8
    &&& d[r.1 - 2] == 0x73u8
    &&& d[r.1 - 1] == 0x68u8
}

/// The name of the group whose text is `[s, e)`: its first line without
/// the `_Mesh` suffix; `None` (the name `Default`) when the first line does
/// not end in it; the empty range when the group has no line at all.
pub open spec fn group_name(d: Seq<u8>, s: int, e: int) -> Option<(int, int)> {
    let ls = lines_from(d, s, e);
    if ls.len() == 0 {
        Some((s, s))
    } else if ends_with_mesh_suffix(d, ls[0]) {
        Some((ls[0].0, ls[0].1 - 5))
    } else {
        None
    }
}

/// The coordinate text (after `v `) of the vertex lines among lines 1 to
/// `n - 1` of `ls`.
pub open spec fn vertex_lines_upto(d: Seq<u8>, ls: Seq<(int, int)>, n: int) -> Seq<(int, int)>
    decreases n,
{
    if n <= 1 {
        Seq::empty()
    } else {
        let prev = vertex_lines_upto(d, ls, n - 1);
        if is_vertex_line(d, ls[n - 1]) {
            prev.push((ls[n - 1].0 + 2, ls[n - 1].1))
        } else {
            prev
        }
    }
}

/// The numbers of the face lines among lines 1 to `n - 1` of `ls`, in
/// order; `None` when one of their words is not a number.
pub open spec fn raw_faces_upto(d: Seq<u8>, ls: Seq<(int, int)>, n: int) -> Option<Seq<u32>>
    decreases n,
{
    if n <= 1 {
        Some(Seq::empty())
    } else {
        match raw_faces_upto(d, ls, n - 1) {
            None => None,
            Some(f) => {
                let r = ls[n - 1];
                if !is_vertex_line(d, r) && is_face_line(d, r) {
                    match face_values_spec(d, r.0 + 2, r.1) {
                        None => None,
                        Some(v) => Some(f + v),
                    }
                } else {
                    Some(f)
                }
            },
        }
    }
}

/// Face numbers made 0-based and relative to the group: `f - 1 - offset`.
pub open spec fn rebased(fs: Seq<u32>, offset: u32) -> Seq<u32> {
    fs.map_values(|f: u32| (f - 1 - offset) as u32)
}

/// Every face number names a vertex of this group or a later one.
pub open spec fn rebase_ok(fs: Seq<u32>, offset: u32) -> bool {
    forall|k: int| 0 <= k < fs.len() ==> fs[k] >= 1 + offset
}

/// A group read from the text: its name, the coordinate text of its vertex
/// lines, and its face indices.
pub type GroupView = (Option<(int, int)>, Seq<(int, int)>, Seq<u32>);

/// Reads the group `[s, e)`, whose vertices come after `offset` vertices of
/// earlier groups: the group and the vertex count after it, or `None` when
/// a face word is not a number, a face number names no vertex of this or a
/// later group, or the vertex count passes `u32::MAX`.
pub open spec fn group_step(d: Seq<u8>, s: int, e: int, offset: u32) -> Option<(GroupView, u32)> {
    let ls = lines_from(d, s, e);
    match raw_faces_upto(d, ls, ls.len() as int) {
        None => None,
        Some(fs) => {
            if !rebase_ok(fs, offset) {
                None
            } else {
                let vl = vertex_lines_upto(d, ls, ls.len() as int);
                let added = vl.len() as u32;
                if offset + added > u32::MAX {
                    None
                } else {
                    Some(((group_name(d, s, e), vl, rebased(fs, offset)), (offset + added) as u32))
                }
            }
        },
    }
}

/// The first `k` groups of `d` and the vertex count after them.
pub open spec fn groups_upto(d: Seq<u8>, k: int) -> Option<(Seq<GroupView>, u32)>
    decreases k,
{
    if k <= 0 {
        Some((Seq::empty(), 0u32))
    } else {
        match groups_upto(d, k - 1) {
            None => None,
            Some((gs, offset)) => {
                let (s, e) = group_range(d, k - 1);
                match group_step(d, s, e, offset) {
                    None => None,
                    Some((g, next)) => Some((gs.push(g), next)),
                }
            },
        }
    }
}

/// All groups of `d`, or `None` when one of them cannot be read.
pub open spec fn mesh_groups_spec(d: Seq<u8>) -> Option<Seq<GroupView>> {
    match groups_upto(d, group_marks(d).len() as int) {
        None => None,
        Some((gs, _)) => Some(gs),
    }
}

proof fn lemma_lines_bounds(d: Seq<u8>, p: int, e: int)
    requires
        p <= e,
    ensures
        forall|k: int|
            0 <= k < lines_from(d, p, e).len() ==> p <= #[trigger] lines_from(d, p, e)[k].0
                <= lines_from(d, p, e)[k].1 <= e,
    decreases e - p,
{
    if p < e {
        lemma_next_newline(d, p, e);
        let q = next_newline(d, p, e);
        if q < e {
            lemma_lines_bounds(d, q + 1, e);
            assert forall|k: int|
                0 <= k < lines_from(d, p, e).len() implies p <= #[trigger] lines_from(
                d,
                p,
                e,
            )[k].0 <= lines_from(d, p, e)[k].1 <= e by {
                if k > 0 {
                    assert(lines_from(d, p, e)[k] == lines_from(d, q + 1, e)[k - 1]);
                }
            }
        }
    }
}

proof fn lemma_raw_faces_none_stays(d: Seq<u8>, ls: Seq<(int, int)>, n: int, m: int)
    requires
        n <= m,
        raw_faces_upto(d, ls, n) is None,
    ensures
        raw_faces_upto(d, ls, m) is None,
    decreases m - n,
{
    if n < m {
        lemma_raw_faces_none_stays(d, ls, n, m - 1);
    }
}

/// A group of the mesh text: where its name and vertex coordinate lines are
/// in the text, and its faces as 0-based vertex indices of the group.
pub struct ObjGroup {
    /// Byte range of the name; `None` for the name `Default`.
    pub name: Option<(usize, usize)>,
    /// Byte ranges of the coordinate text of the vertex lines.
    pub vertex_lines: Vec<(usize, usize)>,
    /// Vertex indices of the faces, three per triangle.
    pub faces: Vec<u32>,
}

/// A byte range as a pair of integers.
pub open spec fn range_view(r: (usize, usize)) -> (int, int) {
    (r.0 as int, r.1 as int)
}

impl View for ObjGroup {
    type V = GroupView;

    open spec fn view(&self) -> GroupView {
        (
            match self.name {
                Some(r) => Some(range_view(r)),
                None => None,
            },
            self.vertex_lines@.map_values(|r: (usize, usize)| range_view(r)),
            self.faces@,
        )
    }
}

/// Reads the group `[s, e)` whose vertices come after `offset` others.
fn read_group(d: &[u8], s: usize, e: usize, offset: u32) -> (r: Option<(ObjGroup, u32)>)
    requires
        s <= e <= d@.len(),
    ensures
        match r {
            Some((g, next)) => group_step(d@, s as int, e as int, offset) == Some((g@, next)),
            None => group_step(d@, s as int, e as int, offset) is None,
        },
{
    let lines = line_ranges(d, s, e);
    let ghost ls = lines_from(d@, s as int, e as int);
    proof {
        lemma_lines_bounds(d@, s as int, e as int);
    }
    let name = if lines.len() == 0 {
        Some((s, s))
    } else {
        let (a, b) = lines[0];
        if b - a >= 5 && d[b - 5] == 0x5fu8 && d[b - 4] == 0x4du8 && d[b - 3] == 0x65u8 && d[b
            - 2] == 0x73u8 && d[b - 1] == 0x68u8 {
            Some((a, b - 5))
        } else {
            None
        }
    };
    let mut vertex_lines: Vec<(usize, usize)> = Vec::new();
    let mut faces: Vec<u32> = Vec::new();
    let mut i: usize = 1;
    while i < lines.len()
        invariant
            1 <= i,
            i <= lines@.len() || (lines@.len() == 0 && i == 1),
            s <= e <= d@.len(),
            ls == lines_from(d@, s as int, e as int),
            lines@.len() == ls.len(),
            forall|k: int| 0 <= k < lines@.len() ==> lines@[k].0 == ls[k].0 && lines@[k].1 == ls[k].1,
            forall|k: int| 0 <= k < ls.len() ==> s <= #[trigger] ls[k].0 <= ls[k].1 <= e,
            vertex_lines@.len() == vertex_lines_upto(d@, ls, i as int).len(),
            forall|k: int|
                0 <= k < vertex_lines@.len() ==> range_view(vertex_lines@[k]) == vertex_lines_upto(
                    d@,
                    ls,
                    i as int,
                )[k],
            raw_faces_upto(d@, ls, i as int) == Some(faces@),
        decreases lines@.len() - i,
    {
        let (a, b) = lines[i];
        let ghost r = ls[i as int];
        proof {
            assert(r == (a as int, b as int));
        }
        if b - a >= 2 && d[a] == 0x76u8 && d[a + 1] == 0x20u8 {
            vertex_lines.push((a + 2, b));
        } else if b - a >= 2 && d[a] == 0x66u8 && d[a + 1] == 0x20u8 {
            match face_values(d, a + 2, b) {
                Some(v) => {
                    let mut j: usize = 0;
                    let ghost before = faces@;
                    while j < v.len()
                        invariant
                            j <= v@.len(),
                            faces@ == before + v@.take(j as int),
                        decreases v@.len() - j,
                    {
                        faces.push(v[j]);
                        j = j + 1;
                        proof {
                            assert(v@.take(j as int) =~= v@.take(j - 1).push(v@[j - 1]));
                        }
                    }
                    proof {
                        assert(v@.take(v@.len() as int) =~= v@);
                    }
                },
                None => {
                    proof {
                        assert(r == (a as int, b as int));
                        assert(!is_vertex_line(d@, r));
                        assert(is_face_line(d@, r));
                        assert(raw_faces_upto(d@, ls, i + 1) is None);
                        lemma_raw_faces_none_stays(d@, ls, i + 1, ls.len() as int);
                    }
                    return None;
                },
            }
        }
        i = i + 1;
    }
    let ghost vl = vertex_lines_upto(d@, ls, ls.len() as int);
    proof {
        assert(vertex_lines@.len() == vertex_lines_upto(d@, ls, i as int).len());
        assert(raw_faces_upto(d@, ls, i as int) == Some(faces@));
        if lines@.len() == 0 {
            assert(vertex_lines_upto(d@, ls, 0) == vertex_lines_upto(d@, ls, 1));
            assert(raw_faces_upto(d@, ls, 0) == raw_faces_upto(d@, ls, 1));
        } else {
            assert(i == ls.len());
        }
        assert(vertex_lines@.len() == vl.len());
        assert(raw_faces_upto(d@, ls, ls.len() as int) == Some(faces@));
    }
    let mut rebased_faces: Vec<u32> = Vec::new();
    let mut k: usize = 0;
    while k < faces.len()
        invariant
            k <= faces@.len(),
            ls == lines_from(d@, s as int, e as int),
            raw_faces_upto(d@, ls, ls.len() as int) == Some(faces@),
            forall|j: int| 0 <= j < k ==> faces@[j] >= 1 + offset,
            rebased_faces@ == rebased(faces@.take(k as int), offset),
        decreases faces@.len() - k,
    {
        let f = faces[k];
        if f < 1 || f - 1 < offset {
            proof {
                assert(faces@[k as int] < 1 + offset);
                assert(!rebase_ok(faces@, offset));
            }
            return None;
        }
        rebased_faces.push(f - 1 - offset);
        k = k + 1;
        proof {
            assert(rebased(faces@.take(k as int), offset) =~= rebased(
                faces@.take(k - 1),
                offset,
            ).push((f - 1 - offset) as u32));
        }
    }
    proof {
        assert(faces@.take(faces@.len() as int) =~= faces@);
    }
    let added = #[verifier::truncate] (vertex_lines.len() as u32);
    if offset > u32::MAX - added {
        return None;
    }
    let group = ObjGroup { name, vertex_lines, faces: rebased_faces };
    proof {
        assert forall|j: int| 0 <= j < vl.len() implies group@.1[j] == vl[j] by {
            assert(range_view(group.vertex_lines@[j]) == vl[j]);
        }
        assert(group@.1 =~= vl);
    }
    Some((group, offset + added))
}

/// Reads all groups of the mesh text `data`: the groups in order, or `None`
/// when a face word is not a number, a face number names no vertex of its
/// group or a later one, or the vertex count passes `u32::MAX`.
pub fn load_mesh_groups(data: &[u8]) -> (r: Option<Vec<ObjGroup>>)
    ensures
        match r {
            Some(gs) => mesh_groups_spec(data@) == Some(gs@.map_values(|g: ObjGroup| g@)),
            None => mesh_groups_spec(data@) is None,
        },
{
    let marks = find_group_marks(data);
    let ghost m = group_marks(data@);
    proof {
        lemma_marks_ordered(data@, data@.len() as int);
    }
    let mut groups: Vec<ObjGroup> = Vec::new();
    let mut offset: u32 = 0;
    let mut k: usize = 0;
    let n = data.len();
    while k < marks.len()
        invariant
            k <= marks@.len(),
            n == data@.len(),
            m == group_marks(data@),
            marks@.len() == m.len(),
            forall|j: int| 0 <= j < marks@.len() ==> marks@[j] == m[j],
            forall|j: int| 0 <= j < m.len() ==> is_group_mark(data@, #[trigger] m[j]),
            forall|i: int, j: int| 0 <= i < j < m.len() ==> m[i] + 2 <= m[j],
            groups_upto(data@, k as int) == Some(
                (groups@.map_values(|g: ObjGroup| g@), offset),
            ),
        decreases marks@.len() - k,
    {
        proof {
            assert(is_group_mark(data@, m[k as int]));
            if k + 1 < m.len() {
                assert(m[k as int] + 2 <= m[k + 1]);
                assert(is_group_mark(data@, m[k + 1]));
            }
        }
        let s = marks[k] + 2;
        let e = if k + 1 < marks.len() {
            marks[k + 1]
        } else {
            n
        };
        match read_group(data, s, e, offset) {
            Some((g, next)) => {
                let ghost before = groups@;
                groups.push(g);
                offset = next;
                proof {
                    assert(groups@.map_values(|g: ObjGroup| g@) =~= before.map_values(
                        |g: ObjGroup| g@,
                    ).push(g@));
                }
            },
            None => {
                proof {
                    lemma_groups_none_stays(data@, k + 1, m.len() as int);
                }
                return None;
            },
        }
        k = k + 1;
    }
    Some(groups)
}

proof fn lemma_groups_none_stays(d: Seq<u8>, n: int, m: int)
    requires
        n <= m,
        groups_upto(d, n) is None,
    ensures
        groups_upto(d, m) is None,
    decreases m - n,
{
    if n < m {
        lemma_groups_none_stays(d, n, m - 1);
    }
}

proof fn lemma_marks_ordered(d: Seq<u8>, n: int)
    requires
        0 <= n <= d.len(),
    ensures
        forall|j: int|
            0 <= j < marks_below(d, n).len() ==> is_group_mark(d, #[trigger] marks_below(d, n)[j])
                && marks_below(d, n)[j] < n,
        forall|i: int, j: int|
            0 <= i < j < marks_below(d, n).len() ==> marks_below(d, n)[i] + 2 <= marks_below(
                d,
                n,
            )[j],
    decreases n,
{
    if n > 0 {
        lemma_marks_ordered(d, n - 1);
        let prev = marks_below(d, n - 1);
        if is_group_mark(d, n - 1) && prev.len() > 0 {
            let last = prev[prev.len() - 1];
            assert(is_group_mark(d, last));
            assert(last != n - 2);
            assert forall|i: int, j: int|
                0 <= i < j < marks_below(d, n).len() implies marks_below(d, n)[i] + 2
                <= marks_below(d, n)[j] by {
                if j == prev.len() {
                    if i < prev.len() - 1 {
                        assert(prev[i] + 2 <= last);
                    }
                }
            }
        }
    }
}

/// Number of vertex lines in the groups `gs`.
pub open spec fn total_vertices(gs: Seq<GroupView>) -> int
    decreases gs.len(),
{
    if gs.len() == 0 {
        0
    } else {
        total_vertices(gs.drop_last()) + gs.last().1.len()
    }
}

/// Face numbers count vertices over the whole text: after any run of
/// groups that could be read, the running vertex count (the amount taken
/// off the face numbers of the next group) is the number of vertex lines in
/// those groups. A group of 2^32 vertex lines or more is counted modulo
/// 2^32, so such groups are left out.
pub proof fn law_vertex_numbering_is_global(d: Seq<u8>, k: int)
    requires
        groups_upto(d, k) is Some,
        forall|i: int|
            0 <= i < groups_upto(d, k).unwrap().0.len() ==> (#[trigger] groups_upto(
                d,
                k,
            ).unwrap().0[i]).1.len() <= u32::MAX,
    ensures
        groups_upto(d, k).unwrap().1 == total_vertices(groups_upto(d, k).unwrap().0),
    decreases k,
{
    if k > 0 {
        let (gs, offset) = groups_upto(d, k - 1).unwrap();
        let (s, e) = group_range(d, k - 1);
        let (g, next) = group_step(d, s, e, offset).unwrap();
        assert(groups_upto(d, k).unwrap().0 == gs.push(g));
        assert forall|i: int| 0 <= i < gs.len() implies (#[trigger] gs[i]).1.len() <= u32::MAX by {
            assert(gs.push(g)[i] == gs[i]);
        }
        law_vertex_numbering_is_global(d, k - 1);
        assert(gs.push(g)[gs.len() as int] == g);
        assert(g.1.len() <= u32::MAX);
        assert(gs.push(g).drop_last() =~= gs);
    }
}

/// Range `r` lies within the first `len` bytes.
pub open spec fn range_within(r: (int, int), len: int) -> bool {
    0 <= r.0 <= r.1 <= len
}

/// Group `g` names only text within the first `len` bytes.
pub open spec fn group_within(g: GroupView, len: int) -> bool {
    &&& (g.0 matches Some(r) ==> range_within(r, len))
    &&& forall|k: int| 0 <= k < g.1.len() ==> range_within(#[trigger] g.1[k], len)
}

proof fn lemma_vertex_lines_within(d: Seq<u8>, ls: Seq<(int, int)>, n: int, len: int)
    requires
        0 <= n <= ls.len(),
        forall|k: int| 0 <= k < ls.len() ==> range_within(#[trigger] ls[k], len),
    ensures
        forall|k: int|
            0 <= k < vertex_lines_upto(d, ls, n).len() ==> range_within(
                #[trigger] vertex_lines_upto(d, ls, n)[k],
                len,
            ),
    decreases n,
{
    if n > 1 {
        lemma_vertex_lines_within(d, ls, n - 1, len);
        let prev = vertex_lines_upto(d, ls, n - 1);
        assert(range_within(ls[n - 1], len));
        if is_vertex_line(d, ls[n - 1]) {
            let cur = prev.push((ls[n - 1].0 + 2, ls[n - 1].1));
            assert forall|k: int| 0 <= k < cur.len() implies range_within(#[trigger] cur[k], len) by {
                if k < prev.len() {
                    assert(cur[k] == prev[k]);
                }
            }
        }
    }
}

/// Every name and vertex line that the reader reports lies within the
/// text, so taking those ranges out of the text cannot go past its end.
pub proof fn law_group_ranges_in_text(d: Seq<u8>, k: int)
    requires
        0 <= k <= group_marks(d).len(),
        groups_upto(d, k) is Some,
    ensures
        forall|i: int|
            0 <= i < groups_upto(d, k).unwrap().0.len() ==> group_within(
                #[trigger] groups_upto(d, k).unwrap().0[i],
                d.len() as int,
            ),
    decreases k,
{
    if k > 0 {
        law_group_ranges_in_text(d, k - 1);
        lemma_marks_ordered(d, d.len() as int);
        let (gs, offset) = groups_upto(d, k - 1).unwrap();
        let m = group_marks(d);
        let (s, e) = group_range(d, k - 1);
        assert(is_group_mark(d, m[k - 1]));
        if k < m.len() {
            assert(m[k - 1] + 2 <= m[k]);
            assert(is_group_mark(d, m[k]));
        }
        assert(0 <= s <= e <= d.len());
        let ls = lines_from(d, s, e);
        lemma_lines_bounds(d, s, e);
        assert forall|j: int| 0 <= j < ls.len() implies range_within(#[trigger] ls[j], d.len() as int) by {
            assert(s <= ls[j].0 <= ls[j].1 <= e);
        }
        lemma_vertex_lines_within(d, ls, ls.len() as int, d.len() as int);
        let (g, next) = group_step(d, s, e, offset).unwrap();
        assert(group_within(g, d.len() as int));
        assert forall|i: int|
            0 <= i < gs.push(g).len() implies group_within(#[trigger] gs.push(g)[i], d.len() as int) by {
            if i < gs.len() {
                assert(gs.push(g)[i] == gs[i]);
            }
        }
    }
}

proof fn lemma_marks_below_members(d: Seq<u8>, n: int, p: int)
    requires
        0 <= n <= d.len(),
    ensures
        marks_below(d, n).contains(p) <==> (0 <= p < n && is_group_mark(d, p)),
    decreases n,
{
    if n > 0 {
        lemma_marks_below_members(d, n - 1, p);
        if is_group_mark(d, n - 1) {
            let prev = marks_below(d, n - 1);
            if p == n - 1 {
                assert(prev.push(n - 1)[prev.len() as int] == p);
            }
            if prev.contains(p) {
                let j = choose|j: int| 0 <= j < prev.len() && prev[j] == p;
                assert(prev.push(n - 1)[j] == p);
            }
            let cur = prev.push(n - 1);
            if cur.contains(p) && p != n - 1 {
                let j = choose|j: int| 0 <= j < cur.len() && cur[j] == p;
                assert(j < prev.len());
                assert(prev[j] == p);
            }
        }
    }
}

/// A group starts at every `g ` in the text and nowhere else, and the groups
/// come in the order of their marks.
pub proof fn law_groups_start_at_every_g_space(d: Seq<u8>)
    ensures
        forall|p: int|
            #![trigger group_marks(d).contains(p)]
            group_marks(d).contains(p) <==> (0 <= p && p + 1 < d.len() && d[p] == 0x67u8 && d[p
                + 1] == 0x20u8),
        forall|i: int, j: int|
            0 <= i < j < group_marks(d).len() ==> group_marks(d)[i] < group_marks(d)[j],
{
    lemma_marks_ordered(d, d.len() as int);
    assert forall|p: int|
        #![trigger group_marks(d).contains(p)]
        group_marks(d).contains(p) <==> (0 <= p && p + 1 < d.len() && d[p] == 0x67u8 && d[p
            + 1] == 0x20u8) by {
        lemma_marks_below_members(d, d.len() as int, p);
    }
}

/// Line `r` begins with `v ` (ASCII `v` and a space).
pub open spec fn begins_with_v_space(d: Seq<u8>, r: (int, int)) -> bool {
    r.1 - r.0 >= 2 && d[r.0] == 0x76u8 && d[r.0 + 1] == 0x20u8
}

proof fn lemma_vertex_lines_filter(d: Seq<u8>, ls: Seq<(int, int)>, n: int)
    requires
        1 <= n <= ls.len(),
    ensures
        vertex_lines_upto(d, ls, n) == ls.subrange(1, n).filter(
            |r: (int, int)| begins_with_v_space(d, r),
        ).map_values(|r: (int, int)| (r.0 + 2, r.1)),
    decreases n,
{
    reveal(Seq::filter);
    let f = |r: (int, int)| begins_with_v_space(d, r);
    let g = |r: (int, int)| (r.0 + 2, r.1);
    if n == 1 {
        assert(ls.subrange(1, 1) =~= Seq::<(int, int)>::empty());
        assert(ls.subrange(1, 1).filter(f) =~= Seq::<(int, int)>::empty());
        assert(ls.subrange(1, 1).filter(f).map_values(g) =~= Seq::<(int, int)>::empty());
    } else {
        lemma_vertex_lines_filter(d, ls, n - 1);
        let sub = ls.subrange(1, n);
        assert(sub.drop_last() =~= ls.subrange(1, n - 1));
        assert(sub.last() == ls[n - 1]);
        let prev = ls.subrange(1, n - 1).filter(f);
        if begins_with_v_space(d, ls[n - 1]) {
            assert(sub.filter(f) == prev.push(ls[n - 1]));
            assert(prev.push(ls[n - 1]).map_values(g) =~= prev.map_values(g).push(g(ls[n - 1])));
        } else {
            assert(sub.filter(f) == prev);
        }
    }
}

/// The vertex lines of a group are exactly its lines after the first that
/// begin with `v `, in order, each without that `v `.
pub proof fn law_vertex_lines_are_the_v_lines(d: Seq<u8>, s: int, e: int, offset: u32)
    requires
        group_step(d, s, e, offset) is Some,
        lines_from(d, s, e).len() >= 1,
    ensures
        group_step(d, s, e, offset).unwrap().0.1 == lines_from(d, s, e).subrange(
            1,
            lines_from(d, s, e).len() as int,
        ).filter(|r: (int, int)| begins_with_v_space(d, r)).map_values(
            |r: (int, int)| (r.0 + 2, r.1),
        ),
{
    let ls = lines_from(d, s, e);
    lemma_vertex_lines_filter(d, ls, ls.len() as int);
}

/// A face line gives one number per word, in order, and is read only when
/// every word is a number.
pub proof fn law_one_number_per_word(d: Seq<u8>, a: int, b: int)
    ensures
        (face_values_spec(d, a, b) is Some) <==> (forall|k: int|
            0 <= k < tokens_from(d, a, b).len() ==> (#[trigger] parse_u32_spec(
                d,
                tokens_from(d, a, b)[k].0,
                tokens_from(d, a, b)[k].1,
            )) is Some),
        face_values_spec(d, a, b) matches Some(v) ==> {
            &&& v.len() == tokens_from(d, a, b).len()
            &&& forall|k: int|
                0 <= k < v.len() ==> Some(#[trigger] v[k]) == parse_u32_spec(
                    d,
                    tokens_from(d, a, b)[k].0,
                    tokens_from(d, a, b)[k].1,
                )
        },
{
}

/// A group is read exactly when every word of its face lines is a number,
/// every face number names a vertex of this group or a later one (it is at
/// least one more than the vertices of the groups before), and the vertex
/// count after the group still fits in 32 bits (for groups of fewer than
/// 2^32 vertex lines, whose count the reader does not wrap).
pub proof fn law_when_a_group_is_read(d: Seq<u8>, s: int, e: int, offset: u32)
    ensures
        ({
            let ls = lines_from(d, s, e);
            let raw = raw_faces_upto(d, ls, ls.len() as int);
            vertex_lines_upto(d, ls, ls.len() as int).len() <= u32::MAX ==> ((group_step(
                d,
                s,
                e,
                offset,
            ) is Some) <==> (raw is Some && (forall|k: int|
                0 <= k < raw.unwrap().len() ==> #[trigger] raw.unwrap()[k] >= 1 + offset) && offset
                + vertex_lines_upto(d, ls, ls.len() as int).len() <= u32::MAX))
        }),
{
}

/// Line `r` is a face line: it begins with `f ` and not with `v `.
pub open spec fn begins_with_f_space(d: Seq<u8>, r: (int, int)) -> bool {
    r.1 - r.0 >= 2 && d[r.0] == 0x66u8 && d[r.0 + 1] == 0x20u8
}

/// The face lines among lines 1 to `n - 1` of `ls`.
pub open spec fn face_lines(d: Seq<u8>, ls: Seq<(int, int)>, n: int) -> Seq<(int, int)> {
    ls.subrange(1, n).filter(|r: (int, int)| begins_with_f_space(d, r) && !begins_with_v_space(d, r))
}

/// The numbers written after `f ` on each of `fl`.
pub open spec fn face_numbers_of(d: Seq<u8>, fl: Seq<(int, int)>) -> Seq<Seq<u32>> {
    fl.map_values(|r: (int, int)| face_values_spec(d, r.0 + 2, r.1).unwrap())
}

proof fn lemma_raw_faces_flatten(d: Seq<u8>, ls: Seq<(int, int)>, n: int)
    requires
        1 <= n <= ls.len(),
    ensures
        (raw_faces_upto(d, ls, n) is Some) <==> (forall|k: int|
            0 <= k < face_lines(d, ls, n).len() ==> (#[trigger] face_values_spec(
                d,
                face_lines(d, ls, n)[k].0 + 2,
                face_lines(d, ls, n)[k].1,
            )) is Some),
        raw_faces_upto(d, ls, n) is Some ==> raw_faces_upto(d, ls, n).unwrap() == face_numbers_of(
            d,
            face_lines(d, ls, n),
        ).flatten(),
    decreases n,
{
    reveal(Seq::filter);
    let f = |r: (int, int)| begins_with_f_space(d, r) && !begins_with_v_space(d, r);
    if n == 1 {
        assert(ls.subrange(1, 1) =~= Seq::<(int, int)>::empty());
        assert(face_lines(d, ls, 1) =~= Seq::<(int, int)>::empty());
        assert(face_numbers_of(d, face_lines(d, ls, 1)) =~= Seq::<Seq<u32>>::empty());
        assert(Seq::<Seq<u32>>::empty().flatten() =~= Seq::<u32>::empty());
    } else {
        lemma_raw_faces_flatten(d, ls, n - 1);
        let sub = ls.subrange(1, n);
        assert(sub.drop_last() =~= ls.subrange(1, n - 1));
        assert(sub.last() == ls[n - 1]);
        let prev = face_lines(d, ls, n - 1);
        let r = ls[n - 1];
        if f(r) {
            assert(face_lines(d, ls, n) == prev.push(r));
            let cur = prev.push(r);
            assert(face_numbers_of(d, cur) =~= face_numbers_of(d, prev).push(
                face_values_spec(d, r.0 + 2, r.1).unwrap(),
            ));
            face_numbers_of(d, prev).lemma_flatten_push(face_values_spec(d, r.0 + 2, r.1).unwrap());
            assert forall|k: int| 0 <= k < prev.len() implies cur[k] == prev[k] by {}
            if raw_faces_upto(d, ls, n - 1) is Some && face_values_spec(d, r.0 + 2, r.1) is None {
                assert(cur[prev.len() as int] == r);
            }
            if raw_faces_upto(d, ls, n - 1) is None {
                let k = choose|k: int|
                    0 <= k < prev.len() && !((#[trigger] face_values_spec(
                        d,
                        prev[k].0 + 2,
                        prev[k].1,
                    )) is Some);
                assert(cur[k] == prev[k]);
            }
            if (forall|k: int|
                0 <= k < cur.len() ==> (#[trigger] face_values_spec(d, cur[k].0 + 2, cur[k].1))
                    is Some) {
                assert forall|k: int| 0 <= k < prev.len() implies (#[trigger] face_values_spec(
                    d,
                    prev[k].0 + 2,
                    prev[k].1,
                )) is Some by {
                    assert(cur[k] == prev[k]);
                }
                assert(cur[prev.len() as int] == r);
            }
        } else {
            assert(face_lines(d, ls, n) == prev);
        }
    }
}

/// The faces of a group are the numbers of its face lines (lines after the
/// first that begin with `f `, not with `v `), in line order, one after
/// another; a group is read only when every word of every face line is a
/// number.
pub proof fn law_faces_come_from_face_lines(d: Seq<u8>, s: int, e: int)
    requires
        lines_from(d, s, e).len() >= 1,
    ensures
        ({
            let ls = lines_from(d, s, e);
            let fl = face_lines(d, ls, ls.len() as int);
            &&& (raw_faces_upto(d, ls, ls.len() as int) is Some) <==> (forall|k: int|
                0 <= k < fl.len() ==> (#[trigger] face_values_spec(d, fl[k].0 + 2, fl[k].1)) is Some)
            &&& raw_faces_upto(d, ls, ls.len() as int) is Some ==> raw_faces_upto(
                d,
                ls,
                ls.len() as int,
            ).unwrap() == face_numbers_of(d, fl).flatten()
        }),
{
    let ls = lines_from(d, s, e);
    lemma_raw_faces_flatten(d, ls, ls.len() as int);
}

/// The text of each group runs from just after its `g ` mark to the next
/// `g ` mark, or to the end of the text for the last group; no `g ` mark
/// starts inside it.
pub proof fn law_group_text_lies_between_marks(d: Seq<u8>, k: int)
    requires
        0 <= k < group_marks(d).len(),
    ensures
        ({
            let (s, e) = group_range(d, k);
            &&& 2 <= s <= e <= d.len()
            &&& d[s - 2] == 0x67u8 && d[s - 1] == 0x20u8
            &&& k + 1 < group_marks(d).len() ==> e + 1 < d.len() && d[e] == 0x67u8 && d[e + 1]
                == 0x20u8
            &&& k + 1 == group_marks(d).len() ==> e == d.len()
            &&& forall|p: int|
                s <= p < e ==> !(p + 1 < d.len() && #[trigger] d[p] == 0x67u8 && d[p + 1] == 0x20u8)
        }),
{
    let m = group_marks(d);
    lemma_marks_ordered(d, d.len() as int);
    let (s, e) = group_range(d, k);
    assert(is_group_mark(d, m[k]));
    if k + 1 < m.len() {
        assert(is_group_mark(d, m[k + 1]));
        assert(m[k] + 2 <= m[k + 1]);
    }
    assert forall|p: int|
        s <= p < e implies !(p + 1 < d.len() && #[trigger] d[p] == 0x67u8 && d[p + 1] == 0x20u8) by {
        if p + 1 < d.len() && d[p] == 0x67u8 && d[p + 1] == 0x20u8 {
            lemma_marks_below_members(d, d.len() as int, p);
            let j = choose|j: int| 0 <= j < m.len() && m[j] == p;
            if j <= k {
                if j < k {
                    assert(m[j] + 2 <= m[k]);
                }
                assert(false);
            } else if k + 1 < m.len() {
                if j > k + 1 {
                    assert(m[k + 1] + 2 <= m[j]);
                }
                assert(false);
            }
        }
    }
}

/// Line `ls[j]` of a group, past its first, is a vertex line whose
/// coordinate text is `r`.
pub open spec fn is_v_line_text(d: Seq<u8>, ls: Seq<(int, int)>, j: int, n: int, r: (int, int)) -> bool {
    &&& 1 <= j < n
    &&& ls[j].1 - ls[j].0 >= 2
    &&& d[ls[j].0] == 0x76u8
    &&& d[ls[j].0 + 1] == 0x20u8
    &&& r == (ls[j].0 + 2, ls[j].1)
}

/// `r` is the coordinate text of some vertex line among lines 1 to `n - 1`
/// of `ls`.
pub open spec fn is_some_v_line_text(d: Seq<u8>, ls: Seq<(int, int)>, n: int, r: (int, int)) -> bool {
    exists|j: int| #[trigger] is_v_line_text(d, ls, j, n, r)
}

proof fn lemma_vertex_lines_are_v_lines(d: Seq<u8>, ls: Seq<(int, int)>, n: int, k: int)
    requires
        0 <= n <= ls.len(),
        0 <= k < vertex_lines_upto(d, ls, n).len(),
    ensures
        exists|j: int| #[trigger] is_v_line_text(d, ls, j, n, vertex_lines_upto(d, ls, n)[k]),
    decreases n,
{
    if n > 1 {
        let prev = vertex_lines_upto(d, ls, n - 1);
        if k < prev.len() {
            lemma_vertex_lines_are_v_lines(d, ls, n - 1, k);
            let j = choose|j: int| #[trigger] is_v_line_text(d, ls, j, n - 1, prev[k]);
            if is_vertex_line(d, ls[n - 1]) {
                assert(prev.push((ls[n - 1].0 + 2, ls[n - 1].1))[k] == prev[k]);
            }
            assert(is_v_line_text(d, ls, j, n, vertex_lines_upto(d, ls, n)[k]));
        } else {
            assert(is_v_line_text(d, ls, n - 1, n, vertex_lines_upto(d, ls, n)[k]));
        }
    }
}

/// What a group reports: every vertex line is the text after `v ` of a
/// line of the group other than its first (name) line; every face index
/// is the face number written in the text minus one (numbers count from 1)
/// minus the vertices of the groups before it; and the vertex count after
/// the group grows by its number of vertex lines.
pub proof fn law_group_reports_v_lines_and_one_based_faces(d: Seq<u8>, s: int, e: int, offset: u32)
    requires
        group_step(d, s, e, offset) is Some,
    ensures
        ({
            let ls = lines_from(d, s, e);
            let (g, next) = group_step(d, s, e, offset).unwrap();
            let fs = raw_faces_upto(d, ls, ls.len() as int).unwrap();
            &&& forall|k: int|
                0 <= k < g.1.len() ==> is_some_v_line_text(d, ls, ls.len() as int, #[trigger] g.1[k])
            &&& g.2.len() == fs.len()
            &&& forall|k: int| 0 <= k < fs.len() ==> #[trigger] g.2[k] + 1 + offset == fs[k]
            &&& g.1.len() <= u32::MAX ==> next == offset + g.1.len()
        }),
{
    let ls = lines_from(d, s, e);
    let (g, next) = group_step(d, s, e, offset).unwrap();
    assert forall|k: int| 0 <= k < g.1.len() implies is_some_v_line_text(
        d,
        ls,
        ls.len() as int,
        #[trigger] g.1[k],
    ) by {
        assert(g.1 == vertex_lines_upto(d, ls, ls.len() as int));
        lemma_vertex_lines_are_v_lines(d, ls, ls.len() as int, k);
    }
}

/// The name of a group is its first line without the `_Mesh` that ends it;
/// a group whose first line does not end in `_Mesh` is named `Default`
/// (`None`).
pub proof fn law_group_name_drops_mesh_suffix(d: Seq<u8>, s: int, e: int)
    requires
        lines_from(d, s, e).len() > 0,
    ensures
        ({
            let first = lines_from(d, s, e)[0];
            let ends_in_mesh = first.1 - first.0 >= 5 && d[first.1 - 5] == 0x5fu8 && d[first.1
                - 4] == 0x4du8 && d[first.1 - 3] == 0x65u8 && d[first.1 - 2] == 0x73u8 && d[first.1
                - 1] == 0x68u8;
            &&& ends_in_mesh ==> group_name(d, s, e) == Some((first.0, first.1 - 5))
            &&& !ends_in_mesh ==> group_name(d, s, e) is None
        }),
{
}

/// Each line lies in the text it was cut from, holds no line feed, and
/// ends where the text ends, at a line feed, or at a carriage return that a
/// line feed follows; a carriage return just before a line feed is never
/// part of the line.
pub proof fn law_lines_end_at_line_feeds(d: Seq<u8>, p: int, e: int)
    requires
        0 <= p <= e <= d.len(),
    ensures
        forall|k: int|
            0 <= k < lines_from(d, p, e).len() ==> {
                let r = #[trigger] lines_from(d, p, e)[k];
                &&& p <= r.0 <= r.1 <= e
                &&& forall|i: int| r.0 <= i < r.1 ==> d[i] != 0x0au8
                &&& (r.1 == e || d[r.1] == 0x0au8 || (d[r.1] == 0x0du8 && r.1 + 1 < e && d[r.1
                    + 1] == 0x0au8))
                &&& (r.1 < e && d[r.1] == 0x0au8) ==> (r.1 == r.0 || d[r.1 - 1] != 0x0du8)
            },
    decreases e - p,
{
    if p < e {
        lemma_next_newline(d, p, e);
        let q = next_newline(d, p, e);
        if q < e {
            law_lines_end_at_line_feeds(d, q + 1, e);
            assert forall|k: int| 0 <= k < lines_from(d, p, e).len() implies {
                let r = #[trigger] lines_from(d, p, e)[k];
                &&& p <= r.0 <= r.1 <= e
                &&& forall|i: int| r.0 <= i < r.1 ==> d[i] != 0x0au8
                &&& (r.1 == e || d[r.1] == 0x0au8 || (d[r.1] == 0x0du8 && r.1 + 1 < e && d[r.1
                    + 1] == 0x0au8))
                &&& (r.1 < e && d[r.1] == 0x0au8) ==> (r.1 == r.0 || d[r.1 - 1] != 0x0du8)
            } by {
                if k > 0 {
                    assert(lines_from(d, p, e)[k] == lines_from(d, q + 1, e)[k - 1]);
                }
            }
        }
    }
}

/// Where the text after line `r` starts: past its line feed, and past the
/// carriage return before it when the line ends in one.
pub open spec fn after_line(d: Seq<u8>, r: (int, int)) -> int {
    if d[r.1] == 0x0au8 {
        r.1 + 1
    } else {
        r.1 + 2
    }
}

/// The lines cover the text they were cut from, in order: the first starts
/// where the text does, each next one starts right after the line end of
/// the one before, and the text ends with the last line or with the line
/// feed after it.
pub proof fn law_lines_cover_the_text(d: Seq<u8>, p: int, e: int)
    requires
        0 <= p <= e <= d.len(),
    ensures
        p < e ==> lines_from(d, p, e).len() > 0 && lines_from(d, p, e)[0].0 == p,
        p == e ==> lines_from(d, p, e).len() == 0,
        forall|k: int|
            1 <= k < lines_from(d, p, e).len() ==> (#[trigger] lines_from(d, p, e)[k]).0
                == after_line(d, lines_from(d, p, e)[k - 1]),
        lines_from(d, p, e).len() > 0 ==> {
            let last = lines_from(d, p, e).last();
            last.1 == e || after_line(d, last) == e
        },
    decreases e - p,
{
    law_lines_end_at_line_feeds(d, p, e);
    if p < e {
        lemma_next_newline(d, p, e);
        let q = next_newline(d, p, e);
        if q < e {
            law_lines_cover_the_text(d, q + 1, e);
            law_lines_end_at_line_feeds(d, q + 1, e);
            let ls = lines_from(d, p, e);
            let rest = lines_from(d, q + 1, e);
            assert(ls[0] == strip_cr(d, p, q));
            assert(after_line(d, ls[0]) == q + 1);
            assert forall|k: int| 1 <= k < ls.len() implies (#[trigger] ls[k]).0
                == after_line(d, ls[k - 1]) by {
                assert(ls[k] == rest[k - 1]);
                if k > 1 {
                    assert(ls[k - 1] == rest[k - 2]);
                    assert(rest[k - 1].0 == after_line(d, rest[k - 2]));
                } else {
                    if rest.len() > 0 {
                        assert(rest[0].0 == q + 1);
                    } else {
                        assert(q + 1 == e);
                    }
                }
            }
            if rest.len() > 0 {
                assert(ls.last() == rest.last());
            } else {
                assert(ls.last() == ls[0]);
                assert(q + 1 == e);
            }
        }
    }
}

/// Byte `c` is an ASCII blank: tab, line feed, vertical tab, form feed,
/// carriage return or space.
pub open spec fn is_ascii_blank(c: u8) -> bool {
    c == 9 || c == 10 || c == 11 || c == 12 || c == 13 || c == 32
}

/// The words of a face line are non-empty, lie in the line, and hold no
/// ASCII blank: blanks separate words.
pub proof fn law_words_hold_no_blanks(d: Seq<u8>, p: int, b: int)
    requires
        0 <= p <= b <= d.len(),
    ensures
        forall|k: int|
            0 <= k < tokens_from(d, p, b).len() ==> {
                let t = #[trigger] tokens_from(d, p, b)[k];
                &&& p <= t.0 < t.1 <= b
                &&& forall|i: int| t.0 <= i < t.1 ==> !is_ascii_blank(d[i])
            },
    decreases b - p,
{
    if p < b {
        lemma_ws_len_bound(d, p, b);
        if ws_len(d, p, b) > 0 {
            law_words_hold_no_blanks(d, p + ws_len(d, p, b), b);
            assert(tokens_from(d, p, b) == tokens_from(d, p + ws_len(d, p, b), b));
        } else {
            lemma_token_end(d, p, b);
            let q = token_end(d, p, b);
            lemma_token_end(d, p + 1, b);
            assert(q == token_end(d, p + 1, b));
            law_words_hold_no_blanks(d, q, b);
            assert forall|k: int| 0 <= k < tokens_from(d, p, b).len() implies {
                let t = #[trigger] tokens_from(d, p, b)[k];
                &&& p <= t.0 < t.1 <= b
                &&& forall|i: int| t.0 <= i < t.1 ==> !is_ascii_blank(d[i])
            } by {
                if k > 0 {
                    assert(tokens_from(d, p, b)[k] == tokens_from(d, q, b)[k - 1]);
                } else {
                    assert(tokens_from(d, p, b)[0] == (p, q));
                    assert forall|i: int| p <= i < q implies !is_ascii_blank(d[i]) by {
                        assert(ws_len(d, i, b) == 0);
                    }
                }
            }
        }
    }
}

proof fn lemma_groups_upto_len(d: Seq<u8>, k: int)
    requires
        0 <= k,
        groups_upto(d, k) is Some,
    ensures
        groups_upto(d, k).unwrap().0.len() == k,
        forall|i: int|
            0 <= i < k ==> #[trigger] groups_upto(d, k).unwrap().0[i] == groups_upto(
                d,
                i + 1,
            ).unwrap().0[i],
    decreases k,
{
    if k > 0 {
        lemma_groups_upto_len(d, k - 1);
        let gs = groups_upto(d, k - 1).unwrap().0;
        let cur = groups_upto(d, k).unwrap().0;
        assert forall|i: int| 0 <= i < k implies #[trigger] cur[i] == groups_upto(
            d,
            i + 1,
        ).unwrap().0[i] by {
            if i < k - 1 {
                assert(cur[i] == gs[i]);
            }
        }
    }
}

/// Group `i` read from the text of mark `i`, after the vertices of the
/// groups before it.
pub open spec fn group_of_mark(d: Seq<u8>, i: int) -> Option<(GroupView, u32)> {
    group_step(d, group_range(d, i).0, group_range(d, i).1, groups_upto(d, i).unwrap().1)
}

/// The text holds one group per `g ` mark, in the order of the marks: when
/// the text can be read, group `i` is read from the text of mark `i`, after
/// the vertices of the groups before it.
pub proof fn law_one_group_per_mark(d: Seq<u8>)
    requires
        mesh_groups_spec(d) is Some,
    ensures
        mesh_groups_spec(d).unwrap().len() == group_marks(d).len(),
        forall|i: int|
            #![trigger group_of_mark(d, i)]
            0 <= i < group_marks(d).len() ==> group_of_mark(d, i) is Some && group_of_mark(
                d,
                i,
            ).unwrap().0 == mesh_groups_spec(d).unwrap()[i],
{
    let n = group_marks(d).len() as int;
    assert(groups_upto(d, n) is Some);
    assert(mesh_groups_spec(d).unwrap() == groups_upto(d, n).unwrap().0);
    lemma_groups_upto_len(d, n);
    assert forall|i: int| #![trigger group_of_mark(d, i)] 0 <= i < n implies group_of_mark(d, i) is Some && group_of_mark(
        d,
        i,
    ).unwrap().0 == mesh_groups_spec(d).unwrap()[i] by {
        if groups_upto(d, i + 1) is None {
            lemma_groups_none_stays(d, i + 1, n);
        }
        if groups_upto(d, i) is None {
            lemma_groups_none_stays(d, i, n);
        }
        lemma_groups_upto_len(d, i);
        assert(mesh_groups_spec(d).unwrap()[i] == groups_upto(d, i + 1).unwrap().0[i]);
        let gs = groups_upto(d, i).unwrap().0;
        assert(groups_upto(d, i + 1).unwrap().0[i] == gs.push(
            group_step(d, group_range(d, i).0, group_range(d, i).1, groups_upto(d, i).unwrap().1).unwrap().0,
        )[i]);
    }
}

/// All bytes of `[p, b)` are ASCII.
pub open spec fn all_ascii(d: Seq<u8>, p: int, b: int) -> bool {
    forall|i: int| p <= i < b ==> #[trigger] d[i] < 0x80
}

/// Byte `i` lies in one of the words `ts`.
pub open spec fn in_some_word(ts: Seq<(int, int)>, i: int) -> bool {
    exists|k: int| 0 <= k < ts.len() && #[trigger] ts[k].0 <= i && i < ts[k].1
}

/// In ASCII text, the words are exactly the maximal runs of bytes that are
/// not blanks: every byte that is not a blank lies in a word, and each word
/// starts at the start of the text or just after a blank, and ends at the
/// end of the text or at a blank.
pub proof fn law_words_are_maximal_runs(d: Seq<u8>, p: int, b: int)
    requires
        0 <= p <= b <= d.len(),
        all_ascii(d, p, b),
    ensures
        forall|i: int|
            p <= i < b && !is_ascii_blank(#[trigger] d[i]) ==> in_some_word(
                tokens_from(d, p, b),
                i,
            ),
        forall|k: int|
            0 <= k < tokens_from(d, p, b).len() ==> {
                let t = #[trigger] tokens_from(d, p, b)[k];
                &&& t.0 == p || is_ascii_blank(d[t.0 - 1])
                &&& t.1 == b || is_ascii_blank(d[t.1])
            },
    decreases b - p,
{
    law_words_hold_no_blanks(d, p, b);
    if p < b {
        lemma_ws_len_bound(d, p, b);
        let ts = tokens_from(d, p, b);
        if ws_len(d, p, b) > 0 {
            assert(d[p] < 0x80);
            assert(ws_len(d, p, b) == 1);
            assert(is_ascii_blank(d[p]));
            law_words_are_maximal_runs(d, p + 1, b);
            assert(ts == tokens_from(d, p + 1, b));
        } else {
            lemma_token_end(d, p, b);
            let q = token_end(d, p, b);
            lemma_token_end(d, p + 1, b);
            assert(q == token_end(d, p + 1, b));
            law_words_are_maximal_runs(d, q, b);
            law_words_hold_no_blanks(d, q, b);
            let rest = tokens_from(d, q, b);
            assert(ts == seq![(p, q)] + rest);
            if q < b {
                assert(d[q] < 0x80);
                assert(ws_len(d, q, b) > 0);
                assert(is_ascii_blank(d[q]));
            }
            assert forall|i: int|
                p <= i < b && !is_ascii_blank(#[trigger] d[i]) implies in_some_word(ts, i) by {
                if i < q {
                    assert(ts[0] == (p, q));
                } else {
                    assert(in_some_word(rest, i));
                    let k = choose|k: int| 0 <= k < rest.len() && #[trigger] rest[k].0 <= i && i
                        < rest[k].1;
                    assert(ts[k + 1] == rest[k]);
                }
            }
            assert forall|k: int| 0 <= k < ts.len() implies {
                let t = #[trigger] ts[k];
                &&& t.0 == p || is_ascii_blank(d[t.0 - 1])
                &&& t.1 == b || is_ascii_blank(d[t.1])
            } by {
                if k == 0 {
                    assert(ts[0] == (p, q));
                } else {
                    assert(ts[k] == rest[k - 1]);
                    let t = rest[k - 1];
                    if t.0 == q {
                        assert(q < t.1);
                        assert(!is_ascii_blank(d[t.0]));
                    }
                }
            }
        }
    }
}

} // verus!
