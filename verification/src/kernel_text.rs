//! Textual names used around kernels: decimal shape signatures, the
//! per-shape history key, and the stencil radius encoded in an op name.
use vstd::prelude::*;
use vstd::string::StringExecFns;
use vstd::utf8::encode_utf8;

use crate::hexdigits::{hex_char, hex_digit};
use crate::text::{find_from, lemma_find_from_range, occurs_at, second_piece};

verus! {

/// Decimal digits of `n`, without leading zeros.
pub open spec fn decimal(n: nat) -> Seq<char>
    decreases n,
{
    if n < 10 {
        seq![hex_char(n as u8)]
    } else {
        decimal(n / 10) + seq![hex_char((n % 10) as u8)]
    }
}

/// Appends the decimal digits of `n`.
pub fn append_decimal(out: &mut String, n: u64)
    ensures
        final(out)@ == old(out)@ + decimal(n as nat),
    decreases n,
{
    if n >= 10 {
        append_decimal(out, n / 10);
    }
    out.append(hex_digit((n % 10) as u8));
    proof {
        assert(final(out)@ =~= old(out)@ + decimal(n as nat));
    }
}

/// The extents of one shape in decimal, separated by `_`.
pub open spec fn dims_joined(s: Seq<usize>, sep: Seq<char>) -> Seq<char>
    decreases s.len(),
{
    if s.len() == 0 {
        Seq::empty()
    } else if s.len() == 1 {
        decimal(s[0] as nat)
    } else {
        dims_joined(s.drop_last(), sep) + sep + decimal(s.last() as nat)
    }
}

fn append_joined(out: &mut String, s: &[usize], sep: &str)
    ensures
        final(out)@ == old(out)@ + dims_joined(s@, sep@),
{
    let mut i: usize = 0;
    while i < s.len()
        invariant
            i <= s.len(),
            out@ == old(out)@ + dims_joined(s@.take(i as int), sep@),
        decreases s.len() - i,
    {
        let ghost before = out@;
        if i > 0 {
            out.append(sep);
        }
        append_decimal(out, s[i] as u64);
        proof {
            assert(s@.take(i as int + 1).drop_last() =~= s@.take(i as int));
            if i == 0 {
                assert(dims_joined(s@.take(0), sep@) =~= Seq::<char>::empty());
            }
            assert(out@ =~= old(out)@ + dims_joined(s@.take(i as int + 1), sep@));
        }
        i += 1;
    }
    proof {
        assert(s@.take(s.len() as int) =~= s@);
    }
}

/// The shapes' signatures (`_`-joined extents) joined by `-`.
pub open spec fn shapes_signature(shapes: Seq<Seq<usize>>) -> Seq<char>
    decreases shapes.len(),
{
    if shapes.len() == 0 {
        Seq::empty()
    } else if shapes.len() == 1 {
        dims_joined(shapes[0], "_"@)
    } else {
        shapes_signature(shapes.drop_last()) + "-"@ + dims_joined(shapes.last(), "_"@)
    }
}

/// The view of every shape.
pub open spec fn shapes_view(shapes: Seq<Vec<usize>>) -> Seq<Seq<usize>> {
    Seq::new(shapes.len(), |i: int| shapes[i]@)
}

/// Signature of a list of tensor shapes: `[[1, 3], [4]]` becomes `1_3-4`.
pub fn serialize_shapes_signature(shapes: &[Vec<usize>]) -> (r: String)
    ensures
        r@ == shapes_signature(shapes_view(shapes@)),
{
    let mut out = String::new();
    let mut i: usize = 0;
    while i < shapes.len()
        invariant
            i <= shapes.len(),
            out@ == shapes_signature(shapes_view(shapes@).take(i as int)),
        decreases shapes.len() - i,
    {
        if i > 0 {
            out.append("-");
        }
        append_joined(&mut out, shapes[i].as_slice(), "_");
        proof {
            assert(shapes_view(shapes@).take(i as int + 1).drop_last() =~= shapes_view(shapes@).take(i as int));
            if i == 0 {
                assert(shapes_view(shapes@).take(0) =~= Seq::<Seq<usize>>::empty());
            }
            assert(out@ =~= shapes_signature(shapes_view(shapes@).take(i as int + 1)));
        }
        i += 1;
    }
    proof {
        assert(shapes_view(shapes@).take(shapes.len() as int) =~= shapes_view(shapes@));
    }
    out
}

/// Key of the execution history of an operation: `op:dtype:[d0, d1, ..]`.
pub open spec fn history_key_text(op: Seq<char>, dtype: Seq<char>, shape: Seq<usize>) -> Seq<char> {
    op + ":"@ + dtype + ":"@ + "["@ + dims_joined(shape, ", "@) + "]"@
}

/// The execution-history key of an operation on a shape.
pub fn history_key(op: &str, dtype: &str, shape: &[usize]) -> (r: String)
    ensures
        r@ == history_key_text(op@, dtype@, shape@),
{
    let mut out = String::from_str(op);
    out.append(":");
    out.append(dtype);
    out.append(":");
    out.append("[");
    append_joined(&mut out, shape, ", ");
    out.append("]");
    out
}

/// An ASCII decimal digit.
pub open spec fn is_digit(c: u8) -> bool {
    0x30u8 <= c <= 0x39u8
}

/// The value of a string of decimal digits.
pub open spec fn digits_value(d: Seq<u8>) -> nat
    decreases d.len(),
{
    if d.len() == 0 {
        0
    } else {
        digits_value(d.drop_last()) * 10 + (d.last() - 0x30u8) as nat
    }
}

/// `str::parse::<usize>`: an optional `+`, then at least one decimal digit
/// and nothing else, with a value that fits a `usize`.
pub open spec fn parse_usize(b: Seq<u8>) -> Option<usize> {
    let d = unsigned_digits(b);
    if d.len() == 0 {
        None
    } else if !all_digits(d) {
        None
    } else if digits_value(d) > usize::MAX {
        None
    } else {
        Some(digits_value(d) as usize)
    }
}

/// The text after an optional leading `+`.
pub open spec fn unsigned_digits(b: Seq<u8>) -> Seq<u8> {
    if b.len() > 0 && b[0] == 0x2bu8 {
        b.drop_first()
    } else {
        b
    }
}

/// Every byte is a decimal digit.
pub open spec fn all_digits(d: Seq<u8>) -> bool {
    forall|i: int| 0 <= i < d.len() ==> #[trigger] is_digit(d[i])
}

/// The stencil radius named by an operation: the number after the first
/// `_r` (`stencil_3d_r4` has radius 4); else 4 for an 8th-order and 6 for a
/// 12th-order operation; else 1.
pub open spec fn op_radius(op: Seq<u8>) -> usize {
    match radius_number(op) {
        Some(r) => r,
        None => if find_from(op, encode_utf8("order_8"@), 0) is Some {
            4
        } else if find_from(op, encode_utf8("order_12"@), 0) is Some {
            6
        } else {
            1
        },
    }
}

fn occurs_at_exec(b: &[u8], p: &[u8], i: usize) -> (r: bool)
    requires
        i + p.len() <= b.len(),
    ensures
        r == occurs_at(b@, p@, i as int),
{
    let mut k: usize = 0;
    while k < p.len()
        invariant
            k <= p.len(),
            i + p.len() <= b.len(),
            forall|t: int| 0 <= t < k ==> b@[i + t] == p@[t],
        decreases p.len() - k,
    {
        if b[i + k] != p[k] {
            proof {
                assert(b@.subrange(i as int, i + p.len() as int)[k as int] != p@[k as int]);
            }
            return false;
        }
        k += 1;
    }
    proof {
        assert(b@.subrange(i as int, i + p.len() as int) =~= p@);
    }
    true
}

/// The first occurrence of `p` in `b` at or after byte `from`.
fn find_bytes(b: &[u8], p: &[u8], from: usize) -> (r: Option<usize>)
    ensures
        r matches Some(i) ==> find_from(b@, p@, from as int) == Some(i as int),
        r is None ==> find_from(b@, p@, from as int) is None,
        r matches Some(i) ==> from <= i && i + p.len() <= b.len(),
    decreases b.len() + 1 - from,
{
    proof {
        lemma_find_from_range(b@, p@, from as int);
    }
    if from > b.len() || p.len() > b.len() - from {
        return None;
    }
    if occurs_at_exec(b, p, from) {
        return Some(from);
    }
    proof {
        assert(p.len() > 0) by {
            if p.len() == 0 {
                assert(b@.subrange(from as int, from as int) =~= p@);
            }
        }
    }
    find_bytes(b, p, from + 1)
}

proof fn lemma_prefix_value(d: Seq<u8>, k: int)
    requires
        0 <= k <= d.len(),
        forall|i: int| 0 <= i < d.len() ==> #[trigger] is_digit(d[i]),
    ensures
        digits_value(d.take(k)) <= digits_value(d),
    decreases d.len() - k,
{
    if k < d.len() {
        lemma_prefix_value(d, k + 1);
        assert(d.take(k + 1).drop_last() =~= d.take(k));
    } else {
        assert(d.take(k) =~= d);
    }
}

/// `str::parse::<usize>` on bytes.
pub fn parse_usize_bytes(b: &[u8]) -> (r: Option<usize>)
    ensures
        r == parse_usize(b@),
{
    let mut start: usize = 0;
    if b.len() > 0 && b[0] == 0x2bu8 {
        start = 1;
    }
    let ghost d = unsigned_digits(b@);
    proof {
        assert(d =~= b@.subrange(start as int, b@.len() as int));
    }
    if start >= b.len() {
        return None;
    }
    let mut v: usize = 0;
    let mut i: usize = start;
    while i < b.len()
        invariant
            start <= i <= b.len(),
            start < b.len(),
            d == b@.subrange(start as int, b@.len() as int),
            d == unsigned_digits(b@),
            forall|t: int| 0 <= t < i - start ==> #[trigger] is_digit(d[t]),
            v as nat == digits_value(d.take(i - start)),
        decreases b.len() - i,
    {
        let c = b[i];
        proof {
            assert(d[i - start] == c);
            assert(d.take(i - start + 1).last() == c);
        }
        if c < 0x30u8 || c > 0x39u8 {
            proof {
                assert(!is_digit(d[i - start]));
                assert(!all_digits(d));
            }
            return None;
        }
        let digit: usize = (c - 0x30u8) as usize;
        proof {
            assert(d.take(i - start + 1).drop_last() =~= d.take(i - start));
        }
        if v > (usize::MAX - digit) / 10 {
            proof {
                assert(v * 10 + digit > usize::MAX) by (nonlinear_arith)
                    requires v > (usize::MAX - digit) / 10, 0 <= digit <= 9;
                if all_digits(d) {
                    lemma_prefix_value(d, i - start + 1);
                    assert(digits_value(d.take(i - start + 1)) == v * 10 + digit);
                    assert(digits_value(d) > usize::MAX);
                }
                assert(d.len() > 0);
            }
            return None;
        }
        proof {
            assert(v * 10 + digit <= usize::MAX) by (nonlinear_arith)
                requires v <= (usize::MAX - digit) / 10, 0 <= digit <= 9;
        }
        v = v * 10 + digit;
        i += 1;
    }
    proof {
        assert(d.take(d.len() as int) =~= d);
    }
    Some(v)
}

/// The radius number after the first `_r`, when it parses.
pub open spec fn radius_number(op: Seq<u8>) -> Option<usize> {
    match second_piece(op, encode_utf8("_r"@)) {
        Some(piece) => parse_usize(piece),
        None => None,
    }
}

fn radius_number_exec(b: &[u8]) -> (r: Option<usize>)
    ensures
        r == radius_number(b@),
{
    let pat = "_r".as_bytes();
    match find_bytes(b, pat, 0) {
        Some(i) => {
            let start = i + pat.len();
            let end = match find_bytes(b, pat, start) {
                Some(j) => j,
                None => b.len(),
            };
            let piece = vstd::slice::slice_subrange(b, start, end);
            proof {
                assert(second_piece(b@, pat@) == Some(piece@));
            }
            parse_usize_bytes(piece)
        },
        None => None,
    }
}

/// The stencil radius named by an operation, see [`op_radius`].
pub fn extract_radius(op: &str) -> (r: usize)
    ensures
        r == op_radius(encode_utf8(op@)),
{
    let b = op.as_bytes();
    match radius_number_exec(b) {
        Some(radius) => {
            return radius;
        },
        None => {},
    }
    if find_bytes(b, "order_8".as_bytes(), 0).is_some() {
        return 4;
    }
    if find_bytes(b, "order_12".as_bytes(), 0).is_some() {
        return 6;
    }
    1
}

} // verus!
