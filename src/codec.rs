//! Fixed-width register codec: a register value travels as `width` bytes,
//! little- or big-endian.
use vstd::prelude::*;

verus! {

/// Byte order of the target.
#[derive(Clone, Copy, Debug, PartialEq, Eq, Structural)]
pub enum Endian {
    Little,
    Big,
}

/// `256` to the power `w`.
pub open spec fn radix(w: nat) -> nat
    decreases w,
{
    if w == 0 {
        1
    } else {
        256 * radix((w - 1) as nat)
    }
}

/// The `w` low-order bytes of `v`, least significant first (zero-filled past eight bytes).
pub open spec fn le_bytes(v: nat, w: nat) -> Seq<u8>
    decreases w,
{
    if w == 0 {
        seq![]
    } else {
        seq![(v % 256) as u8] + le_bytes(v / 256, (w - 1) as nat)
    }
}

/// The `w` low-order bytes of `v`, most significant first.
pub open spec fn be_bytes(v: nat, w: nat) -> Seq<u8>
    decreases w,
{
    if w == 0 {
        seq![]
    } else {
        be_bytes(v / 256, (w - 1) as nat).push((v % 256) as u8)
    }
}

/// The number that bytes `b` spell, least significant first.
pub open spec fn le_value(b: Seq<u8>) -> nat
    decreases b.len(),
{
    if b.len() == 0 {
        0
    } else {
        b[0] as nat + 256 * le_value(b.subrange(1, b.len() as int))
    }
}

/// The number that bytes `b` spell, most significant first.
pub open spec fn be_value(b: Seq<u8>) -> nat
    decreases b.len(),
{
    if b.len() == 0 {
        0
    } else {
        b.last() as nat + 256 * be_value(b.drop_last())
    }
}

/// How many bytes of a register's transfer carry its value: at most eight.
pub open spec fn value_width(n: nat) -> nat {
    if n < 8 {
        n
    } else {
        8
    }
}

/// The bytes that carry value `v` in a register `w` bytes wide.
pub open spec fn encoding(e: Endian, v: nat, w: nat) -> Seq<u8> {
    match e {
        Endian::Little => le_bytes(v, w),
        Endian::Big => be_bytes(v, w),
    }
}

/// The value that a register transfer `b` carries: its eight (or fewer)
/// least significant bytes.
pub open spec fn decoding(e: Endian, b: Seq<u8>) -> nat {
    let d = value_width(b.len());
    match e {
        Endian::Little => le_value(b.subrange(0, d as int)),
        Endian::Big => be_value(b.subrange(b.len() - d, b.len() as int)),
    }
}

pub proof fn lemma_radix_positive(w: nat)
    ensures
        radix(w) > 0,
    decreases w,
{
    if w > 0 {
        lemma_radix_positive((w - 1) as nat);
    }
}

pub proof fn lemma_radix_monotonic(a: nat, b: nat)
    requires
        a <= b,
    ensures
        radix(a) <= radix(b),
    decreases b,
{
    if a < b {
        lemma_radix_monotonic(a, (b - 1) as nat);
        lemma_radix_positive((b - 1) as nat);
    }
}

pub proof fn lemma_radix_eight()
    ensures
        radix(8) == 0x1_0000_0000_0000_0000,
        radix(7) == 0x1_0000_0000_0000_00,
{
    reveal_with_fuel(radix, 9);
}

pub proof fn lemma_le_value_bound(b: Seq<u8>)
    ensures
        le_value(b) < radix(b.len()),
    decreases b.len(),
{
    if b.len() > 0 {
        let rest = b.subrange(1, b.len() as int);
        lemma_le_value_bound(rest);
        let r = radix(rest.len());
        let x = le_value(rest);
        let y = b[0] as nat;
        assert(y + 256 * x < 256 * r) by (nonlinear_arith)
            requires
                x < r,
                y < 256,
        ;
    }
}

pub proof fn lemma_be_value_bound(b: Seq<u8>)
    ensures
        be_value(b) < radix(b.len()),
    decreases b.len(),
{
    if b.len() > 0 {
        let rest = b.drop_last();
        lemma_be_value_bound(rest);
        let r = radix(rest.len());
        let x = be_value(rest);
        let y = b.last() as nat;
        assert(y + 256 * x < 256 * r) by (nonlinear_arith)
            requires
                x < r,
                y < 256,
        ;
    }
}

pub proof fn lemma_le_bytes_len(v: nat, w: nat)
    ensures
        le_bytes(v, w).len() == w,
    decreases w,
{
    if w > 0 {
        lemma_le_bytes_len(v / 256, (w - 1) as nat);
    }
}

pub proof fn lemma_be_bytes_len(v: nat, w: nat)
    ensures
        be_bytes(v, w).len() == w,
    decreases w,
{
    if w > 0 {
        lemma_be_bytes_len(v / 256, (w - 1) as nat);
    }
}

pub proof fn lemma_encoding_len(e: Endian, v: nat, w: nat)
    ensures
        encoding(e, v, w).len() == w,
{
    lemma_le_bytes_len(v, w);
    lemma_be_bytes_len(v, w);
}

/// Reading back little-endian bytes gives the value modulo their range.
pub proof fn lemma_le_round_trip(v: nat, w: nat)
    ensures
        le_value(le_bytes(v, w)) == v % radix(w),
    decreases w,
{
    if w > 0 {
        let b = le_bytes(v, w);
        lemma_le_bytes_len(v, w);
        assert(b.subrange(1, b.len() as int) =~= le_bytes(v / 256, (w - 1) as nat));
        lemma_le_round_trip(v / 256, (w - 1) as nat);
        lemma_radix_positive((w - 1) as nat);
        vstd::arithmetic::div_mod::lemma_mod_breakdown(v as int, 256, radix((w - 1) as nat) as int);
    }
}

/// Reading back big-endian bytes gives the value modulo their range.
pub proof fn lemma_be_round_trip(v: nat, w: nat)
    ensures
        be_value(be_bytes(v, w)) == v % radix(w),
    decreases w,
{
    if w > 0 {
        let b = be_bytes(v, w);
        assert(b.drop_last() =~= be_bytes(v / 256, (w - 1) as nat));
        lemma_be_round_trip(v / 256, (w - 1) as nat);
        lemma_radix_positive((w - 1) as nat);
        vstd::arithmetic::div_mod::lemma_mod_breakdown(v as int, 256, radix((w - 1) as nat) as int);
    }
}

pub proof fn lemma_le_bytes_prefix(v: nat, w: nat, k: nat)
    requires
        k <= w,
    ensures
        le_bytes(v, w).subrange(0, k as int) =~= le_bytes(v, k),
    decreases k,
{
    lemma_le_bytes_len(v, w);
    if k > 0 {
        lemma_le_bytes_prefix(v / 256, (w - 1) as nat, (k - 1) as nat);
        lemma_le_bytes_len(v / 256, (w - 1) as nat);
        assert(le_bytes(v, w).subrange(0, k as int) =~= seq![(v % 256) as u8] + le_bytes(
            v / 256,
            (w - 1) as nat,
        ).subrange(0, k - 1));
    }
}

pub proof fn lemma_be_bytes_suffix(v: nat, w: nat, k: nat)
    requires
        k <= w,
    ensures
        be_bytes(v, w).subrange(w - k, w as int) =~= be_bytes(v, k),
    decreases k,
{
    lemma_be_bytes_len(v, w);
    if k > 0 {
        lemma_be_bytes_suffix(v / 256, (w - 1) as nat, (k - 1) as nat);
        lemma_be_bytes_len(v / 256, (w - 1) as nat);
        assert(be_bytes(v, w).subrange(w - k, w as int) =~= be_bytes(v / 256, (w - 1) as nat).subrange(
            w - k,
            w - 1,
        ).push((v % 256) as u8));
    }
}

/// A value that fits its register comes back unchanged from its encoding.
pub proof fn lemma_codec_round_trip(e: Endian, v: nat, w: nat)
    requires
        v < radix(value_width(w)),
    ensures
        decoding(e, encoding(e, v, w)) == v,
{
    let d = value_width(w);
    lemma_encoding_len(e, v, w);
    lemma_radix_positive(d);
    vstd::arithmetic::div_mod::lemma_small_mod(v, radix(d));
    match e {
        Endian::Little => {
            lemma_le_bytes_prefix(v, w, d);
            lemma_le_round_trip(v, d);
        },
        Endian::Big => {
            lemma_be_bytes_suffix(v, w, d);
            lemma_be_round_trip(v, d);
        },
    }
}

/// Every 64-bit value fits a register of eight bytes or more; a narrower
/// register holds exactly the values below `radix(w)`.
pub open spec fn fits(v: u64, w: nat) -> bool {
    v < radix(value_width(w))
}

/// Bytes that carry `value` in a register `width` bytes wide.
pub fn encode_value(endian: Endian, value: u64, width: usize) -> (r: Vec<u8>)
    ensures
        r@ == encoding(endian, value as nat, width as nat),
        r@.len() == width,
{
    proof {
        lemma_encoding_len(endian, value as nat, width as nat);
    }
    let mut x: u64 = value;
    let mut i: usize = 0;
    match endian {
        Endian::Little => {
            let mut out: Vec<u8> = Vec::new();
            while i < width
                invariant
                    i <= width,
                    out@ + le_bytes(x as nat, (width - i) as nat) == le_bytes(value as nat, width as nat),
                decreases width - i,
            {
                let ghost k = (width - i) as nat;
                let ghost before = out@;
                assert(le_bytes(x as nat, k) == seq![(x % 256) as u8] + le_bytes((x / 256) as nat, (k - 1) as nat));
                out.push((x % 256) as u8);
                x = x / 256;
                i = i + 1;
                assert(before + (seq![out@.last()] + le_bytes(x as nat, (width - i) as nat)) =~= out@ + le_bytes(x as nat, (width - i) as nat));
            }
            assert(out@ =~= out@ + le_bytes(x as nat, 0));
            out
        },
        Endian::Big => {
            let mut out: Vec<u8> = Vec::new();
            while i < width
                invariant
                    i <= width,
                    out@.len() == i,
                    be_bytes(x as nat, (width - i) as nat) + out@ == be_bytes(value as nat, width as nat),
                decreases width - i,
            {
                let ghost k = (width - i) as nat;
                let ghost before = out@;
                assert(be_bytes(x as nat, k) == be_bytes((x / 256) as nat, (k - 1) as nat).push((x % 256) as u8));
                out.insert(0, (x % 256) as u8);
                x = x / 256;
                i = i + 1;
                assert(be_bytes(x as nat, (width - i) as nat).push(out@[0]) + before =~= be_bytes(x as nat, (width - i) as nat) + out@);
            }
            assert(out@ =~= be_bytes(x as nat, 0) + out@);
            out
        },
    }
}

/// The value that the transfer `bytes` of one register carries.
pub fn decode_value(endian: Endian, bytes: &[u8]) -> (r: u64)
    ensures
        r as nat == decoding(endian, bytes@),
{
    let n = bytes.len();
    let d: usize = if n < 8 { n } else { 8 };
    let mut acc: u64 = 0;
    proof {
        lemma_radix_eight();
        reveal_with_fuel(le_value, 1);
        reveal_with_fuel(be_value, 1);
    }
    match endian {
        Endian::Little => {
            let mut i: usize = d;
            assert(bytes@.subrange(d as int, d as int) =~= Seq::<u8>::empty());
            while i > 0
                invariant
                    i <= d,
                    d == value_width(n as nat),
                    n == bytes@.len(),
                    acc as nat == le_value(bytes@.subrange(i as int, d as int)),
                    radix(7) == 0x1_0000_0000_0000_00,
                decreases i,
            {
                let ghost tail = bytes@.subrange(i as int, d as int);
                proof {
                    lemma_le_value_bound(tail);
                    lemma_radix_monotonic(tail.len(), 7);
                }
                let ghost s = bytes@.subrange(i - 1, d as int);
                assert(s.subrange(1, s.len() as int) =~= tail);
                acc = bytes[i - 1] as u64 + 256 * acc;
                i = i - 1;
            }
        },
        Endian::Big => {
            let start: usize = n - d;
            let mut i: usize = start;
            assert(bytes@.subrange(start as int, start as int) =~= Seq::<u8>::empty());
            while i < n
                invariant
                    start <= i <= n,
                    d == value_width(n as nat),
                    start == n - d,
                    n == bytes@.len(),
                    acc as nat == be_value(bytes@.subrange(start as int, i as int)),
                    radix(7) == 0x1_0000_0000_0000_00,
                decreases n - i,
            {
                let ghost head = bytes@.subrange(start as int, i as int);
                proof {
                    lemma_be_value_bound(head);
                    lemma_radix_monotonic(head.len(), 7);
                }
                let ghost s = bytes@.subrange(start as int, i + 1);
                assert(s.drop_last() =~= head);
                acc = bytes[i] as u64 + 256 * acc;
                i = i + 1;
            }
        },
    }
    acc
}

} // verus!
