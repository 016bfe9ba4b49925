//! The byte format of account state and instruction data: integers in
//! little-endian order, `bool` as one byte (0 or 1), an address as its 32
//! bytes, a sequence as its length in four little-endian bytes followed by
//! its items, a struct as its fields in order, an enum as its variant number
//! in one byte followed by the variant's fields.
//!
//! Readers work at an absolute position in a byte sequence and give back the
//! value read and the position after it; they read a prefix and leave what
//! follows alone.
use vstd::prelude::*;

use crate::pubkey::Pubkey;

verus! {

// ---------------------------------------------------------------------------
// Integers
// ---------------------------------------------------------------------------
/// The `n` low-order bytes of `x`, least significant first.
pub open spec fn le_bytes(x: nat, n: nat) -> Seq<u8>
    decreases n,
{
    if n == 0 {
        Seq::empty()
    } else {
        seq![(x % 256) as u8] + le_bytes(x / 256, (n - 1) as nat)
    }
}

/// The number whose little-endian bytes are `s`.
pub open spec fn le_value(s: Seq<u8>) -> nat
    decreases s.len(),
{
    if s.len() == 0 {
        0
    } else {
        s[0] as nat + 256 * le_value(s.drop_first())
    }
}

/// 256 to the power `n`.
pub open spec fn pow256(n: nat) -> nat
    decreases n,
{
    if n == 0 {
        1
    } else {
        256 * pow256((n - 1) as nat)
    }
}

pub proof fn lemma_le_bytes_len(x: nat, n: nat)
    ensures
        le_bytes(x, n).len() == n,
    decreases n,
{
    if n > 0 {
        lemma_le_bytes_len(x / 256, (n - 1) as nat);
    }
}

/// Reading back `n` little-endian bytes gives the number they were made of.
pub proof fn lemma_le_roundtrip(x: nat, n: nat)
    requires
        x < pow256(n),
    ensures
        le_value(le_bytes(x, n)) == x,
    decreases n,
{
    if n > 0 {
        let b = le_bytes(x, n);
        assert(x / 256 < pow256((n - 1) as nat));
        lemma_le_roundtrip(x / 256, (n - 1) as nat);
        assert(b.drop_first() =~= le_bytes(x / 256, (n - 1) as nat));
    }
}

/// 256 to any power is positive.
pub proof fn lemma_pow256_positive(n: nat)
    ensures
        pow256(n) > 0,
    decreases n,
{
    if n > 0 {
        lemma_pow256_positive((n - 1) as nat);
    }
}

/// The bytes are the base-256 digits of the number, least significant
/// first: byte `k` is `x / 256^k` modulo 256.
pub proof fn lemma_le_bytes_digits(x: nat, n: nat)
    ensures
        le_bytes(x, n).len() == n,
        forall|k: int| 0 <= k < n ==> #[trigger] le_bytes(x, n)[k] == (x / pow256(k as nat)) % 256,
    decreases n,
{
    lemma_le_bytes_len(x, n);
    if n > 0 {
        lemma_le_bytes_digits(x / 256, (n - 1) as nat);
        assert forall|k: int| 0 <= k < n implies #[trigger] le_bytes(x, n)[k] == (x / pow256(k as nat)) % 256 by {
            if k == 0 {
                assert(pow256(0) == 1);
            } else {
                assert(le_bytes(x, n)[k] == le_bytes(x / 256, (n - 1) as nat)[k - 1]);
                lemma_pow256_positive((k - 1) as nat);
                vstd::arithmetic::div_mod::lemma_div_denominator(x as int, 256, pow256((k - 1) as nat) as int);
                assert(pow256(k as nat) == 256 * pow256((k - 1) as nat));
            }
        }
    }
}

pub proof fn lemma_le_value_bound(s: Seq<u8>)
    ensures
        le_value(s) < pow256(s.len()),
    decreases s.len(),
{
    if s.len() > 0 {
        lemma_le_value_bound(s.drop_first());
    }
}

pub proof fn lemma_pow256_monotonic(a: nat, b: nat)
    requires
        a <= b,
    ensures
        pow256(a) <= pow256(b),
    decreases b,
{
    if a < b {
        lemma_pow256_monotonic(a, (b - 1) as nat);
    }
}

pub proof fn lemma_pow256_values()
    ensures
        pow256(1) == 0x100,
        pow256(4) == 0x1_0000_0000,
        pow256(8) == 0x1_0000_0000_0000_0000,
        pow256(16) == 0x1_0000_0000_0000_0000_0000_0000_0000_0000,
{
    reveal_with_fuel(pow256, 17);
}

/// Appends the `n` low-order bytes of `x`, least significant first.
pub fn write_le(out: &mut Vec<u8>, x: u128, n: usize)
    ensures
        final(out)@ == old(out)@ + le_bytes(x as nat, n as nat),
{
    let ghost start = out@;
    let mut v: u128 = x;
    let mut i: usize = 0;
    assert(out@ + le_bytes(v as nat, n as nat) =~= start + le_bytes(x as nat, n as nat));
    while i < n
        invariant
            i <= n,
            out@ + le_bytes(v as nat, (n - i) as nat) == start + le_bytes(x as nat, n as nat),
        decreases n - i,
    {
        let ghost prev = out@;
        let ghost vv = v as nat;
        let byte = (v % 256) as u8;
        out.push(byte);
        v = v / 256;
        i = i + 1;
        assert(le_bytes(vv, (n - i + 1) as nat) == seq![byte] + le_bytes(v as nat, (n - i) as nat));
        assert(out@ + le_bytes(v as nat, (n - i) as nat) =~= prev + le_bytes(vv, (n - i + 1) as nat));
    }
}

/// The value of the `n` bytes at position `p`, and the position after them.
pub open spec fn read_le(s: Seq<u8>, p: nat, n: nat) -> Option<(nat, nat)> {
    if p + n <= s.len() {
        Some((le_value(s.subrange(p as int, (p + n) as int)), p + n))
    } else {
        None
    }
}

/// Reads the number whose `n` little-endian bytes stand at `pos`.
pub fn read_le_at(s: &[u8], pos: usize, n: usize) -> (r: Option<(u128, usize)>)
    requires
        n <= 16,
    ensures
        r is Some <==> read_le(s@, pos as nat, n as nat) is Some,
        r matches Some((v, q)) ==> read_le(s@, pos as nat, n as nat) == Some((v as nat, q as nat))
            && q <= s@.len(),
{
    if pos > s.len() || n > s.len() - pos {
        return None;
    }
    let mut v: u128 = 0;
    let mut i: usize = n;
    proof {
        assert(s@.subrange((pos + n) as int, (pos + n) as int) =~= Seq::<u8>::empty());
        lemma_pow256_values();
    }
    while i > 0
        invariant
            i <= n,
            n <= 16,
            pos + n <= s@.len(),
            s@.len() == s.len(),
            v as nat == le_value(s@.subrange((pos + i) as int, (pos + n) as int)),
            (v as nat) < pow256((n - i) as nat),
            pow256(16) == 0x1_0000_0000_0000_0000_0000_0000_0000_0000,
        decreases i,
    {
        i = i - 1;
        let b = s[pos + i];
        proof {
            lemma_pow256_monotonic((n - i) as nat, 16);
            let sub = s@.subrange((pos + i) as int, (pos + n) as int);
            assert(sub.drop_first() =~= s@.subrange((pos + i + 1) as int, (pos + n) as int));
            assert(sub[0] == b);
        }
        v = v * 256 + b as u128;
    }
    Some((v, pos + n))
}

// ---------------------------------------------------------------------------
// Scalars
// ---------------------------------------------------------------------------
pub open spec fn enc_u8(x: u8) -> Seq<u8> {
    seq![x]
}

pub open spec fn enc_bool(b: bool) -> Seq<u8> {
    seq![if b { 1u8 } else { 0u8 }]
}

pub open spec fn enc_u32(x: u32) -> Seq<u8> {
    le_bytes(x as nat, 4)
}

pub open spec fn enc_u64(x: u64) -> Seq<u8> {
    le_bytes(x as nat, 8)
}

pub open spec fn enc_u128(x: u128) -> Seq<u8> {
    le_bytes(x as nat, 16)
}

/// An address is written as its 32 bytes.
pub open spec fn enc_pubkey(k: Seq<u8>) -> Seq<u8> {
    k
}

pub open spec fn read_u8(s: Seq<u8>, p: nat) -> Option<(u8, nat)> {
    if p < s.len() {
        Some((s[p as int], p + 1))
    } else {
        None
    }
}

/// A `bool` is the byte 0 or 1; any other byte is refused.
pub open spec fn read_bool(s: Seq<u8>, p: nat) -> Option<(bool, nat)> {
    if p < s.len() {
        if s[p as int] == 0 {
            Some((false, p + 1))
        } else if s[p as int] == 1 {
            Some((true, p + 1))
        } else {
            None
        }
    } else {
        None
    }
}

pub open spec fn read_u32(s: Seq<u8>, p: nat) -> Option<(u32, nat)> {
    match read_le(s, p, 4) {
        Some((v, q)) => Some((v as u32, q)),
        None => None,
    }
}

pub open spec fn read_u64(s: Seq<u8>, p: nat) -> Option<(u64, nat)> {
    match read_le(s, p, 8) {
        Some((v, q)) => Some((v as u64, q)),
        None => None,
    }
}

pub open spec fn read_u128(s: Seq<u8>, p: nat) -> Option<(u128, nat)> {
    match read_le(s, p, 16) {
        Some((v, q)) => Some((v as u128, q)),
        None => None,
    }
}

pub open spec fn read_pubkey(s: Seq<u8>, p: nat) -> Option<(Seq<u8>, nat)> {
    if p + 32 <= s.len() {
        Some((s.subrange(p as int, (p + 32) as int), p + 32))
    } else {
        None
    }
}

/// The bytes at position `p` of `s` are `e`.
pub open spec fn bytes_at(s: Seq<u8>, p: nat, e: Seq<u8>) -> bool {
    &&& p + e.len() <= s.len()
    &&& s.subrange(p as int, (p + e.len()) as int) == e
}

/// What an exec reader returned agrees with what the spec reader gives:
/// the same value (by its deep view) and the same next position, or failure
/// on both sides.
pub open spec fn agrees<E: DeepView>(r: Option<(E, usize)>, spec: Option<(E::V, nat)>, len: nat) -> bool {
    match r {
        Some((e, q)) => spec == Some((e.deep_view(), q as nat)) && q <= len,
        None => spec is None,
    }
}

pub proof fn lemma_bytes_at_concat(s: Seq<u8>, p: nat, a: Seq<u8>, b: Seq<u8>)
    requires
        bytes_at(s, p, a + b),
    ensures
        bytes_at(s, p, a),
        bytes_at(s, p + a.len(), b),
{
    assert(s.subrange(p as int, (p + a.len()) as int) =~= (a + b).subrange(0, a.len() as int));
    assert((a + b).subrange(0, a.len() as int) =~= a);
    assert(s.subrange((p + a.len()) as int, (p + a.len() + b.len()) as int) =~= (a + b).subrange(
        a.len() as int,
        (a + b).len() as int,
    ));
    assert((a + b).subrange(a.len() as int, (a + b).len() as int) =~= b);
}

pub proof fn lemma_read_u8(s: Seq<u8>, p: nat, x: u8)
    requires
        bytes_at(s, p, enc_u8(x)),
    ensures
        read_u8(s, p) == Some((x, p + 1)),
{
    assert(s[p as int] == s.subrange(p as int, (p + 1) as int)[0]);
}

pub proof fn lemma_read_bool(s: Seq<u8>, p: nat, b: bool)
    requires
        bytes_at(s, p, enc_bool(b)),
    ensures
        read_bool(s, p) == Some((b, p + 1)),
{
    assert(s[p as int] == s.subrange(p as int, (p + 1) as int)[0]);
}

pub proof fn lemma_read_u32(s: Seq<u8>, p: nat, x: u32)
    requires
        bytes_at(s, p, enc_u32(x)),
    ensures
        read_u32(s, p) == Some((x, p + 4)),
{
    lemma_le_bytes_len(x as nat, 4);
    lemma_pow256_values();
    lemma_le_roundtrip(x as nat, 4);
}

pub proof fn lemma_read_u64(s: Seq<u8>, p: nat, x: u64)
    requires
        bytes_at(s, p, enc_u64(x)),
    ensures
        read_u64(s, p) == Some((x, p + 8)),
{
    lemma_le_bytes_len(x as nat, 8);
    lemma_pow256_values();
    lemma_le_roundtrip(x as nat, 8);
}

pub proof fn lemma_read_u128(s: Seq<u8>, p: nat, x: u128)
    requires
        bytes_at(s, p, enc_u128(x)),
    ensures
        read_u128(s, p) == Some((x, p + 16)),
{
    lemma_le_bytes_len(x as nat, 16);
    lemma_pow256_values();
    lemma_le_roundtrip(x as nat, 16);
}

pub proof fn lemma_read_pubkey(s: Seq<u8>, p: nat, k: Seq<u8>)
    requires
        bytes_at(s, p, enc_pubkey(k)),
        k.len() == 32,
    ensures
        read_pubkey(s, p) == Some((k, p + 32)),
{
}

pub fn write_u8(out: &mut Vec<u8>, x: u8)
    ensures
        final(out)@ == old(out)@ + enc_u8(x),
{
    out.push(x);
    assert(out@ =~= old(out)@ + enc_u8(x));
}

pub fn write_bool(out: &mut Vec<u8>, b: bool)
    ensures
        final(out)@ == old(out)@ + enc_bool(b),
{
    if b {
        out.push(1);
    } else {
        out.push(0);
    }
    assert(out@ =~= old(out)@ + enc_bool(b));
}

pub fn write_u32(out: &mut Vec<u8>, x: u32)
    ensures
        final(out)@ == old(out)@ + enc_u32(x),
{
    write_le(out, x as u128, 4);
}

pub fn write_u64(out: &mut Vec<u8>, x: u64)
    ensures
        final(out)@ == old(out)@ + enc_u64(x),
{
    write_le(out, x as u128, 8);
}

pub fn write_u128(out: &mut Vec<u8>, x: u128)
    ensures
        final(out)@ == old(out)@ + enc_u128(x),
{
    write_le(out, x, 16);
}

pub fn write_pubkey(out: &mut Vec<u8>, k: &Pubkey)
    ensures
        final(out)@ == old(out)@ + enc_pubkey(k@),
{
    let ghost start = out@;
    let mut i: usize = 0;
    while i < 32
        invariant
            i <= 32,
            out@ == start + k@.take(i as int),
        decreases 32 - i,
    {
        out.push(k.bytes[i]);
        i = i + 1;
        assert(out@ =~= start + k@.take(i as int));
    }
    assert(k@.take(32) =~= k@);
}

pub fn read_u8_at(s: &[u8], pos: usize) -> (r: Option<(u8, usize)>)
    ensures
        agrees(r, read_u8(s@, pos as nat), s@.len()),
{
    if pos < s.len() {
        Some((s[pos], pos + 1))
    } else {
        None
    }
}

pub fn read_bool_at(s: &[u8], pos: usize) -> (r: Option<(bool, usize)>)
    ensures
        agrees(r, read_bool(s@, pos as nat), s@.len()),
{
    if pos < s.len() {
        let b = s[pos];
        if b == 0 {
            Some((false, pos + 1))
        } else if b == 1 {
            Some((true, pos + 1))
        } else {
            None
        }
    } else {
        None
    }
}

pub fn read_u32_at(s: &[u8], pos: usize) -> (r: Option<(u32, usize)>)
    ensures
        agrees(r, read_u32(s@, pos as nat), s@.len()),
{
    match read_le_at(s, pos, 4) {
        Some((v, q)) => {
            proof {
                lemma_le_value_bound(s@.subrange(pos as int, pos + 4));
                lemma_pow256_values();
            }
            Some((v as u32, q))
        },
        None => None,
    }
}

pub fn read_u64_at(s: &[u8], pos: usize) -> (r: Option<(u64, usize)>)
    ensures
        agrees(r, read_u64(s@, pos as nat), s@.len()),
{
    match read_le_at(s, pos, 8) {
        Some((v, q)) => {
            proof {
                lemma_le_value_bound(s@.subrange(pos as int, pos + 8));
                lemma_pow256_values();
            }
            Some((v as u64, q))
        },
        None => None,
    }
}

pub fn read_u128_at(s: &[u8], pos: usize) -> (r: Option<(u128, usize)>)
    ensures
        agrees(r, read_u128(s@, pos as nat), s@.len()),
{
    read_le_at(s, pos, 16)
}

pub fn read_pubkey_at(s: &[u8], pos: usize) -> (r: Option<(Pubkey, usize)>)
    ensures
        agrees(r, read_pubkey(s@, pos as nat), s@.len()),
{
    if pos > s.len() || 32 > s.len() - pos {
        return None;
    }
    let mut bytes = [0u8; 32];
    let mut i: usize = 0;
    while i < 32
        invariant
            i <= 32,
            pos + 32 <= s@.len(),
            s@.len() == s.len(),
            forall|j: int| 0 <= j < i ==> bytes@[j] == s@[pos + j],
        decreases 32 - i,
    {
        bytes[i] = s[pos + i];
        i = i + 1;
    }
    assert(bytes@ =~= s@.subrange(pos as int, pos + 32));
    Some((Pubkey { bytes }, pos + 32))
}

// ---------------------------------------------------------------------------
// Sequences
// ---------------------------------------------------------------------------
/// The items of `xs`, each written by `f`, one after the other.
pub open spec fn flatten<T>(xs: Seq<T>, f: spec_fn(T) -> Seq<u8>) -> Seq<u8>
    decreases xs.len(),
{
    if xs.len() == 0 {
        Seq::empty()
    } else {
        flatten(xs.drop_last(), f) + f(xs.last())
    }
}

/// A sequence: its length in four bytes, then its items.
pub open spec fn enc_seq<T>(xs: Seq<T>, f: spec_fn(T) -> Seq<u8>) -> Seq<u8> {
    le_bytes(xs.len(), 4) + flatten(xs, f)
}

/// Reads `count` items one after the other, starting at `p`.
pub open spec fn read_items<T>(
    s: Seq<u8>,
    p: nat,
    count: nat,
    elem: spec_fn(Seq<u8>, nat) -> Option<(T, nat)>,
) -> Option<(Seq<T>, nat)>
    decreases count,
{
    if count == 0 {
        Some((Seq::empty(), p))
    } else {
        match elem(s, p) {
            Some((x, p1)) => match read_items(s, p1, (count - 1) as nat, elem) {
                Some((xs, p2)) => Some((seq![x] + xs, p2)),
                None => None,
            },
            None => None,
        }
    }
}

/// Reads a length in four bytes, then that many items.
pub open spec fn read_seq<T>(s: Seq<u8>, p: nat, elem: spec_fn(Seq<u8>, nat) -> Option<(T, nat)>) -> Option<
    (Seq<T>, nat),
> {
    match read_u32(s, p) {
        Some((n, q)) => read_items(s, q, n as nat, elem),
        None => None,
    }
}

/// Wherever `f(x)` stands in a byte sequence, for an `x` that `ok` admits,
/// `elem` reads `x` there and moves past it.
pub open spec fn reads_back<T>(
    elem: spec_fn(Seq<u8>, nat) -> Option<(T, nat)>,
    f: spec_fn(T) -> Seq<u8>,
    ok: spec_fn(T) -> bool,
) -> bool {
    forall|s: Seq<u8>, p: nat, x: T|
        #![trigger elem(s, p), f(x)]
        ok(x) && bytes_at(s, p, f(x)) ==> elem(s, p) == Some((x, p + f(x).len()))
}

/// Every item of `xs` is admitted by `ok`.
pub open spec fn all_ok<T>(xs: Seq<T>, ok: spec_fn(T) -> bool) -> bool {
    forall|i: int| 0 <= i < xs.len() ==> #[trigger] ok(xs[i])
}

pub proof fn lemma_flatten_first<T>(xs: Seq<T>, f: spec_fn(T) -> Seq<u8>)
    requires
        xs.len() > 0,
    ensures
        flatten(xs, f) == f(xs[0]) + flatten(xs.drop_first(), f),
    decreases xs.len(),
{
    if xs.len() == 1 {
        assert(xs.drop_last() =~= Seq::<T>::empty());
        assert(xs.drop_first() =~= Seq::<T>::empty());
        assert(flatten(xs, f) =~= f(xs[0]) + flatten(xs.drop_first(), f));
    } else {
        lemma_flatten_first(xs.drop_last(), f);
        assert(xs.drop_last().drop_first() =~= xs.drop_first().drop_last());
        assert(xs.drop_first().last() == xs.last());
        assert(flatten(xs, f) =~= f(xs[0]) + flatten(xs.drop_first(), f));
    }
}

pub proof fn lemma_flatten_push<T>(xs: Seq<T>, x: T, f: spec_fn(T) -> Seq<u8>)
    ensures
        flatten(xs.push(x), f) == flatten(xs, f) + f(x),
{
    assert(xs.push(x).drop_last() =~= xs);
}

pub proof fn lemma_read_items<T>(
    s: Seq<u8>,
    p: nat,
    xs: Seq<T>,
    f: spec_fn(T) -> Seq<u8>,
    elem: spec_fn(Seq<u8>, nat) -> Option<(T, nat)>,
    ok: spec_fn(T) -> bool,
)
    requires
        reads_back(elem, f, ok),
        all_ok(xs, ok),
        bytes_at(s, p, flatten(xs, f)),
    ensures
        read_items(s, p, xs.len(), elem) == Some((xs, p + flatten(xs, f).len())),
    decreases xs.len(),
{
    if xs.len() > 0 {
        lemma_flatten_first(xs, f);
        let x = xs[0];
        let rest = xs.drop_first();
        lemma_bytes_at_concat(s, p, f(x), flatten(rest, f));
        assert(ok(xs[0]));
        assert(elem(s, p) == Some((x, p + f(x).len())));
        assert(all_ok(rest, ok)) by {
            assert forall|i: int| 0 <= i < rest.len() implies #[trigger] ok(rest[i]) by {
                assert(rest[i] == xs[i + 1]);
            }
        }
        lemma_read_items(s, p + f(x).len(), rest, f, elem, ok);
        assert(seq![x] + rest =~= xs);
    } else {
        assert(flatten(xs, f) =~= Seq::<u8>::empty());
        assert(xs =~= Seq::<T>::empty());
    }
}

/// Wherever a sequence written by `enc_seq` stands, `read_seq` reads it back.
pub proof fn lemma_read_seq<T>(
    s: Seq<u8>,
    p: nat,
    xs: Seq<T>,
    f: spec_fn(T) -> Seq<u8>,
    elem: spec_fn(Seq<u8>, nat) -> Option<(T, nat)>,
    ok: spec_fn(T) -> bool,
)
    requires
        reads_back(elem, f, ok),
        all_ok(xs, ok),
        xs.len() <= u32::MAX,
        bytes_at(s, p, enc_seq(xs, f)),
    ensures
        read_seq(s, p, elem) == Some((xs, p + enc_seq(xs, f).len())),
{
    lemma_bytes_at_concat(s, p, le_bytes(xs.len(), 4), flatten(xs, f));
    lemma_le_bytes_len(xs.len(), 4);
    lemma_read_u32(s, p, xs.len() as u32);
    lemma_read_items(s, p + 4, xs, f, elem, ok);
}

/// One step of `read_items`: after reading one item, the rest of the read
/// continues from the position after it.
pub proof fn lemma_read_items_step<T>(
    s: Seq<u8>,
    p: nat,
    count: nat,
    elem: spec_fn(Seq<u8>, nat) -> Option<(T, nat)>,
    x: T,
    p1: nat,
    acc: Seq<T>,
)
    requires
        count > 0,
        elem(s, p) == Some((x, p1)),
    ensures
        (match read_items(s, p, count, elem) {
            Some((xs, q)) => Some((acc + xs, q)),
            None => None,
        }) == (match read_items(s, p1, (count - 1) as nat, elem) {
            Some((xs, q)) => Some((acc.push(x) + xs, q)),
            None => None,
        }),
{
    match read_items(s, p1, (count - 1) as nat, elem) {
        Some((xs, q)) => {
            assert(acc + (seq![x] + xs) =~= acc.push(x) + xs);
        },
        None => {},
    }
}

pub open spec fn u8_encoder() -> spec_fn(u8) -> Seq<u8> {
    |x: u8| enc_u8(x)
}

pub open spec fn u8_reader() -> spec_fn(Seq<u8>, nat) -> Option<(u8, nat)> {
    |s: Seq<u8>, p: nat| read_u8(s, p)
}

pub open spec fn bool_encoder() -> spec_fn(bool) -> Seq<u8> {
    |b: bool| enc_bool(b)
}

pub open spec fn bool_reader() -> spec_fn(Seq<u8>, nat) -> Option<(bool, nat)> {
    |s: Seq<u8>, p: nat| read_bool(s, p)
}

pub open spec fn pubkey_encoder() -> spec_fn(Seq<u8>) -> Seq<u8> {
    |k: Seq<u8>| enc_pubkey(k)
}

pub open spec fn pubkey_reader() -> spec_fn(Seq<u8>, nat) -> Option<(Seq<u8>, nat)> {
    |s: Seq<u8>, p: nat| read_pubkey(s, p)
}

/// Admits every value.
pub open spec fn any_value<T>() -> spec_fn(T) -> bool {
    |x: T| true
}

/// Admits the addresses of 32 bytes.
pub open spec fn is_pubkey() -> spec_fn(Seq<u8>) -> bool {
    |k: Seq<u8>| k.len() == 32
}

pub proof fn lemma_u8_reads_back()
    ensures
        reads_back(u8_reader(), u8_encoder(), any_value()),
{
    assert forall|s: Seq<u8>, p: nat, x: u8|
        any_value()(x) && bytes_at(s, p, #[trigger] u8_encoder()(x)) implies #[trigger] u8_reader()(s, p)
        == Some((x, p + u8_encoder()(x).len())) by {
        lemma_read_u8(s, p, x);
    }
}

pub proof fn lemma_bool_reads_back()
    ensures
        reads_back(bool_reader(), bool_encoder(), any_value()),
{
    assert forall|s: Seq<u8>, p: nat, b: bool|
        any_value()(b) && bytes_at(s, p, #[trigger] bool_encoder()(b)) implies #[trigger] bool_reader()(s, p)
        == Some((b, p + bool_encoder()(b).len())) by {
        lemma_read_bool(s, p, b);
    }
}

pub proof fn lemma_pubkey_reads_back()
    ensures
        reads_back(pubkey_reader(), pubkey_encoder(), is_pubkey()),
{
    assert forall|s: Seq<u8>, p: nat, k: Seq<u8>|
        is_pubkey()(k) && bytes_at(s, p, #[trigger] pubkey_encoder()(k)) implies #[trigger] pubkey_reader()(s, p)
        == Some((k, p + pubkey_encoder()(k).len())) by {
        lemma_read_pubkey(s, p, k);
    }
}

/// Every item of any sequence is admitted by `any_value`.
pub proof fn lemma_all_any<T>(xs: Seq<T>)
    ensures
        all_ok(xs, any_value()),
{
}

/// The deep view of addresses is a sequence of 32-byte sequences.
pub proof fn lemma_pubkeys_ok(v: Seq<Pubkey>)
    ensures
        all_ok(Seq::new(v.len(), |i: int| v[i].deep_view()), is_pubkey()),
{
}

pub fn write_bytes(out: &mut Vec<u8>, v: &Vec<u8>)
    requires
        v@.len() <= u32::MAX,
    ensures
        final(out)@ == old(out)@ + enc_seq(v.deep_view(), u8_encoder()),
{
    let ghost start = out@;
    let ghost xs = v.deep_view();
    write_u32(out, v.len() as u32);
    let mut i: usize = 0;
    while i < v.len()
        invariant
            i <= v@.len(),
            xs == v.deep_view(),
            out@ == start + le_bytes(xs.len(), 4) + flatten(xs.take(i as int), u8_encoder()),
        decreases v@.len() - i,
    {
        write_u8(out, v[i]);
        proof {
            assert(xs.take(i + 1) =~= xs.take(i as int).push(xs[i as int]));
            lemma_flatten_push(xs.take(i as int), xs[i as int], u8_encoder());
        }
        i = i + 1;
    }
    assert(xs.take(i as int) =~= xs);
}

pub fn write_bools(out: &mut Vec<u8>, v: &Vec<bool>)
    requires
        v@.len() <= u32::MAX,
    ensures
        final(out)@ == old(out)@ + enc_seq(v.deep_view(), bool_encoder()),
{
    let ghost start = out@;
    let ghost xs = v.deep_view();
    write_u32(out, v.len() as u32);
    let mut i: usize = 0;
    while i < v.len()
        invariant
            i <= v@.len(),
            xs == v.deep_view(),
            out@ == start + le_bytes(xs.len(), 4) + flatten(xs.take(i as int), bool_encoder()),
        decreases v@.len() - i,
    {
        write_bool(out, v[i]);
        proof {
            assert(xs.take(i + 1) =~= xs.take(i as int).push(xs[i as int]));
            lemma_flatten_push(xs.take(i as int), xs[i as int], bool_encoder());
        }
        i = i + 1;
    }
    assert(xs.take(i as int) =~= xs);
}

pub fn write_pubkeys(out: &mut Vec<u8>, v: &Vec<Pubkey>)
    requires
        v@.len() <= u32::MAX,
    ensures
        final(out)@ == old(out)@ + enc_seq(v.deep_view(), pubkey_encoder()),
{
    let ghost start = out@;
    let ghost xs = v.deep_view();
    write_u32(out, v.len() as u32);
    let mut i: usize = 0;
    while i < v.len()
        invariant
            i <= v@.len(),
            xs == v.deep_view(),
            out@ == start + le_bytes(xs.len(), 4) + flatten(xs.take(i as int), pubkey_encoder()),
        decreases v@.len() - i,
    {
        write_pubkey(out, &v[i]);
        proof {
            assert(xs.take(i + 1) =~= xs.take(i as int).push(xs[i as int]));
            lemma_flatten_push(xs.take(i as int), xs[i as int], pubkey_encoder());
        }
        i = i + 1;
    }
    assert(xs.take(i as int) =~= xs);
}

pub fn read_bytes_at(s: &[u8], pos: usize) -> (r: Option<(Vec<u8>, usize)>)
    ensures
        agrees(r, read_seq(s@, pos as nat, u8_reader()), s@.len()),
{
    let (n, mut p) = match read_u32_at(s, pos) {
        Some(x) => x,
        None => return None,
    };
    let mut acc: Vec<u8> = Vec::new();
    proof {
        lemma_read_items_start(s@, p as nat, n as nat, u8_reader());
        assert(acc.deep_view() =~= Seq::<u8>::empty());
    }
    let mut i: u32 = 0;
    while i < n
        invariant
            i <= n,
            p <= s@.len(),
            read_seq(s@, pos as nat, u8_reader()) == (match read_items(s@, p as nat, (n - i) as nat, u8_reader()) {
                Some((xs, q)) => Some((acc.deep_view() + xs, q)),
                None => None,
            }),
        decreases n - i,
    {
        match read_u8_at(s, p) {
            Some((x, p1)) => {
                proof {
                    lemma_read_items_step(s@, p as nat, (n - i) as nat, u8_reader(), x.deep_view(), p1 as nat, acc.deep_view());
                }
                let ghost before = acc.deep_view();
                acc.push(x);
                assert(acc.deep_view() =~= before.push(x.deep_view()));
                p = p1;
                i = i + 1;
            },
            None => {
                return None;
            },
        }
    }
    assert(acc.deep_view() + Seq::<u8>::empty() =~= acc.deep_view());
    Some((acc, p))
}

pub fn read_bools_at(s: &[u8], pos: usize) -> (r: Option<(Vec<bool>, usize)>)
    ensures
        agrees(r, read_seq(s@, pos as nat, bool_reader()), s@.len()),
{
    let (n, mut p) = match read_u32_at(s, pos) {
        Some(x) => x,
        None => return None,
    };
    let mut acc: Vec<bool> = Vec::new();
    proof {
        lemma_read_items_start(s@, p as nat, n as nat, bool_reader());
        assert(acc.deep_view() =~= Seq::<bool>::empty());
    }
    let mut i: u32 = 0;
    while i < n
        invariant
            i <= n,
            p <= s@.len(),
            read_seq(s@, pos as nat, bool_reader()) == (match read_items(s@, p as nat, (n - i) as nat, bool_reader()) {
                Some((xs, q)) => Some((acc.deep_view() + xs, q)),
                None => None,
            }),
        decreases n - i,
    {
        match read_bool_at(s, p) {
            Some((x, p1)) => {
                proof {
                    lemma_read_items_step(s@, p as nat, (n - i) as nat, bool_reader(), x.deep_view(), p1 as nat, acc.deep_view());
                }
                let ghost before = acc.deep_view();
                acc.push(x);
                assert(acc.deep_view() =~= before.push(x.deep_view()));
                p = p1;
                i = i + 1;
            },
            None => {
                return None;
            },
        }
    }
    assert(acc.deep_view() + Seq::<bool>::empty() =~= acc.deep_view());
    Some((acc, p))
}

pub fn read_pubkeys_at(s: &[u8], pos: usize) -> (r: Option<(Vec<Pubkey>, usize)>)
    ensures
        agrees(r, read_seq(s@, pos as nat, pubkey_reader()), s@.len()),
{
    let (n, mut p) = match read_u32_at(s, pos) {
        Some(x) => x,
        None => return None,
    };
    let mut acc: Vec<Pubkey> = Vec::new();
    proof {
        lemma_read_items_start(s@, p as nat, n as nat, pubkey_reader());
        assert(acc.deep_view() =~= Seq::<Seq<u8>>::empty());
    }
    let mut i: u32 = 0;
    while i < n
        invariant
            i <= n,
            p <= s@.len(),
            read_seq(s@, pos as nat, pubkey_reader()) == (match read_items(s@, p as nat, (n - i) as nat, pubkey_reader()) {
                Some((xs, q)) => Some((acc.deep_view() + xs, q)),
                None => None,
            }),
        decreases n - i,
    {
        match read_pubkey_at(s, p) {
            Some((x, p1)) => {
                proof {
                    lemma_read_items_step(s@, p as nat, (n - i) as nat, pubkey_reader(), x.deep_view(), p1 as nat, acc.deep_view());
                }
                let ghost before = acc.deep_view();
                acc.push(x);
                assert(acc.deep_view() =~= before.push(x.deep_view()));
                p = p1;
                i = i + 1;
            },
            None => {
                return None;
            },
        }
    }
    assert(acc.deep_view() + Seq::<Seq<u8>>::empty() =~= acc.deep_view());
    Some((acc, p))
}

/// The start of a sequence read, before any item: nothing gathered yet.
pub proof fn lemma_read_items_start<T>(s: Seq<u8>, p: nat, count: nat, elem: spec_fn(Seq<u8>, nat) -> Option<(T, nat)>)
    ensures
        read_items(s, p, count, elem) == (match read_items(s, p, count, elem) {
            Some((xs, q)) => Some((Seq::<T>::empty() + xs, q)),
            None => None,
        }),
{
    match read_items(s, p, count, elem) {
        Some((xs, q)) => {
            assert(Seq::<T>::empty() + xs =~= xs);
        },
        None => {},
    }
}

/// The `n` little-endian bytes of the number that `b` stands for are `b`
/// itself: a byte sequence is the only one of its length with its value.
pub proof fn lemma_le_bytes_of_value(b: Seq<u8>)
    ensures
        le_bytes(le_value(b), b.len()) == b,
    decreases b.len(),
{
    if b.len() > 0 {
        let rest = b.drop_first();
        let v = le_value(b);
        let r = le_value(rest);
        let b0 = b[0] as nat;
        assert(v == b0 + 256 * r);
        assert(v % 256 == b0 && v / 256 == r) by (nonlinear_arith)
            requires
                v == b0 + 256 * r,
                b0 < 256,
        ;
        lemma_le_bytes_of_value(rest);
        assert(le_bytes(v, b.len()) =~= b);
    }
}

/// A read of `count` items gives `count` items.
pub proof fn lemma_read_items_len<T>(
    s: Seq<u8>,
    p: nat,
    count: nat,
    elem: spec_fn(Seq<u8>, nat) -> Option<(T, nat)>,
)
    ensures
        read_items(s, p, count, elem) matches Some((xs, _)) ==> xs.len() == count,
    decreases count,
{
    if count > 0 {
        match elem(s, p) {
            Some((x, p1)) => lemma_read_items_len(s, p1, (count - 1) as nat, elem),
            None => {},
        }
    }
}

/// A sequence read at `p` has as many items as the four little-endian bytes
/// at `p` say.
pub proof fn lemma_read_seq_count<T>(s: Seq<u8>, p: nat, elem: spec_fn(Seq<u8>, nat) -> Option<(T, nat)>)
    ensures
        read_seq(s, p, elem) matches Some((xs, _)) ==> {
            &&& p + 4 <= s.len()
            &&& xs.len() == le_value(s.subrange(p as int, (p + 4) as int))
            &&& s.subrange(p as int, (p + 4) as int) == le_bytes(xs.len(), 4)
        },
{
    if p + 4 <= s.len() {
        let b = s.subrange(p as int, (p + 4) as int);
        lemma_le_value_bound(b);
        lemma_pow256_values();
        lemma_read_items_len(s, p + 4, le_value(b), elem);
        lemma_le_bytes_of_value(b);
    }
}

/// A `u128` read at `p` is the number whose 16 little-endian bytes stand
/// at `p`.
pub proof fn lemma_read_u128_value(s: Seq<u8>, p: nat)
    ensures
        read_u128(s, p) matches Some((v, q)) ==> q == p + 16 && p + 16 <= s.len() && s.subrange(
            p as int,
            (p + 16) as int,
        ) == le_bytes(v as nat, 16),
{
    if p + 16 <= s.len() {
        lemma_le_value_bound(s.subrange(p as int, (p + 16) as int));
        lemma_pow256_values();
        lemma_le_bytes_of_value(s.subrange(p as int, (p + 16) as int));
    }
}

/// A `u64` read at `p` is the number whose 8 little-endian bytes stand at
/// `p`.
pub proof fn lemma_read_u64_value(s: Seq<u8>, p: nat)
    ensures
        read_u64(s, p) matches Some((v, q)) ==> q == p + 8 && p + 8 <= s.len() && s.subrange(
            p as int,
            (p + 8) as int,
        ) == le_bytes(v as nat, 8),
{
    if p + 8 <= s.len() {
        lemma_le_value_bound(s.subrange(p as int, (p + 8) as int));
        lemma_pow256_values();
        lemma_le_bytes_of_value(s.subrange(p as int, (p + 8) as int));
    }
}

/// Addresses read one after the other stand 32 bytes apart: the `k`-th is
/// the 32 bytes at `p + 32 k`.
pub proof fn lemma_read_pubkeys_layout(s: Seq<u8>, p: nat, count: nat)
    ensures
        read_items(s, p, count, pubkey_reader()) matches Some((xs, q)) ==> {
            &&& xs.len() == count
            &&& q == p + 32 * count
            &&& (count > 0 ==> q <= s.len())
            &&& forall|k: int|
                0 <= k < count ==> #[trigger] xs[k] == s.subrange(p + 32 * k, p + 32 * k + 32)
        },
    decreases count,
{
    if count > 0 && p + 32 <= s.len() {
        let x = s.subrange(p as int, (p + 32) as int);
        assert(pubkey_reader()(s, p) == Some((x, p + 32)));
        lemma_read_pubkeys_layout(s, p + 32, (count - 1) as nat);
        match read_items(s, p + 32, (count - 1) as nat, pubkey_reader()) {
            Some((rest, q)) => {
                let xs = seq![x] + rest;
                assert forall|k: int| 0 <= k < count implies #[trigger] xs[k] == s.subrange(
                    p + 32 * k,
                    p + 32 * k + 32,
                ) by {
                    if k > 0 {
                        assert(xs[k] == rest[k - 1]);
                        assert(p + 32 + 32 * (k - 1) == p + 32 * k);
                    }
                }
            },
            None => {},
        }
    }
}

/// Flags read one after the other take a byte each: the `k`-th is 1 at
/// `p + k` when set and 0 there when not.
pub proof fn lemma_read_bools_layout(s: Seq<u8>, p: nat, count: nat)
    ensures
        read_items(s, p, count, bool_reader()) matches Some((xs, q)) ==> {
            &&& xs.len() == count
            &&& q == p + count
            &&& (count > 0 ==> q <= s.len())
            &&& forall|k: int|
                0 <= k < count ==> s[p + k] == if #[trigger] xs[k] {
                    1u8
                } else {
                    0u8
                }
        },
    decreases count,
{
    if count > 0 {
        match read_bool(s, p) {
            Some((x, p1)) => {
                assert(bool_reader()(s, p) == Some((x, p1)));
                lemma_read_bools_layout(s, p1, (count - 1) as nat);
                match read_items(s, p1, (count - 1) as nat, bool_reader()) {
                    Some((rest, q)) => {
                        let xs = seq![x] + rest;
                        assert forall|k: int| 0 <= k < count implies s[p + k] == if #[trigger] xs[k] {
                            1u8
                        } else {
                            0u8
                        } by {
                            if k > 0 {
                                assert(xs[k] == rest[k - 1]);
                                assert(p1 + (k - 1) == p + k);
                            }
                        }
                    },
                    None => {},
                }
            },
            None => {},
        }
    }
}

/// Bytes read one after the other are the bytes from `p` on.
pub proof fn lemma_read_bytes_layout(s: Seq<u8>, p: nat, count: nat)
    requires
        p <= s.len(),
    ensures
        read_items(s, p, count, u8_reader()) matches Some((xs, q)) ==> {
            &&& q == p + count
            &&& q <= s.len()
            &&& xs == s.subrange(p as int, q as int)
        },
    decreases count,
{
    if count == 0 {
        assert(s.subrange(p as int, p as int) =~= Seq::<u8>::empty());
    } else if p < s.len() {
        assert(u8_reader()(s, p) == Some((s[p as int], p + 1)));
        lemma_read_bytes_layout(s, p + 1, (count - 1) as nat);
        match read_items(s, p + 1, (count - 1) as nat, u8_reader()) {
            Some((rest, q)) => {
                assert(seq![s[p as int]] + rest =~= s.subrange(p as int, q as int));
            },
            None => {},
        }
    }
}

/// A list of bytes read at `p`: its length in the four bytes at `p`, then
/// the bytes themselves.
pub proof fn lemma_byte_list_at(s: Seq<u8>, p: nat)
    ensures
        read_seq(s, p, u8_reader()) matches Some((xs, q)) ==> {
            &&& q == p + 4 + xs.len()
            &&& q <= s.len()
            &&& s.subrange(p as int, (p + 4) as int) == le_bytes(xs.len(), 4)
            &&& xs == s.subrange((p + 4) as int, q as int)
        },
{
    lemma_read_seq_count(s, p, u8_reader());
    match read_u32(s, p) {
        Some((n, q)) => lemma_read_bytes_layout(s, q, n as nat),
        None => {},
    }
}

/// A list of addresses read at `p`: its length in the four bytes at `p`,
/// then the `k`-th address in the 32 bytes at `p + 4 + 32 k`.
pub proof fn lemma_pubkey_list_at(s: Seq<u8>, p: nat)
    ensures
        read_seq(s, p, pubkey_reader()) matches Some((xs, q)) ==> {
            &&& q == p + 4 + 32 * xs.len()
            &&& q <= s.len()
            &&& s.subrange(p as int, (p + 4) as int) == le_bytes(xs.len(), 4)
            &&& forall|k: int|
                0 <= k < xs.len() ==> #[trigger] xs[k] == s.subrange(p + 4 + 32 * k, p + 4 + 32 * k + 32)
        },
{
    lemma_read_seq_count(s, p, pubkey_reader());
    match read_u32(s, p) {
        Some((n, q)) => lemma_read_pubkeys_layout(s, q, n as nat),
        None => {},
    }
}

/// A list of flags read at `p`: its length in the four bytes at `p`, then
/// the `k`-th flag in the byte at `p + 4 + k`, 1 when set and 0 when not.
pub proof fn lemma_bool_list_at(s: Seq<u8>, p: nat)
    ensures
        read_seq(s, p, bool_reader()) matches Some((xs, q)) ==> {
            &&& q == p + 4 + xs.len()
            &&& q <= s.len()
            &&& s.subrange(p as int, (p + 4) as int) == le_bytes(xs.len(), 4)
            &&& forall|k: int|
                0 <= k < xs.len() ==> s[p + 4 + k] == if #[trigger] xs[k] {
                    1u8
                } else {
                    0u8
                }
        },
{
    lemma_read_seq_count(s, p, bool_reader());
    match read_u32(s, p) {
        Some((n, q)) => lemma_read_bools_layout(s, q, n as nat),
        None => {},
    }
}

/// For bytes the deep view is the view.
pub proof fn lemma_bytes_deep_view(v: Vec<u8>)
    ensures
        v.deep_view() == v@,
{
    assert(v.deep_view() =~= v@);
}

/// For flags the deep view is the view.
pub proof fn lemma_bools_deep_view(v: Vec<bool>)
    ensures
        v.deep_view() == v@,
{
    assert(v.deep_view() =~= v@);
}

} // verus!
