//! Token amounts of any size: little-endian bits whose value is a `nat`,
//! with exact addition, subtraction, multiplication and division.
use vstd::prelude::*;
use vstd::arithmetic::div_mod::lemma_fundamental_div_mod_converse;

verus! {

pub open spec fn bit_value(b: bool) -> nat {
    if b {
        1
    } else {
        0
    }
}

/// The value of little-endian bits.
pub open spec fn bits_value(s: Seq<bool>) -> nat
    decreases s.len(),
{
    if s.len() == 0 {
        0
    } else {
        bit_value(s[0]) + 2 * bits_value(s.subrange(1, s.len() as int))
    }
}

/// The value of the bits from position `i` on; 0 past the end.
pub open spec fn suffix_value(s: Seq<bool>, i: int) -> nat {
    if 0 <= i < s.len() {
        bits_value(s.subrange(i, s.len() as int))
    } else {
        0
    }
}

/// Bit `i`, false past the end.
pub open spec fn bit_at(s: Seq<bool>, i: int) -> bool {
    if 0 <= i < s.len() {
        s[i]
    } else {
        false
    }
}

/// The value of little-endian bytes.
pub open spec fn le_bytes_value(s: Seq<u8>) -> nat
    decreases s.len(),
{
    if s.len() == 0 {
        0
    } else {
        s[0] as nat + 256 * le_bytes_value(s.subrange(1, s.len() as int))
    }
}

/// The value of big-endian bytes.
pub open spec fn be_bytes_value(s: Seq<u8>) -> nat
    decreases s.len(),
{
    if s.len() == 0 {
        0
    } else {
        256 * be_bytes_value(s.drop_last()) + s.last() as nat
    }
}

proof fn lemma_suffix_step(s: Seq<bool>, i: int)
    requires
        0 <= i,
    ensures
        suffix_value(s, i) == bit_value(bit_at(s, i)) + 2 * suffix_value(s, i + 1),
{
    if i < s.len() {
        let t = s.subrange(i, s.len() as int);
        assert(t.subrange(1, t.len() as int) =~= s.subrange(i + 1, s.len() as int));
        assert(t[0] == s[i]);
        assert(bits_value(t) == bit_value(t[0]) + 2 * bits_value(t.subrange(1, t.len() as int)));
        if i + 1 == s.len() {
            assert(t.subrange(1, t.len() as int) =~= Seq::<bool>::empty());
            assert(bits_value(Seq::<bool>::empty()) == 0);
        }
    }
}

proof fn lemma_suffix_zero(s: Seq<bool>)
    ensures
        suffix_value(s, 0) == bits_value(s),
{
    if s.len() > 0 {
        assert(s.subrange(0, s.len() as int) =~= s);
    }
}

proof fn lemma_prepend(b: bool, s: Seq<bool>)
    ensures
        bits_value(seq![b] + s) == bit_value(b) + 2 * bits_value(s),
{
    let t = seq![b] + s;
    assert(t.subrange(1, t.len() as int) =~= s);
}

/// A trailing zero bit adds nothing.
proof fn lemma_trailing_zero(s: Seq<bool>)
    requires
        s.len() > 0,
        !s.last(),
    ensures
        bits_value(s) == bits_value(s.drop_last()),
    decreases s.len(),
{
    assert(bits_value(Seq::<bool>::empty()) == 0);
    if s.len() == 1 {
        assert(s.subrange(1, 1) =~= Seq::<bool>::empty());
        assert(s.drop_last() =~= Seq::<bool>::empty());
        assert(s[0] == s.last());
    } else {
        let rest = s.subrange(1, s.len() as int);
        assert(rest.last() == s.last());
        lemma_trailing_zero(rest);
        let d = s.drop_last();
        assert(rest.drop_last() =~= d.subrange(1, d.len() as int));
        assert(d[0] == s[0]);
        assert(bits_value(d) == bit_value(d[0]) + 2 * bits_value(d.subrange(1, d.len() as int)));
    }
}

/// Bits `a[i..] + b[i..] + carry`.
fn add_from(a: &Vec<bool>, b: &Vec<bool>, i: usize, carry: bool) -> (r: Vec<bool>)
    requires
        i <= a@.len() || i <= b@.len(),
    ensures
        bits_value(r@) == suffix_value(a@, i as int) + suffix_value(b@, i as int) + bit_value(carry),
    decreases (if a@.len() > b@.len() { a@.len() } else { b@.len() }) - i,
{
    if i >= a.len() && i >= b.len() {
        let mut r: Vec<bool> = Vec::new();
        if carry {
            r.push(true);
            proof {
                lemma_prepend(true, Seq::<bool>::empty());
                assert(r@ =~= seq![true] + Seq::<bool>::empty());
            }
        }
        return r;
    }
    let x = i < a.len() && a[i];
    let y = i < b.len() && b[i];
    let count: u8 = (if x { 1u8 } else { 0 }) + (if y { 1u8 } else { 0 }) + (if carry { 1u8 } else { 0 });
    let mut r = add_from(a, b, i + 1, count >= 2);
    let ghost rest = r@;
    r.insert(0, count == 1 || count == 3);
    proof {
        lemma_suffix_step(a@, i as int);
        lemma_suffix_step(b@, i as int);
        assert(r@ =~= seq![count == 1 || count == 3] + rest);
        lemma_prepend(count == 1 || count == 3, rest);
    }
    r
}

/// Bits `a[i..] - b[i..] - borrow`, which must not be negative.
fn sub_from(a: &Vec<bool>, b: &Vec<bool>, i: usize, borrow: bool) -> (r: Vec<bool>)
    requires
        i <= a@.len() || i <= b@.len(),
        suffix_value(a@, i as int) >= suffix_value(b@, i as int) + bit_value(borrow),
    ensures
        bits_value(r@) == suffix_value(a@, i as int) - suffix_value(b@, i as int) - bit_value(borrow),
    decreases (if a@.len() > b@.len() { a@.len() } else { b@.len() }) - i,
{
    if i >= a.len() && i >= b.len() {
        return Vec::new();
    }
    let x = i < a.len() && a[i];
    let y = i < b.len() && b[i];
    let d: i8 = (if x { 1i8 } else { 0 }) - (if y { 1i8 } else { 0 }) - (if borrow { 1i8 } else { 0 });
    proof {
        lemma_suffix_step(a@, i as int);
        lemma_suffix_step(b@, i as int);
    }
    let mut r = sub_from(a, b, i + 1, d < 0);
    let ghost rest = r@;
    r.insert(0, d == 1 || d == -1);
    proof {
        assert(r@ =~= seq![d == 1 || d == -1] + rest);
        lemma_prepend(d == 1 || d == -1, rest);
    }
    r
}

/// Drops trailing zero bits.
fn trim(v: &mut Vec<bool>)
    ensures
        bits_value(final(v)@) == bits_value(old(v)@),
{
    while v.len() > 0 && !v[v.len() - 1]
        invariant
            bits_value(v@) == bits_value(old(v)@),
        decreases v@.len(),
    {
        proof {
            lemma_trailing_zero(v@);
        }
        v.pop();
    }
}

/// -1, 0 or 1 as `a` is below, equal to or above `b`.
fn compare_bits(a: &Vec<bool>, b: &Vec<bool>) -> (c: i8)
    ensures
        c == -1 <==> bits_value(a@) < bits_value(b@),
        c == 0 <==> bits_value(a@) == bits_value(b@),
        c == 1 <==> bits_value(a@) > bits_value(b@),
{
    let n = if a.len() > b.len() { a.len() } else { b.len() };
    let mut i = n;
    let mut c: i8 = 0;
    while i > 0
        invariant
            i <= n,
            n == (if a@.len() > b@.len() { a@.len() } else { b@.len() }),
            c == -1 <==> suffix_value(a@, i as int) < suffix_value(b@, i as int),
            c == 0 <==> suffix_value(a@, i as int) == suffix_value(b@, i as int),
            c == 1 <==> suffix_value(a@, i as int) > suffix_value(b@, i as int),
        decreases i,
    {
        i = i - 1;
        proof {
            lemma_suffix_step(a@, i as int);
            lemma_suffix_step(b@, i as int);
        }
        if c == 0 {
            let x = i < a.len() && a[i];
            let y = i < b.len() && b[i];
            if x && !y {
                c = 1;
            } else if !x && y {
                c = -1;
            }
        }
    }
    proof {
        lemma_suffix_zero(a@);
        lemma_suffix_zero(b@);
    }
    c
}

/// A token amount of any size.
#[derive(Debug)]
pub struct Amount {
    bits: Vec<bool>,
}

impl View for Amount {
    type V = nat;

    closed spec fn view(&self) -> nat {
        bits_value(self.bits@)
    }
}

impl Amount {
    fn from_bits(mut bits: Vec<bool>) -> (r: Amount)
        ensures
            r@ == bits_value(bits@),
    {
        trim(&mut bits);
        Amount { bits }
    }

    pub fn zero() -> (r: Amount)
        ensures
            r@ == 0,
    {
        Amount { bits: Vec::new() }
    }

    pub fn from_u128(x: u128) -> (r: Amount)
        ensures
            r@ == x,
        decreases x,
    {
        if x == 0 {
            return Amount::zero();
        }
        let rest = Amount::from_u128(x / 2);
        let mut bits = rest.bits;
        let ghost tail = bits@;
        bits.insert(0, x % 2 == 1);
        proof {
            assert(bits@ =~= seq![x % 2 == 1] + tail);
            lemma_prepend(x % 2 == 1, tail);
        }
        Amount { bits }
    }

    pub fn duplicate(&self) -> (r: Amount)
        ensures
            r@ == self@,
    {
        let mut bits: Vec<bool> = Vec::new();
        let mut i: usize = 0;
        while i < self.bits.len()
            invariant
                i <= self.bits@.len(),
                bits@ == self.bits@.subrange(0, i as int),
            decreases self.bits@.len() - i,
        {
            bits.push(self.bits[i]);
            assert(bits@ =~= self.bits@.subrange(0, i + 1));
            i = i + 1;
        }
        assert(bits@ =~= self.bits@);
        Amount { bits }
    }

    pub fn is_zero(&self) -> (r: bool)
        ensures
            r == (self@ == 0),
    {
        compare_bits(&self.bits, &Vec::new()) == 0
    }

    pub fn equals(&self, other: &Amount) -> (r: bool)
        ensures
            r == (self@ == other@),
    {
        compare_bits(&self.bits, &other.bits) == 0
    }

    pub fn lt(&self, other: &Amount) -> (r: bool)
        ensures
            r == (self@ < other@),
    {
        compare_bits(&self.bits, &other.bits) == -1
    }

    pub fn le(&self, other: &Amount) -> (r: bool)
        ensures
            r == (self@ <= other@),
    {
        compare_bits(&self.bits, &other.bits) != 1
    }

    pub fn add(&self, other: &Amount) -> (r: Amount)
        ensures
            r@ == self@ + other@,
    {
        proof {
            lemma_suffix_zero(self.bits@);
            lemma_suffix_zero(other.bits@);
        }
        Amount::from_bits(add_from(&self.bits, &other.bits, 0, false))
    }

    pub fn sub(&self, other: &Amount) -> (r: Amount)
        requires
            other@ <= self@,
        ensures
            r@ == self@ - other@,
    {
        proof {
            lemma_suffix_zero(self.bits@);
            lemma_suffix_zero(other.bits@);
        }
        Amount::from_bits(sub_from(&self.bits, &other.bits, 0, false))
    }

    pub fn mul(&self, other: &Amount) -> (r: Amount)
        ensures
            r@ == self@ * other@,
    {
        let ghost a = self@;
        let mut acc: Vec<bool> = Vec::new();
        let mut i = other.bits.len();
        assert(bits_value(acc@) == 0) by {
            assert(acc@ =~= Seq::<bool>::empty());
        }
        assert(a * suffix_value(other.bits@, i as int) == 0);
        while i > 0
            invariant
                i <= other.bits@.len(),
                a == self@,
                bits_value(acc@) == a * suffix_value(other.bits@, i as int),
            decreases i,
        {
            i = i - 1;
            proof {
                lemma_suffix_step(other.bits@, i as int);
            }
            let ghost before = bits_value(acc@);
            let ghost tail = acc@;
            acc.insert(0, false);
            proof {
                assert(acc@ =~= seq![false] + tail);
                lemma_prepend(false, tail);
            }
            if other.bits[i] {
                proof {
                    lemma_suffix_zero(acc@);
                    lemma_suffix_zero(self.bits@);
                }
                acc = add_from(&acc, &self.bits, 0, false);
            }
            let ghost s = suffix_value(other.bits@, i + 1);
            if other.bits[i] {
                assert(a * (1 + 2 * s) == 2 * (a * s) + a) by (nonlinear_arith);
            } else {
                assert(a * (0 + 2 * s) == 2 * (a * s)) by (nonlinear_arith);
            }
        }
        proof {
            lemma_suffix_zero(other.bits@);
        }
        Amount::from_bits(acc)
    }

    /// The quotient and the remainder of the division by `d`.
    pub fn div_rem(&self, d: &Amount) -> (r: (Amount, Amount))
        requires
            d@ > 0,
        ensures
            r.0@ == self@ / d@,
            r.1@ == self@ % d@,
    {
        let ghost dv = d@;
        let mut q: Vec<bool> = Vec::new();
        let mut rem: Vec<bool> = Vec::new();
        let mut i = self.bits.len();
        assert(bits_value(q@) == 0 && bits_value(rem@) == 0) by {
            assert(q@ =~= Seq::<bool>::empty());
            assert(rem@ =~= Seq::<bool>::empty());
        }
        assert(0 * dv == 0);
        while i > 0
            invariant
                i <= self.bits@.len(),
                dv == d@,
                dv > 0,
                suffix_value(self.bits@, i as int) == bits_value(q@) * dv + bits_value(rem@),
                bits_value(rem@) < dv,
            decreases i,
        {
            i = i - 1;
            proof {
                lemma_suffix_step(self.bits@, i as int);
            }
            let ghost q0 = bits_value(q@);
            let ghost r0 = bits_value(rem@);
            let ghost qt = q@;
            let ghost rt = rem@;
            let bit = self.bits[i];
            rem.insert(0, bit);
            q.insert(0, false);
            proof {
                assert(rem@ =~= seq![bit] + rt);
                lemma_prepend(bit, rt);
                assert(q@ =~= seq![false] + qt);
                lemma_prepend(false, qt);
                assert((2 * q0) * dv + (bit_value(bit) + 2 * r0) == bit_value(bit) + 2 * (q0 * dv + r0))
                    by (nonlinear_arith);
            }
            if compare_bits(&d.bits, &rem) != 1 {
                proof {
                    lemma_suffix_zero(rem@);
                    lemma_suffix_zero(d.bits@);
                }
                rem = sub_from(&rem, &d.bits, 0, false);
                q.set(0, true);
                proof {
                    assert(q@ =~= seq![true] + qt);
                    lemma_prepend(true, qt);
                    assert((2 * q0 + 1) * dv == (2 * q0) * dv + dv) by (nonlinear_arith);
                }
            }
        }
        proof {
            lemma_suffix_zero(self.bits@);
            lemma_fundamental_div_mod_converse(self@ as int, dv as int, bits_value(q@) as int, bits_value(rem@) as int);
        }
        (Amount::from_bits(q), Amount::from_bits(rem))
    }

    pub fn div(&self, d: &Amount) -> (r: Amount)
        requires
            d@ > 0,
        ensures
            r@ == self@ / d@,
    {
        self.div_rem(d).0
    }

    /// The amount written by big-endian bytes.
    pub fn from_be_bytes(bytes: &Vec<u8>) -> (r: Amount)
        ensures
            r@ == be_bytes_value(bytes@),
    {
        let base = Amount::from_u128(256);
        let mut acc = Amount::zero();
        let mut i: usize = 0;
        while i < bytes.len()
            invariant
                i <= bytes@.len(),
                base@ == 256,
                acc@ == be_bytes_value(bytes@.subrange(0, i as int)),
            decreases bytes@.len() - i,
        {
            let digit = Amount::from_u128(bytes[i] as u128);
            acc = acc.mul(&base).add(&digit);
            assert(bytes@.subrange(0, i + 1).drop_last() =~= bytes@.subrange(0, i as int));
            i = i + 1;
        }
        assert(bytes@.subrange(0, bytes@.len() as int) =~= bytes@);
        acc
    }

    /// The little-endian bytes of the amount.
    pub fn to_le_bytes(&self) -> (r: Vec<u8>)
        ensures
            le_bytes_value(r@) == self@,
    {
        proof {
            lemma_suffix_zero(self.bits@);
        }
        bytes_from(&self.bits, 0)
    }
}

/// Bit `i + k` as 0 or 1.
fn bit_u8(bits: &Vec<bool>, i: usize, k: usize) -> (r: u8)
    ensures
        r == bit_value(bit_at(bits@, i + k)),
{
    if i < bits.len() && k < bits.len() - i && bits[i + k] {
        1
    } else {
        0
    }
}

/// The little-endian bytes of the bits from position `i` on.
fn bytes_from(bits: &Vec<bool>, i: usize) -> (r: Vec<u8>)
    ensures
        le_bytes_value(r@) == suffix_value(bits@, i as int),
    decreases bits@.len() - i,
{
    if i >= bits.len() {
        return Vec::new();
    }
    let byte: u8 = bit_u8(bits, i, 0) + 2 * bit_u8(bits, i, 1) + 4 * bit_u8(bits, i, 2) + 8 * bit_u8(
        bits,
        i,
        3,
    ) + 16 * bit_u8(bits, i, 4) + 32 * bit_u8(bits, i, 5) + 64 * bit_u8(bits, i, 6) + 128 * bit_u8(
        bits,
        i,
        7,
    );
    let next = if bits.len() - i <= 8 { bits.len() } else { i + 8 };
    proof {
        let j = i as int;
        lemma_suffix_step(bits@, j);
        lemma_suffix_step(bits@, j + 1);
        lemma_suffix_step(bits@, j + 2);
        lemma_suffix_step(bits@, j + 3);
        lemma_suffix_step(bits@, j + 4);
        lemma_suffix_step(bits@, j + 5);
        lemma_suffix_step(bits@, j + 6);
        lemma_suffix_step(bits@, j + 7);
        assert(suffix_value(bits@, next as int) == suffix_value(bits@, j + 8));
    }
    let mut r = bytes_from(bits, next);
    let ghost rest = r@;
    r.insert(0, byte);
    proof {
        assert(r@.subrange(1, r@.len() as int) =~= rest);
    }
    r
}

} // verus!
