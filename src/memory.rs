//! A byte-addressed value store: addresses are indices into it.
use vstd::prelude::*;
use vstd::arithmetic::div_mod::{lemma_div_denominator, lemma_fundamental_div_mod};

verus! {

/// `256` raised to the power `n`.
pub open spec fn pow256(n: nat) -> nat
    decreases n,
{
    if n == 0 {
        1
    } else {
        256 * pow256((n - 1) as nat)
    }
}

/// The number that a byte sequence stands for, least significant byte first.
pub open spec fn le_value(s: Seq<u8>) -> nat
    decreases s.len(),
{
    if s.len() == 0 {
        0
    } else {
        s[0] as nat + 256 * le_value(s.drop_first())
    }
}

/// The `n` bytes that hold `v`, least significant first.
pub open spec fn le_bytes(v: nat, n: nat) -> Seq<u8> {
    Seq::new(n, |j: int| ((v / pow256(j as nat)) % 256) as u8)
}

pub proof fn lemma_pow256_positive(n: nat)
    ensures
        pow256(n) >= 1,
    decreases n,
{
    if n > 0 {
        lemma_pow256_positive((n - 1) as nat);
    }
}

/// A sequence of `n` bytes stands for a number below `256^n`.
pub proof fn lemma_le_value_bound(s: Seq<u8>)
    ensures
        le_value(s) < pow256(s.len()),
    decreases s.len(),
{
    if s.len() > 0 {
        let rest = s.drop_first();
        lemma_le_value_bound(rest);
        let x = le_value(rest);
        let p = pow256(rest.len());
        assert(s[0] as nat + 256 * x < 256 * p) by (nonlinear_arith)
            requires
                x < p,
                s[0] < 256,
        ;
    }
}

/// Two byte sequences of one length that stand for the same number are equal.
pub proof fn lemma_le_value_injective(s: Seq<u8>, t: Seq<u8>)
    requires
        s.len() == t.len(),
        le_value(s) == le_value(t),
    ensures
        s == t,
    decreases s.len(),
{
    if s.len() > 0 {
        lemma_le_value_injective(s.drop_first(), t.drop_first());
        assert(s =~= seq![s[0]] + s.drop_first());
        assert(t =~= seq![t[0]] + t.drop_first());
    } else {
        assert(s =~= t);
    }
}

/// Writing `v` in `n` bytes and reading them back gives `v`.
pub proof fn lemma_le_round_trip(v: nat, n: nat)
    requires
        v < pow256(n),
    ensures
        le_value(le_bytes(v, n)) == v,
    decreases n,
{
    let s = le_bytes(v, n);
    if n == 0 {
        assert(v == 0);
    } else {
        let w = v / 256;
        assert(w < pow256((n - 1) as nat)) by (nonlinear_arith)
            requires
                v < 256 * pow256((n - 1) as nat),
                w == v / 256,
        ;
        lemma_le_round_trip(w, (n - 1) as nat);
        assert forall|j: int| 0 <= j < n - 1 implies s.drop_first()[j] == le_bytes(w, (n - 1) as nat)[j] by {
            lemma_pow256_positive(j as nat);
            lemma_div_denominator(v as int, 256, pow256(j as nat) as int);
            assert(pow256((j + 1) as nat) == 256 * pow256(j as nat));
        }
        assert(s.drop_first() =~= le_bytes(w, (n - 1) as nat));
        lemma_fundamental_div_mod(v as int, 256);
        assert(pow256(0) == 1);
        assert(v / 1 == v);
        assert(s[0] == (v % 256) as u8);
        assert(le_value(s) == s[0] as nat + 256 * le_value(s.drop_first()));
    }
}

/// Reading the two halves of a sequence separately: the second half counts `256^k` times more.
pub proof fn lemma_le_value_split(s: Seq<u8>, k: int)
    requires
        0 <= k <= s.len(),
    ensures
        le_value(s) == le_value(s.subrange(0, k)) + pow256(k as nat) * le_value(s.subrange(k, s.len() as int)),
    decreases k,
{
    if k == 0 {
        assert(s.subrange(0, 0).len() == 0);
        assert(s.subrange(0, s.len() as int) =~= s);
        assert(pow256(0) == 1);
        assert(le_value(s.subrange(0, 0)) == 0);
        assert(pow256(k as nat) == 1);
    } else {
        let rest = s.drop_first();
        lemma_le_value_split(rest, k - 1);
        assert(s.subrange(0, k).drop_first() =~= rest.subrange(0, k - 1));
        assert(s.subrange(k, s.len() as int) =~= rest.subrange(k - 1, rest.len() as int));
        let a = le_value(rest.subrange(0, k - 1));
        let b = le_value(rest.subrange(k - 1, rest.len() as int));
        let p = pow256((k - 1) as nat);
        assert(256 * (a + p * b) == 256 * a + (256 * p) * b) by (nonlinear_arith);
        assert(s.subrange(0, k)[0] == s[0]);
        assert(le_value(s.subrange(0, k)) == s[0] as nat + 256 * a);
        assert(pow256(k as nat) == 256 * p);
        assert(le_value(rest) == a + p * b);
        assert(le_value(s) == s[0] as nat + 256 * le_value(rest));
        assert(le_value(s) == (s[0] as nat + 256 * a) + (256 * p) * b);
        assert(le_value(s.subrange(k, s.len() as int)) == b);

    }
}

/// A store of bytes in which values are laid out.
pub struct Memory {
    pub bytes: Vec<u8>,
}

impl View for Memory {
    type V = Seq<u8>;

    open spec fn view(&self) -> Seq<u8> {
        self.bytes@
    }
}

impl Memory {
    /// A store of `len` zero bytes.
    pub fn new(len: usize) -> (m: Memory)
        ensures
            m@ == Seq::new(len as nat, |i: int| 0u8),
    {
        let mut bytes: Vec<u8> = Vec::new();
        let mut i: usize = 0;
        while i < len
            invariant
                i <= len,
                bytes@ == Seq::new(i as nat, |j: int| 0u8),
            decreases len - i,
        {
            bytes.push(0u8);
            i = i + 1;
            assert(bytes@ =~= Seq::new(i as nat, |j: int| 0u8));
        }
        Memory { bytes }
    }

    /// The number of bytes in the store.
    pub fn len(&self) -> (r: usize)
        ensures
            r == self@.len(),
    {
        self.bytes.len()
    }

    /// The byte at `addr`.
    pub fn read_u8_at(&self, addr: usize) -> (r: u8)
        requires
            addr < self@.len(),
        ensures
            r == self@[addr as int],
    {
        self.bytes[addr]
    }

    /// Writes the byte `b` at `addr`.
    pub fn write_u8_at(&mut self, addr: usize, b: u8)
        requires
            addr < old(self)@.len(),
        ensures
            final(self)@ == old(self)@.update(addr as int, b),
    {
        self.bytes.set(addr, b);
    }

    /// The number held little-endian in the `n` bytes from `addr`.
    pub fn read_le(&self, addr: usize, n: usize) -> (r: u128)
        requires
            n <= 16,
            addr + n <= self@.len(),
        ensures
            r == le_value(self@.subrange(addr as int, addr + n)),
    {
        let len = self.bytes.len();
        let mut acc: u128 = 0;
        let mut i: usize = n;
        assert(self@.subrange(addr + n, addr + n).len() == 0);
        while i > 0
            invariant
                i <= n <= 16,
                addr + n <= self@.len(),
                len == self@.len(),
                acc == le_value(self@.subrange(addr + i, addr + n)),
                acc < pow256((n - i) as nat),
            decreases i,
        {
            let ghost s = self@.subrange(addr + i - 1, addr + n);
            assert(s.drop_first() =~= self@.subrange(addr + i, addr + n));
            let b = self.bytes[addr + i - 1];
            proof {
                lemma_pow256_monotone((n - i + 1) as nat, 16);
                assert(pow256((n - i + 1) as nat) == 256 * pow256((n - i) as nat));
                lemma_pow256_16();
            }
            acc = acc * 256 + b as u128;
            i = i - 1;
        }
        assert(self@.subrange(addr as int, addr + n) =~= self@.subrange(addr + i, addr + n));
        acc
    }

    /// Writes `v` little-endian into the `n` bytes from `addr`; the other bytes keep their values.
    pub fn write_le(&mut self, addr: usize, n: usize, v: u128)
        requires
            n <= 16,
            addr + n <= old(self)@.len(),
            v < pow256(n as nat),
        ensures
            final(self)@.len() == old(self)@.len(),
            final(self)@.subrange(addr as int, addr + n) == le_bytes(v as nat, n as nat),
            forall|j: int|
                0 <= j < old(self)@.len() && !(addr <= j < addr + n) ==> final(self)@[j] == old(self)@[j],
    {
        let len = self.bytes.len();
        let mut rem: u128 = v;
        let mut i: usize = 0;
        assert(pow256(0) == 1);
        assert(v as nat / 1 == v);
        while i < n
            invariant
                i <= n,
                addr + n <= self@.len(),
                len == self@.len(),
                self@.len() == old(self)@.len(),
                rem == v as nat / pow256(i as nat),
                forall|j: int| 0 <= j < i ==> #[trigger] self@[addr + j] == le_bytes(v as nat, n as nat)[j],
                forall|j: int|
                    0 <= j < old(self)@.len() && !(addr <= j < addr + n) ==> self@[j] == old(self)@[j],
            decreases n - i,
        {
            self.bytes.set(addr + i, (rem % 256) as u8);
            proof {
                lemma_pow256_positive(i as nat);
                lemma_div_denominator(v as int, pow256(i as nat) as int, 256);
                assert(pow256((i + 1) as nat) == 256 * pow256(i as nat));
                assert(pow256(i as nat) * 256 == 256 * pow256(i as nat)) by (nonlinear_arith);
            }
            rem = rem / 256;
            i = i + 1;
        }
        assert forall|j: int| 0 <= j < n implies self@.subrange(addr as int, addr + n)[j] == le_bytes(
            v as nat,
            n as nat,
        )[j] by {
            assert(self@[addr + j] == le_bytes(v as nat, n as nat)[j]);
        }
        assert(self@.subrange(addr as int, addr + n) =~= le_bytes(v as nat, n as nat));
    }
}

/// The powers of 256 that bound the fixed-width integers.
pub proof fn lemma_pow256_widths()
    ensures
        pow256(1) == 0x100,
        pow256(2) == 0x1_0000,
        pow256(4) == 0x1_0000_0000,
        pow256(8) == 0x1_0000_0000_0000_0000,
{
    reveal_with_fuel(pow256, 9);
}

pub proof fn lemma_pow256_16()
    ensures
        pow256(16) == 0x1_0000_0000_0000_0000_0000_0000_0000_0000,
{
    reveal_with_fuel(pow256, 17);
}

pub proof fn lemma_pow256_monotone(a: nat, b: nat)
    requires
        a <= b,
    ensures
        pow256(a) <= pow256(b),
    decreases b,
{
    if a < b {
        lemma_pow256_monotone(a, (b - 1) as nat);
        lemma_pow256_positive((b - 1) as nat);
    }
}

} // verus!
