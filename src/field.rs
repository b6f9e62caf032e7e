use vstd::prelude::*;
use ff::PrimeField;
use halo2_proofs::pasta::Fp;

verus! {

/// The modulus of the Pallas base field,
/// 0x40000000000000000000000000000000224698fc094cf91b992d30ed00000001.
pub open spec fn modulus() -> int {
    0x40000000000000000000000000000000224698fc094cf91b992d30ed00000001int
}

/// The integer that a little-endian byte string encodes.
pub open spec fn le_value(s: Seq<u8>) -> int
    decreases s.len(),
{
    if s.len() == 0 {
        0
    } else {
        s[0] as int + 256 * le_value(s.drop_first())
    }
}

/// A field element, held in its canonical 32-byte little-endian encoding.
#[derive(Clone, Copy, Debug, PartialEq, Eq)]
pub struct Fe {
    pub repr: [u8; 32],
}

impl Fe {
    /// The integer in `[0, p)` that the element stands for.
    pub open spec fn val(self) -> int {
        le_value(self.repr@)
    }

    /// The encoding is canonical: it encodes a number below the modulus.
    pub open spec fn wf(self) -> bool {
        self.val() < modulus()
    }

    pub fn zero() -> (r: Fe)
        ensures
            r.wf(),
            r.val() == 0,
    {
        let r = Fe { repr: [0u8; 32] };
        proof {
            lemma_le_value_zero(r.repr@);
        }
        r
    }

    pub fn one() -> (r: Fe)
        ensures
            r.wf(),
            r.val() == 1,
    {
        let mut repr = [0u8; 32];
        repr[0] = 1u8;
        let r = Fe { repr };
        proof {
            lemma_le_value_zero(r.repr@.drop_first());
            assert(r.repr@[0] == 1);
        }
        r
    }

    /// The element `v mod p`.
    pub fn from_u64(v: u64) -> (r: Fe)
        ensures
            r.wf(),
            r.val() == v as int,
    {
        fp_from_u64(v)
    }

    /// Whether the element is the field's zero.
    pub fn is_zero(&self) -> (r: bool)
        ensures
            r == (self.val() == 0),
    {
        let mut i: usize = 0;
        while i < 32
            invariant
                0 <= i <= 32,
                forall|j: int| 0 <= j < i ==> self.repr@[j] == 0,
            decreases 32 - i,
        {
            if self.repr[i] != 0 {
                proof {
                    lemma_le_value_nonzero(self.repr@, i as int);
                }
                return false;
            }
            i = i + 1;
        }
        proof {
            lemma_le_value_zero(self.repr@);
        }
        true
    }

    /// Whether two elements are the same field element.
    pub fn equals(&self, other: &Fe) -> (r: bool)
        ensures
            r == (self.val() == other.val()),
    {
        let mut i: usize = 0;
        while i < 32
            invariant
                0 <= i <= 32,
                forall|j: int| 0 <= j < i ==> self.repr@[j] == other.repr@[j],
            decreases 32 - i,
        {
            if self.repr[i] != other.repr[i] {
                proof {
                    if self.val() == other.val() {
                        lemma_le_value_injective(self.repr@, other.repr@);
                    }
                }
                return false;
            }
            i = i + 1;
        }
        proof {
            assert(self.repr@ =~= other.repr@);
        }
        true
    }

    /// The sum modulo p.
    pub fn add(&self, other: &Fe) -> (r: Fe)
        requires
            self.wf(),
            other.wf(),
        ensures
            r.wf(),
            r.val() == (self.val() + other.val()) % modulus(),
    {
        fp_add(self, other)
    }

    /// The difference modulo p.
    pub fn sub(&self, other: &Fe) -> (r: Fe)
        requires
            self.wf(),
            other.wf(),
        ensures
            r.wf(),
            r.val() == (self.val() - other.val()) % modulus(),
    {
        fp_sub(self, other)
    }

    /// The product modulo p.
    pub fn mul(&self, other: &Fe) -> (r: Fe)
        requires
            self.wf(),
            other.wf(),
        ensures
            r.wf(),
            r.val() == (self.val() * other.val()) % modulus(),
    {
        fp_mul(self, other)
    }
}

/// The sum of two values, known when both are.
pub fn value_add(a: &Option<Fe>, b: &Option<Fe>) -> (r: Option<Fe>)
    requires
        a matches Some(x) ==> x.wf(),
        b matches Some(y) ==> y.wf(),
    ensures
        r is Some <==> a is Some && b is Some,
        r matches Some(z) ==> z.wf() && z.val() == (a->Some_0.val() + b->Some_0.val()) % modulus(),
{
    match (a, b) {
        (Some(x), Some(y)) => Some(x.add(y)),
        _ => None,
    }
}

/// The product of two values, known when both are.
pub fn value_mul(a: &Option<Fe>, b: &Option<Fe>) -> (r: Option<Fe>)
    requires
        a matches Some(x) ==> x.wf(),
        b matches Some(y) ==> y.wf(),
    ensures
        r is Some <==> a is Some && b is Some,
        r matches Some(z) ==> z.wf() && z.val() == (a->Some_0.val() * b->Some_0.val()) % modulus(),
{
    match (a, b) {
        (Some(x), Some(y)) => Some(x.mul(y)),
        _ => None,
    }
}

/// The field element that stands for `x`, for `0 <= x < p`.
pub open spec fn fe_of(x: int) -> Fe {
    choose|f: Fe| f.wf() && f.val() == x
}

/// A field element is the one that its number stands for.
pub proof fn lemma_fe_of(f: Fe)
    requires
        f.wf(),
    ensures
        fe_of(f.val()) == f,
{
    let g = fe_of(f.val());
    assert(g.wf() && g.val() == f.val());
    lemma_le_value_injective(g.repr@, f.repr@);
    assert(g.repr =~= f.repr);
}

pub proof fn lemma_le_value_nonneg(s: Seq<u8>)
    ensures
        le_value(s) >= 0,
    decreases s.len(),
{
    if s.len() > 0 {
        lemma_le_value_nonneg(s.drop_first());
    }
}

pub proof fn lemma_le_value_zero(s: Seq<u8>)
    requires
        forall|j: int| 0 <= j < s.len() ==> s[j] == 0,
    ensures
        le_value(s) == 0,
    decreases s.len(),
{
    if s.len() > 0 {
        lemma_le_value_zero(s.drop_first());
    }
}

pub proof fn lemma_le_value_nonzero(s: Seq<u8>, i: int)
    requires
        0 <= i < s.len(),
        s[i] != 0,
    ensures
        le_value(s) != 0,
    decreases s.len(),
{
    lemma_le_value_nonneg(s.drop_first());
    if i > 0 {
        lemma_le_value_nonzero(s.drop_first(), i - 1);
    }
}

pub proof fn lemma_le_value_injective(s: Seq<u8>, t: Seq<u8>)
    requires
        s.len() == t.len(),
        le_value(s) == le_value(t),
    ensures
        s == t,
    decreases s.len(),
{
    if s.len() > 0 {
        let vs = le_value(s.drop_first());
        let vt = le_value(t.drop_first());
        lemma_le_value_nonneg(s.drop_first());
        lemma_le_value_nonneg(t.drop_first());
        let a = s[0] as int;
        let b = t[0] as int;
        assert(a + 256 * vs == b + 256 * vt);
        assert(a == b && vs == vt) by (nonlinear_arith)
            requires
                a + 256 * vs == b + 256 * vt,
                0 <= a < 256,
                0 <= b < 256,
                vs >= 0,
                vt >= 0,
        ;
        lemma_le_value_injective(s.drop_first(), t.drop_first());
        assert(s =~= t.drop_first().insert(0, t[0]));
        assert(t =~= t.drop_first().insert(0, t[0]));
    }
}

/// Relies on pasta's `From<u64> for Fp`: the element `v mod p`; `to_repr`
/// gives its canonical little-endian encoding.
#[verifier::external_body]
fn fp_from_u64(v: u64) -> (r: Fe)
    ensures
        r.wf(),
        r.val() == v as int,
{
    Fe { repr: Fp::from(v).to_repr() }
}

/// Relies on pasta's `Add for &Fp`: addition modulo p. `from_repr` accepts
/// the canonical encodings, `to_repr` gives one back.
#[verifier::external_body]
fn fp_add(a: &Fe, b: &Fe) -> (r: Fe)
    requires
        a.wf(),
        b.wf(),
    ensures
        r.wf(),
        r.val() == (a.val() + b.val()) % modulus(),
{
    let x = Fp::from_repr(a.repr).unwrap();
    let y = Fp::from_repr(b.repr).unwrap();
    Fe { repr: (&x + &y).to_repr() }
}

/// Relies on pasta's `Sub for &Fp`: subtraction modulo p. `from_repr` accepts
/// the canonical encodings, `to_repr` gives one back.
#[verifier::external_body]
fn fp_sub(a: &Fe, b: &Fe) -> (r: Fe)
    requires
        a.wf(),
        b.wf(),
    ensures
        r.wf(),
        r.val() == (a.val() - b.val()) % modulus(),
{
    let x = Fp::from_repr(a.repr).unwrap();
    let y = Fp::from_repr(b.repr).unwrap();
    Fe { repr: (&x - &y).to_repr() }
}

/// Relies on pasta's `Mul for &Fp`: multiplication modulo p. `from_repr`
/// accepts the canonical encodings, `to_repr` gives one back.
#[verifier::external_body]
fn fp_mul(a: &Fe, b: &Fe) -> (r: Fe)
    requires
        a.wf(),
        b.wf(),
    ensures
        r.wf(),
        r.val() == (a.val() * b.val()) % modulus(),
{
    let x = Fp::from_repr(a.repr).unwrap();
    let y = Fp::from_repr(b.repr).unwrap();
    Fe { repr: (&x * &y).to_repr() }
}

} // verus!
