use vstd::prelude::*;
use vstd::math::abs;

use crate::order::{
    be_bytes, be_value, canonical, complement, lemma_be_bytes, lemma_be_value_bound,
    lemma_be_value_canonical_lower, lemma_be_value_front, lemma_be_value_order_same_len,
    lemma_canonical_is_be_bytes, lemma_canonical_len_mono, lemma_complement_involutive,
    lemma_complement_reverses, lemma_lex_at_byte_extend, lemma_lex_common_prefix,
    lemma_pow256_mono, lemma_pow256_pos, lex_lt_at_byte, pow256, lemma_pow256_values,
};

verus! {

/// An integer of any size, held as a sign and the big-endian bytes of its
/// magnitude with no leading zero byte. Zero is non-negative and has no bytes.
#[derive(Debug, PartialEq, Eq)]
pub struct Integer {
    negative: bool,
    magnitude: Vec<u8>,
}

impl View for Integer {
    type V = int;

    closed spec fn view(&self) -> int {
        if self.negative {
            -(be_value(self.magnitude@) as int)
        } else {
            be_value(self.magnitude@) as int
        }
    }
}

/// The spelling of `x` in exactly `w` big-endian bytes (reduced modulo `256^w`).
pub open spec fn fixed_be(x: nat, w: nat) -> Seq<u8>
    decreases w,
{
    if w == 0 {
        Seq::empty()
    } else {
        fixed_be(x / 256, (w - 1) as nat).push((x % 256) as u8)
    }
}

/// The payload that stands for the integer `n` after its tag byte.
///
/// A non-negative number is `1`, the count of its magnitude bytes in eight
/// big-endian bytes, then those bytes. A negative number is `0`, the count
/// subtracted from `2^64 - 1`, then every magnitude byte subtracted from 255.
/// Byte order on these payloads is numeric order on the integers.
pub open spec fn int_payload(n: int) -> Seq<u8> {
    let m = be_bytes(abs(n));
    if n >= 0 {
        seq![1u8] + fixed_be(m.len(), 8) + m
    } else {
        seq![0u8] + fixed_be((u64::MAX - m.len()) as nat, 8) + complement(m)
    }
}

/// An integer whose magnitude bytes can be counted in a `usize`, as those
/// of every [`Integer`] can.
pub open spec fn fits(n: int) -> bool {
    be_bytes(abs(n)).len() <= usize::MAX
}

/// What follows the header byte and the eight count bytes of a payload.
pub open spec fn payload_body(p: Seq<u8>) -> Seq<u8> {
    p.subrange(9, p.len() as int)
}

pub proof fn lemma_fixed_be(x: nat, w: nat)
    ensures
        fixed_be(x, w).len() == w,
        x < pow256(w) ==> be_value(fixed_be(x, w)) == x,
    decreases w,
{
    if w > 0 {
        lemma_fixed_be(x / 256, (w - 1) as nat);
        let s = fixed_be(x, w);
        assert(s.drop_last() =~= fixed_be(x / 256, (w - 1) as nat));
        if x < pow256(w) {
            let p = pow256((w - 1) as nat);
            assert(x / 256 < p) by (nonlinear_arith)
                requires
                    x < 256 * p,
            ;
            assert(x == (x / 256) * 256 + x % 256) by (nonlinear_arith);
        }
    }
}

/// Eight bytes spell back the number they were read as.
pub proof fn lemma_fixed_be_of_value(s: Seq<u8>)
    ensures
        fixed_be(be_value(s), s.len()) == s,
    decreases s.len(),
{
    if s.len() > 0 {
        let t = s.drop_last();
        let v = be_value(s);
        assert(v / 256 == be_value(t) && v % 256 == s.last()) by (nonlinear_arith)
            requires
                v == be_value(t) * 256 + s.last(),
                s.last() < 256,
        ;
        lemma_fixed_be_of_value(t);
        assert(fixed_be(v, s.len()) =~= t.push(s.last()));
    }
}

/// How a payload is laid out: header byte, eight count bytes, body.
pub proof fn lemma_int_payload_parts(n: int)
    ensures
        ({
            let m = be_bytes(abs(n));
            let p = int_payload(n);
            &&& canonical(m)
            &&& be_value(m) == abs(n)
            &&& p.len() == 9 + m.len()
            &&& p[0] == (if n >= 0 { 1u8 } else { 0u8 })
            &&& p.subrange(1, 9) == (if n >= 0 {
                fixed_be(m.len(), 8)
            } else {
                fixed_be((u64::MAX - m.len()) as nat, 8)
            })
            &&& payload_body(p) == (if n >= 0 { m } else { complement(m) })
            &&& (n < 0 ==> m.len() > 0)
        }),
{
    let m = be_bytes(abs(n));
    let p = int_payload(n);
    lemma_be_bytes(abs(n));
    lemma_fixed_be(m.len(), 8);
    lemma_fixed_be((u64::MAX - m.len()) as nat, 8);
    if n >= 0 {
        assert(p.subrange(1, 9) =~= fixed_be(m.len(), 8));
        assert(payload_body(p) =~= m);
    } else {
        assert(p.subrange(1, 9) =~= fixed_be((u64::MAX - m.len()) as nat, 8));
        assert(payload_body(p) =~= complement(m));
    }
}

/// Different integers have different payloads.
pub proof fn lemma_int_payload_injective(a: int, b: int)
    requires
        int_payload(a) == int_payload(b),
    ensures
        a == b,
{
    lemma_int_payload_parts(a);
    lemma_int_payload_parts(b);
    let ma = be_bytes(abs(a));
    let mb = be_bytes(abs(b));
    if a < 0 {
        lemma_complement_involutive(ma);
        lemma_complement_involutive(mb);
    }
    assert(ma == mb);
}

/// Numeric order on integers is byte order on their payloads, decided at a
/// byte inside both.
pub proof fn lemma_int_payload_order(a: int, b: int)
    requires
        a < b,
        be_bytes(abs(a)).len() <= u64::MAX,
        be_bytes(abs(b)).len() <= u64::MAX,
    ensures
        lex_lt_at_byte(int_payload(a), int_payload(b)),
{
    let ma = be_bytes(abs(a));
    let mb = be_bytes(abs(b));
    lemma_be_bytes(abs(a));
    lemma_be_bytes(abs(b));
    lemma_fixed_be(ma.len(), 8);
    lemma_fixed_be(mb.len(), 8);
    lemma_fixed_be((u64::MAX - ma.len()) as nat, 8);
    lemma_fixed_be((u64::MAX - mb.len()) as nat, 8);
    lemma_pow256_values();
    if a < 0 && b >= 0 {
        assert(int_payload(a)[0] == 0 && int_payload(b)[0] == 1);
    } else if a >= 0 {
        let ha = fixed_be(ma.len(), 8);
        let hb = fixed_be(mb.len(), 8);
        lemma_canonical_len_mono(ma, mb);
        if ma.len() < mb.len() {
            lemma_be_value_order_same_len(ha, hb);
            lemma_lex_at_byte_extend(ha, hb, ma, mb);
        } else {
            lemma_be_value_order_same_len(ma, mb);
            lemma_lex_common_prefix(ha, ma, mb);
        }
        lemma_lex_common_prefix(seq![1u8], ha + ma, hb + mb);
        assert(int_payload(a) =~= seq![1u8] + (ha + ma));
        assert(int_payload(b) =~= seq![1u8] + (hb + mb));
    } else {
        let ha = fixed_be((u64::MAX - ma.len()) as nat, 8);
        let hb = fixed_be((u64::MAX - mb.len()) as nat, 8);
        let ca = complement(ma);
        let cb = complement(mb);
        lemma_canonical_len_mono(mb, ma);
        if mb.len() < ma.len() {
            lemma_be_value_order_same_len(ha, hb);
            lemma_lex_at_byte_extend(ha, hb, ca, cb);
        } else {
            lemma_be_value_order_same_len(mb, ma);
            lemma_complement_reverses(mb, ma);
            lemma_lex_common_prefix(ha, ca, cb);
        }
        lemma_lex_common_prefix(seq![0u8], ha + ca, hb + cb);
        assert(int_payload(a) =~= seq![0u8] + (ha + ca));
        assert(int_payload(b) =~= seq![0u8] + (hb + cb));
    }
}

/// Appends `fixed_be(x, w)` to `out`.
pub(crate) fn push_fixed_be(out: &mut Vec<u8>, x: u64, w: usize)
    ensures
        final(out)@ == old(out)@ + fixed_be(x as nat, w as nat),
    decreases w,
{
    if w > 0 {
        push_fixed_be(out, x / 256, w - 1);
        out.push((x % 256) as u8);
        assert(final(out)@ =~= old(out)@ + fixed_be(x as nat, w as nat));
    }
}

/// Reads the eight bytes of `p` from `start` as a big-endian number.
pub(crate) fn read_be8(p: &[u8], start: usize) -> (r: u64)
    requires
        start + 8 <= p@.len(),
    ensures
        r as nat == be_value(p@.subrange(start as int, start + 8)),
{
    let total = p.len();
    let mut acc: u64 = 0;
    let mut i: usize = 0;
    while i < 8
        invariant
            i <= 8,
            total == p@.len(),
            start + 8 <= p@.len(),
            acc as nat == be_value(p@.subrange(start as int, start + i)),
        decreases 8 - i,
    {
        let ghost s = p@.subrange(start as int, start + i + 1);
        assert(s.drop_last() =~= p@.subrange(start as int, start + i));
        proof {
            lemma_be_value_bound(p@.subrange(start as int, start + i));
            lemma_pow256_mono(i as nat, 7);
            lemma_pow256_values();
            assert(acc * 256 + 255 <= u64::MAX) by (nonlinear_arith)
                requires
                    acc < 0x100_0000_0000_0000,
            ;
        }
        acc = acc * 256 + p[start + i] as u64;
        i = i + 1;
    }
    acc
}

/// Appends `src[from..to]` to `out`.
pub fn push_range(out: &mut Vec<u8>, src: &[u8], from: usize, to: usize)
    requires
        from <= to <= src@.len(),
    ensures
        final(out)@ == old(out)@ + src@.subrange(from as int, to as int),
{
    let mut i = from;
    while i < to
        invariant
            from <= i <= to <= src@.len(),
            out@ == old(out)@ + src@.subrange(from as int, i as int),
        decreases to - i,
    {
        out.push(src[i]);
        i = i + 1;
        assert(out@ =~= old(out)@ + src@.subrange(from as int, i as int));
    }
}

/// Appends `255 - b` for each byte `b` of `src[from..to]` to `out`.
fn push_complement(out: &mut Vec<u8>, src: &[u8], from: usize, to: usize)
    requires
        from <= to <= src@.len(),
    ensures
        final(out)@ == old(out)@ + complement(src@.subrange(from as int, to as int)),
{
    let mut i = from;
    while i < to
        invariant
            from <= i <= to <= src@.len(),
            out@ == old(out)@ + complement(src@.subrange(from as int, i as int)),
        decreases to - i,
    {
        out.push(255 - src[i]);
        i = i + 1;
        assert(out@ =~= old(out)@ + complement(src@.subrange(from as int, i as int)));
    }
}

impl Clone for Integer {
    fn clone(&self) -> (r: Integer)
        ensures
            r@ == self@,
            fits(r@),
    {
        proof {
            use_type_invariant(self);
        }
        let mut magnitude: Vec<u8> = Vec::new();
        push_range(&mut magnitude, self.magnitude.as_slice(), 0, self.magnitude.len());
        assert(magnitude@ =~= self.magnitude@);
        let r = Integer { negative: self.negative, magnitude };
        proof {
            use_type_invariant(&r);
            r.lemma_fits();
        }
        r
    }
}

impl Integer {
    #[verifier::type_invariant]
    spec fn inv(&self) -> bool {
        &&& canonical(self.magnitude@)
        &&& self.negative ==> self.magnitude@.len() > 0
    }

    /// The integer with the given sign whose magnitude the big-endian bytes
    /// spell. Leading zero bytes are ignored; zero is never negative.
    pub fn from_sign_magnitude(negative: bool, magnitude: &[u8]) -> (r: Integer)
        ensures
            r@ == (if negative {
                -(be_value(magnitude@) as int)
            } else {
                be_value(magnitude@) as int
            }),
            fits(r@),
    {
        let mut start: usize = 0;
        while start < magnitude.len() && magnitude[start] == 0
            invariant
                start <= magnitude@.len(),
                forall|j: int| 0 <= j < start ==> magnitude@[j] == 0,
            decreases magnitude@.len() - start,
        {
            start = start + 1;
        }
        let mut bytes: Vec<u8> = Vec::new();
        push_range(&mut bytes, magnitude, start, magnitude.len());
        proof {
            lemma_strip_zeros(magnitude@, start as int);
        }
        let neg = negative && bytes.len() > 0;
        let r = Integer { negative: neg, magnitude: bytes };
        proof {
            use_type_invariant(&r);
            r.lemma_fits();
        }
        r
    }

    /// The integer `v`.
    pub fn from_i64(v: i64) -> (r: Integer)
        ensures
            r@ == v as int,
            fits(r@),
    {
        let negative = v < 0;
        let m: u64 = if negative {
            ((-(v as i128)) as u64)
        } else {
            v as u64
        };
        let mut spelled: Vec<u8> = Vec::new();
        push_fixed_be(&mut spelled, m, 8);
        proof {
            lemma_fixed_be(m as nat, 8);
            lemma_pow256_values();
        }
        Integer::from_sign_magnitude(negative, spelled.as_slice())
    }

    /// The integer's magnitude bytes fit in memory: it meets [`fits`].
    proof fn lemma_fits(&self)
        requires
            self.inv(),
        ensures
            fits(self@),
    {
        lemma_canonical_is_be_bytes(self.magnitude@);
        vstd::std_specs::vec::axiom_spec_len(&self.magnitude);
    }

    /// True when the integer is below zero.
    pub fn is_negative(&self) -> (r: bool)
        ensures
            r == (self@ < 0),
    {
        proof {
            use_type_invariant(self);
            if self.magnitude@.len() > 0 {
                lemma_be_value_canonical_lower(self.magnitude@);
                lemma_pow256_pos((self.magnitude@.len() - 1) as nat);
            }
        }
        self.negative
    }

    /// The big-endian bytes of the magnitude, without a leading zero byte.
    pub fn magnitude(&self) -> (r: Vec<u8>)
        ensures
            r@ == be_bytes(abs(self@)),
    {
        proof {
            use_type_invariant(self);
            lemma_canonical_is_be_bytes(self.magnitude@);
        }
        let mut r: Vec<u8> = Vec::new();
        push_range(&mut r, self.magnitude.as_slice(), 0, self.magnitude.len());
        assert(r@ =~= self.magnitude@);
        r
    }

    /// Appends the payload of this integer to `out`.
    pub fn push_payload(&self, out: &mut Vec<u8>)
        ensures
            final(out)@ == old(out)@ + int_payload(self@),
    {
        proof {
            use_type_invariant(self);
            lemma_canonical_is_be_bytes(self.magnitude@);
        }
        let ghost m = self.magnitude@;
        assert(be_bytes(abs(self@)) == m);
        let len = self.magnitude.len() as u64;
        if self.negative {
            out.push(0u8);
            push_fixed_be(out, u64::MAX - len, 8);
            push_complement(out, self.magnitude.as_slice(), 0, self.magnitude.len());
            assert(m.subrange(0, m.len() as int) =~= m);
            assert(self@ < 0) by {
                lemma_be_value_canonical_lower(m);
                lemma_pow256_pos((m.len() - 1) as nat);
            }
        } else {
            out.push(1u8);
            push_fixed_be(out, len, 8);
            push_range(out, self.magnitude.as_slice(), 0, self.magnitude.len());
            assert(m.subrange(0, m.len() as int) =~= m);
        }
        assert(final(out)@ =~= old(out)@ + int_payload(self@));
    }

    /// The integer whose payload `p` is, if `p` is the payload of one.
    pub fn from_payload(p: &[u8]) -> (r: Option<Integer>)
        ensures
            r matches Some(n) ==> int_payload(n@) == p@ && fits(n@),
            r is None ==> forall|n: int| int_payload(n) != p@,
    {
        if p.len() < 9 || p[0] > 1 {
            proof {
                assert forall|n: int| int_payload(n) != p@ by {
                    lemma_int_payload_parts(n);
                }
            }
            return None;
        }
        let field = read_be8(p, 1);
        let rest = (p.len() - 9) as u64;
        let ghost header = p@.subrange(1, 9);
        let ghost body = payload_body(p@);
        proof {
            lemma_fixed_be_of_value(header);
            lemma_pow256_values();
        }
        let positive = p[0] == 1;
        let well_formed = if positive {
            field == rest && (rest == 0 || p[9] != 0)
        } else {
            field == u64::MAX - rest && rest > 0 && p[9] != 255
        };
        if !well_formed {
            proof {
                assert forall|n: int| int_payload(n) != p@ by {
                    let m = be_bytes(abs(n));
                    lemma_int_payload_parts(n);
                    lemma_fixed_be(m.len(), 8);
                    lemma_fixed_be((u64::MAX - m.len()) as nat, 8);
                    if int_payload(n) == p@ {
                        assert(m.len() == rest);
                        assert(body.len() == m.len());
                        if m.len() > 0 {
                            assert(p@[9] == body[0]);
                        }
                        if n >= 0 {
                            assert(field == rest);
                        } else {
                            assert(field == u64::MAX - rest);
                        }
                    }
                }
            }
            return None;
        }
        let mut magnitude: Vec<u8> = Vec::new();
        if positive {
            push_range(&mut magnitude, p, 9, p.len());
        } else {
            push_complement(&mut magnitude, p, 9, p.len());
        }
        assert(magnitude@ =~= if positive { body } else { complement(body) });
        let r = Integer { negative: !positive, magnitude };
        proof {
            lemma_canonical_is_be_bytes(r.magnitude@);
            lemma_fixed_be(body.len(), 8);
            lemma_fixed_be((u64::MAX - body.len()) as nat, 8);
            if !positive {
                lemma_complement_involutive(body);
                lemma_be_value_canonical_lower(r.magnitude@);
                lemma_pow256_pos((r.magnitude@.len() - 1) as nat);
            }
            assert(be_bytes(abs(r@)) == r.magnitude@);
            assert(int_payload(r@) =~= p@);
            use_type_invariant(&r);
            r.lemma_fits();
        }
        Some(r)
    }
}

/// Dropping leading zero bytes keeps the number and leaves a canonical spelling.
proof fn lemma_strip_zeros(s: Seq<u8>, k: int)
    requires
        0 <= k <= s.len(),
        forall|j: int| 0 <= j < k ==> s[j] == 0,
        k == s.len() || s[k] != 0,
    ensures
        canonical(s.subrange(k, s.len() as int)),
        be_value(s.subrange(k, s.len() as int)) == be_value(s),
    decreases k,
{
    if k > 0 {
        lemma_be_value_front(s);
        assert(s[0] == 0);
        assert(s[0] * pow256((s.len() - 1) as nat) == 0);
        assert(s.drop_first().subrange(k - 1, s.len() - 1) =~= s.subrange(k, s.len() as int));
        lemma_strip_zeros(s.drop_first(), k - 1);
        let t = s.drop_first();
        assert(t.subrange(k - 1, t.len() as int) == s.subrange(k, s.len() as int));
        assert(be_value(s) == be_value(t));
    } else {
        assert(s.subrange(0, s.len() as int) =~= s);
    }
}

} // verus!
