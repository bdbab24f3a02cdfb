use vstd::prelude::*;

verus! {

/// Byte-wise order, as a store that compares keys with `memcmp` sees it:
/// `a` sorts strictly before `b`.
pub open spec fn lex_lt(a: Seq<u8>, b: Seq<u8>) -> bool
    decreases a.len(),
{
    if a.len() == 0 {
        b.len() > 0
    } else if b.len() == 0 {
        false
    } else if a[0] != b[0] {
        a[0] < b[0]
    } else {
        lex_lt(a.drop_first(), b.drop_first())
    }
}

/// `a` sorts before `b` because of a byte where both differ, not because one
/// is a prefix of the other. Whatever follows either of them keeps the order.
pub open spec fn lex_lt_at_byte(a: Seq<u8>, b: Seq<u8>) -> bool
    decreases a.len(),
{
    if a.len() == 0 || b.len() == 0 {
        false
    } else if a[0] != b[0] {
        a[0] < b[0]
    } else {
        lex_lt_at_byte(a.drop_first(), b.drop_first())
    }
}

/// A shared prefix does not change the order.
pub proof fn lemma_lex_common_prefix(p: Seq<u8>, a: Seq<u8>, b: Seq<u8>)
    ensures
        lex_lt(p + a, p + b) == lex_lt(a, b),
        lex_lt_at_byte(p + a, p + b) == lex_lt_at_byte(a, b),
    decreases p.len(),
{
    if p.len() > 0 {
        assert((p + a).drop_first() =~= p.drop_first() + a);
        assert((p + b).drop_first() =~= p.drop_first() + b);
        lemma_lex_common_prefix(p.drop_first(), a, b);
    } else {
        assert(p + a =~= a);
        assert(p + b =~= b);
    }
}

/// An order decided at a byte survives anything appended to either side.
pub proof fn lemma_lex_at_byte_extend(a: Seq<u8>, b: Seq<u8>, x: Seq<u8>, y: Seq<u8>)
    requires
        lex_lt_at_byte(a, b),
    ensures
        lex_lt(a + x, b + y),
        lex_lt_at_byte(a + x, b + y),
    decreases a.len(),
{
    assert((a + x)[0] == a[0]);
    assert((b + y)[0] == b[0]);
    if a[0] == b[0] {
        assert((a + x).drop_first() =~= a.drop_first() + x);
        assert((b + y).drop_first() =~= b.drop_first() + y);
        lemma_lex_at_byte_extend(a.drop_first(), b.drop_first(), x, y);
    }
}

/// Byte order is a strict order: never both ways, never reflexive.
pub proof fn lemma_lex_asymmetric(a: Seq<u8>, b: Seq<u8>)
    ensures
        !(lex_lt(a, b) && lex_lt(b, a)),
        !lex_lt(a, a),
    decreases a.len(),
{
    if a.len() > 0 && b.len() > 0 && a[0] == b[0] {
        lemma_lex_asymmetric(a.drop_first(), b.drop_first());
    }
    if a.len() > 0 {
        lemma_lex_asymmetric(a.drop_first(), a.drop_first());
    }
}

/// Byte order is total: distinct byte strings compare one way or the other.
pub proof fn lemma_lex_total(a: Seq<u8>, b: Seq<u8>)
    requires
        a != b,
    ensures
        lex_lt(a, b) || lex_lt(b, a),
    decreases a.len(),
{
    if a.len() > 0 && b.len() > 0 && a[0] == b[0] {
        if a.drop_first() == b.drop_first() {
            assert(a =~= seq![a[0]] + a.drop_first());
            assert(b =~= seq![b[0]] + b.drop_first());
        }
        lemma_lex_total(a.drop_first(), b.drop_first());
    } else if a.len() == 0 && b.len() == 0 {
        assert(a =~= b);
    }
}

/// Taking `255 - b` of every byte reverses an order decided at a byte.
pub open spec fn complement(s: Seq<u8>) -> Seq<u8> {
    Seq::new(s.len(), |i: int| (255 - s[i]) as u8)
}

pub proof fn lemma_complement_reverses(a: Seq<u8>, b: Seq<u8>)
    requires
        lex_lt_at_byte(a, b),
    ensures
        lex_lt_at_byte(complement(b), complement(a)),
    decreases a.len(),
{
    if a[0] == b[0] {
        assert(complement(a).drop_first() =~= complement(a.drop_first()));
        assert(complement(b).drop_first() =~= complement(b.drop_first()));
        lemma_complement_reverses(a.drop_first(), b.drop_first());
    }
}

pub proof fn lemma_complement_involutive(s: Seq<u8>)
    ensures
        complement(complement(s)) == s,
{
    assert(complement(complement(s)) =~= s);
}

/// `256` to the power `n`.
pub open spec fn pow256(n: nat) -> nat
    decreases n,
{
    if n == 0 {
        1
    } else {
        256 * pow256((n - 1) as nat)
    }
}

/// The number that the bytes `s` spell in base 256, most significant first.
pub open spec fn be_value(s: Seq<u8>) -> nat
    decreases s.len(),
{
    if s.len() == 0 {
        0
    } else {
        (be_value(s.drop_last()) * 256 + s.last()) as nat
    }
}

/// No leading zero byte: every number has exactly one such spelling.
pub open spec fn canonical(s: Seq<u8>) -> bool {
    s.len() == 0 || s[0] != 0
}

/// The shortest big-endian bytes of `x`; zero has none.
pub open spec fn be_bytes(x: nat) -> Seq<u8>
    decreases x,
{
    if x == 0 {
        Seq::empty()
    } else {
        be_bytes(x / 256).push((x % 256) as u8)
    }
}

pub proof fn lemma_pow256_values()
    ensures
        pow256(7) == 0x100_0000_0000_0000,
        pow256(8) == 0x1_0000_0000_0000_0000,
{
    reveal_with_fuel(pow256, 9);
}

pub proof fn lemma_pow256_pos(n: nat)
    ensures
        pow256(n) >= 1,
    decreases n,
{
    if n > 0 {
        lemma_pow256_pos((n - 1) as nat);
    }
}

pub proof fn lemma_pow256_mono(m: nat, n: nat)
    requires
        m <= n,
    ensures
        pow256(m) <= pow256(n),
    decreases n,
{
    if m < n {
        lemma_pow256_mono(m, (n - 1) as nat);
        lemma_pow256_pos((n - 1) as nat);
    }
}

pub proof fn lemma_be_value_bound(s: Seq<u8>)
    ensures
        be_value(s) < pow256(s.len()),
    decreases s.len(),
{
    if s.len() > 0 {
        lemma_be_value_bound(s.drop_last());
        let v = be_value(s.drop_last());
        let p = pow256((s.len() - 1) as nat);
        assert(v * 256 + s.last() < p * 256) by (nonlinear_arith)
            requires
                v < p,
                s.last() < 256,
        ;
    }
}

/// The first byte weighs `256^(len-1)`.
pub proof fn lemma_be_value_front(s: Seq<u8>)
    requires
        s.len() > 0,
    ensures
        be_value(s) == s[0] * pow256((s.len() - 1) as nat) + be_value(s.drop_first()),
    decreases s.len(),
{
    if s.len() == 1 {
        assert(s.drop_last().len() == 0);
        assert(s.drop_first().len() == 0);
        assert(s.last() == s[0]);
        assert(pow256(0) == 1);
        assert(be_value(s.drop_last()) == 0);
        assert(be_value(s.drop_first()) == 0);
        assert(be_value(s) == s[0]);
    } else {
        let t = s.drop_last();
        lemma_be_value_front(t);
        assert(t.drop_first() =~= s.drop_first().drop_last());
        assert(s.drop_first().last() == s.last());
        assert(t[0] == s[0]);
        assert(be_value(s.drop_first()) == be_value(t.drop_first()) * 256 + s.last());
        assert(pow256((s.len() - 1) as nat) == 256 * pow256((t.len() - 1) as nat));
        let p = pow256((t.len() - 1) as nat);
        let a = s[0] as int;
        let r = be_value(t.drop_first()) as int;
        assert((a * p + r) * 256 + s.last() == a * (256 * p) + (r * 256 + s.last()))
            by (nonlinear_arith);
        assert(be_value(t) == a * p + r);
        assert(be_value(s) == be_value(t) * 256 + s.last());
    }
}

pub proof fn lemma_be_value_canonical_lower(s: Seq<u8>)
    requires
        s.len() > 0,
        s[0] != 0,
    ensures
        be_value(s) >= pow256((s.len() - 1) as nat),
{
    lemma_be_value_front(s);
    let p = pow256((s.len() - 1) as nat);
    assert(s[0] * p >= p) by (nonlinear_arith)
        requires
            s[0] >= 1,
    ;
}

/// For spellings of one length, numeric order is byte order.
pub proof fn lemma_be_value_order_same_len(a: Seq<u8>, b: Seq<u8>)
    requires
        a.len() == b.len(),
        be_value(a) < be_value(b),
    ensures
        lex_lt_at_byte(a, b),
    decreases a.len(),
{
    lemma_be_value_front(a);
    lemma_be_value_front(b);
    let p = pow256((a.len() - 1) as nat);
    lemma_be_value_bound(a.drop_first());
    lemma_be_value_bound(b.drop_first());
    if a[0] > b[0] {
        let ra = be_value(a.drop_first()) as int;
        let rb = be_value(b.drop_first()) as int;
        assert(a[0] * p + ra >= b[0] * p + rb) by (nonlinear_arith)
            requires
                a[0] >= b[0] + 1,
                0 <= ra,
                rb < p,
        ;
    } else if a[0] == b[0] {
        lemma_be_value_order_same_len(a.drop_first(), b.drop_first());
    }
}

/// Among canonical spellings, a smaller number never has more bytes.
pub proof fn lemma_canonical_len_mono(a: Seq<u8>, b: Seq<u8>)
    requires
        canonical(a),
        canonical(b),
        be_value(a) < be_value(b),
    ensures
        a.len() <= b.len(),
{
    if a.len() > b.len() {
        lemma_be_value_canonical_lower(a);
        lemma_be_value_bound(b);
        lemma_pow256_mono(b.len(), (a.len() - 1) as nat);
    }
}

pub proof fn lemma_be_bytes(x: nat)
    ensures
        be_value(be_bytes(x)) == x,
        canonical(be_bytes(x)),
    decreases x,
{
    if x > 0 {
        lemma_be_bytes(x / 256);
        let s = be_bytes(x);
        assert(s.drop_last() =~= be_bytes(x / 256));
        if x / 256 == 0 {
            assert(s.len() == 1);
            assert(s[0] == (x % 256) as u8);
        } else {
            assert(s[0] == be_bytes(x / 256)[0]);
        }
    }
}

/// A canonical spelling is the one `be_bytes` gives.
pub proof fn lemma_canonical_is_be_bytes(s: Seq<u8>)
    requires
        canonical(s),
    ensures
        be_bytes(be_value(s)) == s,
    decreases s.len(),
{
    if s.len() > 0 {
        let t = s.drop_last();
        let v = be_value(s);
        if t.len() > 0 {
            assert(t[0] == s[0]);
            lemma_be_value_canonical_lower(t);
            lemma_pow256_pos((t.len() - 1) as nat);
        }
        assert(v > 0) by {
            if t.len() == 0 {
                assert(s[0] == s.last());
            }
        }
        assert(v / 256 == be_value(t) && v % 256 == s.last()) by (nonlinear_arith)
            requires
                v == be_value(t) * 256 + s.last(),
                s.last() < 256,
        ;
        lemma_canonical_is_be_bytes(t);
        assert(be_bytes(v) =~= t.push(s.last()));
    }
}

} // verus!
