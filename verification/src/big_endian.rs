//! Big-endian byte strings as natural numbers.
//!
//! Every field of an identifier is an unsigned integer written most
//! significant byte first. This module defines that reading once, for byte
//! strings of any length, and proves the facts the rest of the crate needs:
//! writing and reading are inverse to each other, and the numeric order of
//! two equally long strings is their lexicographic order.

use vstd::arithmetic::div_mod::lemma_mod_breakdown;
use vstd::prelude::*;

verus! {

/// `256^n`: the number of byte strings of length `n`.
pub open spec fn pow256(n: nat) -> nat
    decreases n,
{
    if n == 0 {
        1
    } else {
        256 * pow256((n - 1) as nat)
    }
}

/// The number that `s` denotes when read most significant byte first.
pub open spec fn be_value(s: Seq<u8>) -> nat
    decreases s.len(),
{
    if s.len() == 0 {
        0
    } else {
        be_value(s.drop_last()) * 256 + s.last() as nat
    }
}

/// The `width` low-order base-256 digits of `v`, most significant first.
pub open spec fn be_bytes(v: nat, width: nat) -> Seq<u8>
    decreases width,
{
    if width == 0 {
        Seq::empty()
    } else {
        be_bytes(v / 256, (width - 1) as nat).push((v % 256) as u8)
    }
}

/// `a` comes strictly before `b` in lexicographic byte order: at the first
/// position where they differ, `a` holds the smaller byte.
pub open spec fn lex_less(a: Seq<u8>, b: Seq<u8>) -> bool {
    exists|i: int|
        0 <= i < a.len() && i < b.len() && a.take(i) == b.take(i) && #[trigger] a[i] < b[i]
}

/// How `a` stands to `b` in lexicographic byte order: `-1` before, `0` the
/// same string, `1` after.
pub open spec fn byte_order(a: Seq<u8>, b: Seq<u8>) -> int {
    if a == b {
        0
    } else if lex_less(a, b) {
        -1
    } else {
        1
    }
}

/// The powers of 256 that the widths of the fields call for.
pub proof fn lemma_pow256_values()
    ensures
        pow256(0) == 1,
        pow256(1) == 0x100,
        pow256(2) == 0x1_0000,
        pow256(3) == 0x100_0000,
        pow256(4) == 0x1_0000_0000,
        pow256(5) == 0x100_0000_0000,
{
    reveal_with_fuel(pow256, 6);
}

/// No power of 256 is zero.
pub proof fn lemma_pow256_positive(n: nat)
    ensures
        pow256(n) > 0,
    decreases n,
{
    if n > 0 {
        lemma_pow256_positive((n - 1) as nat);
    }
}

/// Writing at a width gives that many bytes.
pub proof fn lemma_be_bytes_len(v: nat, width: nat)
    ensures
        be_bytes(v, width).len() == width,
    decreases width,
{
    if width > 0 {
        lemma_be_bytes_len(v / 256, (width - 1) as nat);
    }
}

/// The three low-order bytes of `v`, written out.
pub proof fn lemma_be_bytes_3(v: nat)
    ensures
        be_bytes(v, 3) == seq![
            (v / 0x1_0000 % 0x100) as u8,
            (v / 0x100 % 0x100) as u8,
            (v % 0x100) as u8,
        ],
{
    reveal_with_fuel(be_bytes, 4);
    assert(v / 256 / 256 == v / 0x1_0000);
    assert(be_bytes(v, 3) =~= seq![
        (v / 0x1_0000 % 0x100) as u8,
        (v / 0x100 % 0x100) as u8,
        (v % 0x100) as u8,
    ]);
}

/// The four low-order bytes of `v`, written out.
pub proof fn lemma_be_bytes_4(v: nat)
    ensures
        be_bytes(v, 4) == seq![
            (v / 0x100_0000 % 0x100) as u8,
            (v / 0x1_0000 % 0x100) as u8,
            (v / 0x100 % 0x100) as u8,
            (v % 0x100) as u8,
        ],
{
    lemma_be_bytes_3(v / 256);
    assert(v / 256 / 0x1_0000 == v / 0x100_0000);
    assert(v / 256 / 0x100 == v / 0x1_0000);
    assert(be_bytes(v, 4) =~= seq![
        (v / 0x100_0000 % 0x100) as u8,
        (v / 0x1_0000 % 0x100) as u8,
        (v / 0x100 % 0x100) as u8,
        (v % 0x100) as u8,
    ]);
}

/// A string of `n` bytes denotes a number below `256^n`.
pub proof fn lemma_be_value_bound(s: Seq<u8>)
    ensures
        be_value(s) < pow256(s.len()),
    decreases s.len(),
{
    if s.len() > 0 {
        lemma_be_value_bound(s.drop_last());
    }
}

/// Reading what was written gives the number back, reduced to the width.
pub proof fn lemma_be_value_of_bytes(v: nat, width: nat)
    ensures
        be_value(be_bytes(v, width)) == v % pow256(width),
    decreases width,
{
    if width > 0 {
        let w = (width - 1) as nat;
        let head = be_bytes(v / 256, w);
        lemma_be_value_of_bytes(v / 256, w);
        lemma_pow256_positive(w);
        assert(be_bytes(v, width).drop_last() =~= head);
        lemma_mod_breakdown(v as int, 256, pow256(w) as int);
    }
}

/// Writing what was read gives the string back.
pub proof fn lemma_be_bytes_of_value(s: Seq<u8>)
    ensures
        be_bytes(be_value(s), s.len()) == s,
    decreases s.len(),
{
    if s.len() > 0 {
        lemma_be_bytes_of_value(s.drop_last());
        assert(be_bytes(be_value(s), s.len()) =~= s);
    }
}

/// The value of a concatenation: the left part is shifted past the right.
pub proof fn lemma_be_value_concat(a: Seq<u8>, b: Seq<u8>)
    ensures
        be_value(a + b) == be_value(a) * pow256(b.len()) + be_value(b),
    decreases b.len(),
{
    if b.len() == 0 {
        assert(a + b =~= a);
        assert(pow256(0) == 1);
        assert(be_value(b) == 0);
    } else {
        let b0 = b.drop_last();
        lemma_be_value_concat(a, b0);
        assert((a + b).drop_last() =~= a + b0);
        assert((a + b).last() == b.last());
        let x = be_value(a) as int;
        let p = pow256(b0.len()) as int;
        assert(pow256(b.len()) == 256 * p);
        assert(x * (256 * p) == (x * p) * 256) by (nonlinear_arith);
        assert(be_value(a + b) == (x * p + be_value(b0)) * 256 + b.last());
        assert(be_value(b) == be_value(b0) * 256 + b.last());
    }
}

/// A string does not come before itself, and of two strings at most one
/// comes before the other.
pub proof fn lemma_lex_less_asymmetric(a: Seq<u8>, b: Seq<u8>)
    requires
        lex_less(a, b),
    ensures
        a != b,
        !lex_less(b, a),
{
    let i = choose|i: int|
        0 <= i < a.len() && i < b.len() && a.take(i) == b.take(i) && #[trigger] a[i] < b[i];
    if lex_less(b, a) {
        let j = choose|j: int|
            0 <= j < b.len() && j < a.len() && b.take(j) == a.take(j) && #[trigger] b[j] < a[j];
        if j < i {
            assert(a.take(i)[j] == b.take(i)[j]);
        } else if i < j {
            assert(b.take(j)[i] == a.take(j)[i]);
        }
    }
}

/// Two strings of one length that denote the same number are the same string.
pub proof fn lemma_be_value_injective(a: Seq<u8>, b: Seq<u8>)
    requires
        a.len() == b.len(),
        be_value(a) == be_value(b),
    ensures
        a == b,
{
    lemma_be_bytes_of_value(a);
    lemma_be_bytes_of_value(b);
}

/// For strings of one length, lexicographic order is numeric order.
pub proof fn lemma_lex_less_is_numeric(a: Seq<u8>, b: Seq<u8>)
    requires
        a.len() == b.len(),
    ensures
        lex_less(a, b) <==> be_value(a) < be_value(b),
    decreases a.len(),
{
    if a.len() > 0 {
        let a0 = a.drop_last();
        let b0 = b.drop_last();
        let n = a.len() - 1;
        lemma_lex_less_is_numeric(a0, b0);
        if lex_less(a0, b0) {
            let i = choose|i: int|
                0 <= i < a0.len() && i < b0.len() && a0.take(i) == b0.take(i) && #[trigger] a0[i]
                    < b0[i];
            assert(a.take(i) =~= a0.take(i));
            assert(b.take(i) =~= b0.take(i));
            assert(a[i] < b[i]);
        } else if a0 == b0 {
            if a.last() < b.last() {
                assert(a.take(n) =~= a0);
                assert(b.take(n) =~= b0);
                assert(a[n] < b[n]);
            }
        }
        if lex_less(a, b) {
            let i = choose|i: int|
                0 <= i < a.len() && i < b.len() && a.take(i) == b.take(i) && #[trigger] a[i] < b[i];
            if i < n {
                assert(a0.take(i) =~= a.take(i));
                assert(b0.take(i) =~= b.take(i));
                assert(a0[i] < b0[i]);
            } else {
                assert(a0 =~= a.take(n));
                assert(b0 =~= b.take(n));
            }
        }
        if a0 != b0 && !lex_less(a0, b0) {
            lemma_lex_total(a0, b0);
            lemma_lex_less_is_numeric(b0, a0);
        }
    }
}

/// Of two different strings of one length, one comes before the other.
pub proof fn lemma_lex_total(a: Seq<u8>, b: Seq<u8>)
    requires
        a.len() == b.len(),
        a != b,
    ensures
        lex_less(a, b) || lex_less(b, a),
    decreases a.len(),
{
    if a.len() == 0 {
        assert(a =~= b);
    } else {
        let a0 = a.drop_last();
        let b0 = b.drop_last();
        let n = a.len() - 1;
        if a0 == b0 {
            assert(a.take(n) =~= a0);
            assert(b.take(n) =~= b0);
            if a[n] == b[n] {
                assert forall|k: int| 0 <= k < a.len() implies a[k] == b[k] by {
                    if k < n {
                        assert(a[k] == a0[k] && b[k] == b0[k]);
                    }
                }
                assert(a =~= b);
            } else if a[n] < b[n] {
            } else {
                assert(b[n] < a[n]);
            }
        } else {
            lemma_lex_total(a0, b0);
            if lex_less(a0, b0) {
                let i = choose|i: int|
                    0 <= i < a0.len() && i < b0.len() && a0.take(i) == b0.take(i)
                        && #[trigger] a0[i] < b0[i];
                assert(a.take(i) =~= a0.take(i));
                assert(b.take(i) =~= b0.take(i));
                assert(a[i] < b[i]);
            } else {
                let i = choose|i: int|
                    0 <= i < b0.len() && i < a0.len() && b0.take(i) == a0.take(i)
                        && #[trigger] b0[i] < a0[i];
                assert(a.take(i) =~= a0.take(i));
                assert(b.take(i) =~= b0.take(i));
                assert(b[i] < a[i]);
            }
        }
    }
}

} // verus!
