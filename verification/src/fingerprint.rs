//! Content fingerprints for diagram blocks.
//!
//! A fingerprint is a 64-bit integer derived deterministically from a block's
//! environment kind and source text by a stable, order-sensitive hash
//! (the classic FNV-1a fold over the characters, with a separator between the
//! two fields).  Equal `(kind, source)` pairs always fingerprint equally; the
//! fingerprint is the cache key and the placeholder identifier.  Collisions
//! between distinct blocks are a theoretical risk that is accepted, not
//! mitigated.

use vstd::prelude::*;

verus! {

/// FNV-1a 64-bit offset basis.
pub const FNV_OFFSET: u64 = 0xcbf29ce484222325;

/// FNV-1a 64-bit prime.
pub const FNV_PRIME: u64 = 0x100000001b3;

/// Folded between the kind and the source text, so that the hash is
/// order-sensitive over the pair (no character equals it, so the two
/// fields cannot bleed into one another).
pub const KIND_SEPARATOR: u64 = 0x110000;

/// One FNV-1a step: xor the value in, multiply by the prime modulo 2^64.
pub open spec fn fnv_step(h: u64, v: u64) -> u64 {
    ((((h ^ v) * FNV_PRIME) % 0x1_0000_0000_0000_0000) as u64)
}

/// Fold a character sequence into the hash state, left to right.
pub open spec fn fnv_chars(h: u64, s: Seq<char>) -> u64
    decreases s.len(),
{
    if s.len() == 0 {
        h
    } else {
        fnv_chars(fnv_step(h, s[0] as u64), s.drop_first())
    }
}

/// The fingerprint of a diagram block: fold the environment kind, a
/// separator, then the source text.
pub open spec fn fingerprint_of(kind: Seq<char>, source: Seq<char>) -> u64 {
    fnv_chars(fnv_step(fnv_chars(FNV_OFFSET, kind), KIND_SEPARATOR), source)
}

/// Folding one more character is one more step.
pub proof fn lemma_fnv_chars_push(h: u64, s: Seq<char>, c: char)
    ensures
        fnv_chars(h, s.push(c)) == fnv_step(fnv_chars(h, s), c as u64),
    decreases s.len(),
{
    if s.len() == 0 {
        assert(s.push(c)[0] == c);
        assert(s.push(c).drop_first() =~= Seq::<char>::empty());
        assert(fnv_chars(h, s.push(c)) == fnv_chars(fnv_step(h, c as u64), Seq::<char>::empty()));
    } else {
        assert(s.push(c)[0] == s[0]);
        assert(s.push(c).drop_first() =~= s.drop_first().push(c));
        lemma_fnv_chars_push(fnv_step(h, s[0] as u64), s.drop_first(), c);
        assert(fnv_chars(h, s.push(c)) == fnv_chars(
            fnv_step(h, s[0] as u64),
            s.drop_first().push(c),
        ));
        assert(fnv_chars(h, s) == fnv_chars(fnv_step(h, s[0] as u64), s.drop_first()));
    }
}

fn fnv_step_exec(h: u64, v: u64) -> (r: u64)
    ensures
        r == fnv_step(h, v),
{
    let xw: u128 = (h ^ v) as u128;
    let pw: u128 = FNV_PRIME as u128;
    assert(xw * pw < 0x1_0000_0000_0000_0000_0000_0000_0000_0000) by (nonlinear_arith)
        requires
            xw < 0x1_0000_0000_0000_0000,
            pw < 0x1_0000_0000_0000_0000,
    ;
    let wide: u128 = xw * pw;
    let p: u128 = wide % 0x1_0000_0000_0000_0000u128;
    assert(p < 0x1_0000_0000_0000_0000);
    p as u64
}

/// Fold every character of `s` into the hash state.
fn fnv_fold(h0: u64, s: &str) -> (r: u64)
    ensures
        r == fnv_chars(h0, s@),
{
    let n: usize = s.unicode_len();
    let mut h: u64 = h0;
    let mut i: usize = 0;
    while i < n
        invariant
            n == s@.len(),
            i <= n,
            h == fnv_chars(h0, s@.take(i as int)),
        decreases n - i,
    {
        let c = s.get_char(i);
        proof {
            lemma_fnv_chars_push(h0, s@.take(i as int), s@[i as int]);
            assert(s@.take(i as int).push(s@[i as int]) =~= s@.take(i as int + 1));
        }
        h = fnv_step_exec(h, c as u64);
        i = i + 1;
    }
    proof {
        assert(s@.take(n as int) =~= s@);
    }
    h
}

/// Compute the fingerprint of a block given its environment kind's name and
/// its source text.
pub fn compute_fingerprint(kind: &str, source: &str) -> (r: u64)
    ensures
        r == fingerprint_of(kind@, source@),
{
    let h = fnv_fold(FNV_OFFSET, kind);
    let h = fnv_step_exec(h, KIND_SEPARATOR);
    fnv_fold(h, source)
}

} // verus!
