//! Parameter-generation sizing: the curve selection and the number of
//! powers a ceremony must prepare for a circuit of a given size.

use vstd::prelude::*;

verus! {

/// The length of a random seed for parameter generation.
pub const SEED_LENGTH: usize = 32;

/// A random seed for parameter generation.
pub type Seed = [u8; SEED_LENGTH];

/// The elliptic curve a ceremony is run over.
#[derive(Clone, Copy, PartialEq, Eq, Structural, Debug)]
pub enum CurveKind {
    Bls12_377,
    BW6,
}

/// The given character folded to ASCII lower case.
pub open spec fn lower_char(c: char) -> char {
    if 'A' <= c && c <= 'Z' {
        ((c as int) + 32) as char
    } else {
        c
    }
}

/// The given characters folded to ASCII lower case.
pub open spec fn lower_seq(s: Seq<char>) -> Seq<char> {
    Seq::new(s.len(), |i: int| lower_char(s[i]))
}

/// Whether the string, folded to ASCII lower case, equals the given
/// (already lower-case) pattern.
fn eq_lower(s: &str, pattern: &str) -> (r: bool)
    ensures
        r == (lower_seq(s@) == pattern@),
{
    let n = s.unicode_len();
    let m = pattern.unicode_len();
    if n != m {
        proof {
            assert(lower_seq(s@).len() == s@.len());
        }
        return false;
    }
    let mut i: usize = 0;
    while i < n
        invariant
            i <= n,
            n == s@.len() == pattern@.len(),
            forall|j: int| 0 <= j < i ==> lower_char(s@[j]) == pattern@[j],
        decreases n - i,
    {
        let a = s.get_char(i);
        let b = pattern.get_char(i);
        let a32 = a as u32;
        let b32 = b as u32;
        let folded: u32 = if a >= 'A' && a <= 'Z' {
            a32 + 32
        } else {
            a32
        };
        if folded != b32 {
            proof {
                assert(lower_char(s@[i as int]) != pattern@[i as int]) by {
                    assert(a == s@[i as int]);
                    assert(b == pattern@[i as int]);
                }
                assert(lower_seq(s@)[i as int] != pattern@[i as int]);
            }
            return false;
        }
        proof {
            assert(lower_char(s@[i as int]) == pattern@[i as int]);
        }
        i = i + 1;
    }
    proof {
        assert(lower_seq(s@) =~= pattern@);
    }
    true
}

/// Reads a curve name, case-insensitively.  Anything but the two
/// supported curves is rejected.
pub fn curve_from_str(src: &str) -> (r: Result<CurveKind, String>)
    ensures
        lower_seq(src@) == "bls12_377"@ ==> r == Result::<CurveKind, String>::Ok(
            CurveKind::Bls12_377,
        ),
        lower_seq(src@) == "bw6"@ ==> r == Result::<CurveKind, String>::Ok(CurveKind::BW6),
        lower_seq(src@) != "bls12_377"@ && lower_seq(src@) != "bw6"@ ==> (r matches Err(m) && m@
            == "unsupported curve."@),
{
    proof {
        reveal_strlit("bls12_377");
        reveal_strlit("bw6");
        assert("bls12_377"@.len() == 9);
        assert("bw6"@.len() == 3);
    }
    if eq_lower(src, "bls12_377") {
        Ok(CurveKind::Bls12_377)
    } else if eq_lower(src, "bw6") {
        Ok(CurveKind::BW6)
    } else {
        Err(String::from_str("unsupported curve."))
    }
}

/// The number of binary digits of `n`: zero for zero, and the
/// exponent of the smallest power of two above `n` otherwise.
pub open spec fn bit_len(n: nat) -> nat
    decreases n,
{
    if n == 0 {
        0
    } else {
        1 + bit_len(n / 2)
    }
}

/// Two to the given power.
pub open spec fn pow2(k: nat) -> nat
    decreases k,
{
    if k == 0 {
        1
    } else {
        2 * pow2((k - 1) as nat)
    }
}

proof fn lemma_pow2_increases(k1: nat, k2: nat)
    requires
        k1 <= k2,
    ensures
        pow2(k1) <= pow2(k2),
    decreases k2,
{
    if k1 < k2 {
        lemma_pow2_increases(k1, (k2 - 1) as nat);
    }
}

proof fn lemma_bit_len_le_k(n: nat, k: nat)
    requires
        n < pow2(k),
    ensures
        bit_len(n) <= k,
    decreases n,
{
    if n > 0 {
        assert(k > 0) by {
            if k == 0 {
                assert(pow2(0nat) == 1);
            }
        }
        assert(pow2(k) == 2 * pow2((k - 1) as nat));
        lemma_bit_len_le_k(n / 2, (k - 1) as nat);
    }
}

#[verifier::rlimit(100)]
proof fn lemma_bit_len_64(n: nat)
    requires
        n <= 0xffffffffffffffff,
    ensures
        bit_len(n) <= 64,
{
    assert(pow2(64) == 0x10000000000000000) by {
        reveal_with_fuel(pow2, 65);
    }
    lemma_bit_len_le_k(n, 64);
}

/// The number of binary digits of `x`.
pub fn log_2(x: usize) -> (r: u32)
    requires
        x > 0,
    ensures
        r == bit_len(x as nat),
{
    proof {
        lemma_bit_len_64(x as nat);
    }
    let mut n: usize = x;
    let mut r: u32 = 0;
    while n > 0
        invariant
            bit_len(x as nat) == bit_len(n as nat) + r,
            bit_len(x as nat) <= 64,
            n <= x,
        decreases n,
    {
        n = n / 2;
        r = r + 1;
    }
    r
}

proof fn lemma_pow2_bit_len(n: nat)
    ensures
        n < pow2(bit_len(n)),
        pow2(bit_len(n)) <= 2 * n + 1,
    decreases n,
{
    if n > 0 {
        lemma_pow2_bit_len(n / 2);
    }
}

/// Two to the given power, computed by doubling.
fn pow2_exec(k: u32) -> (r: usize)
    requires
        pow2(k as nat) <= usize::MAX,
    ensures
        r == pow2(k as nat),
    decreases k,
{
    if k == 0 {
        1
    } else {
        proof {
            assert(pow2(k as nat) == 2 * pow2((k - 1) as nat));
        }
        2 * pow2_exec(k - 1)
    }
}

/// The number of powers the ceremony must prepare for a circuit with
/// the given counts of public variables, private variables and
/// constraints: the largest of the constraint count and the variable
/// count (plus one for the constant input), rounded up past the next
/// power of two exactly as the parameter generator expects.
pub fn ceremony_size(num_public: usize, num_private: usize, num_constraints: usize) -> (r: usize)
    requires
        num_public + num_private + 1 <= usize::MAX / 4,
        num_constraints <= usize::MAX / 4,
    ensures
        ({
            let s = if num_constraints >= num_public + num_private + 1 {
                num_constraints as nat
            } else {
                (num_public + num_private + 1) as nat
            };
            if s < pow2(bit_len(s)) {
                r == pow2(bit_len(s) + 1)
            } else {
                r == s
            }
        }),
{
    let vars = num_public + num_private + 1;
    let phase2_size = if num_constraints >= vars {
        num_constraints
    } else {
        vars
    };
    let power = log_2(phase2_size);
    proof {
        lemma_bit_len_64(phase2_size as nat);
        lemma_pow2_bit_len(phase2_size as nat);
        assert(pow2(bit_len(phase2_size as nat) + 1) == 2 * pow2(bit_len(phase2_size as nat)));
    }
    let threshold = pow2_exec(power);
    if phase2_size < threshold {
        pow2_exec(power + 1)
    } else {
        phase2_size
    }
}

} // verus!
