use vstd::arithmetic::div_mod::lemma_fundamental_div_mod_converse;
use vstd::arithmetic::mul::{lemma_mul_inequality, lemma_mul_strict_inequality};
use vstd::arithmetic::power2::{
    pow2,
    lemma2_to64, lemma2_to64_rest, lemma_pow2_adds, lemma_pow2_pos, lemma_pow2_strictly_increases,
};
use vstd::prelude::*;

verus! {

/// The integer a normal IEEE-754 64-bit pattern denotes, where it denotes
/// one: sign, biased exponent and fraction decoded by place value.
pub open spec fn f64_bits_to_int(b: u64) -> int {
    if b == 0 {
        0
    } else {
        let sign = b as int / pow2(63) as int;
        let expf = (b as int / pow2(52) as int) % pow2(11) as int;
        let frac = b as int % pow2(52) as int;
        let e = expf - 1023;
        let mag = if e >= 52 {
            (pow2(52) as int + frac) * pow2((e - 52) as nat) as int
        } else {
            (pow2(52) as int + frac) / pow2((52 - e) as nat) as int
        };
        if sign == 1 {
            -mag
        } else {
            mag
        }
    }
}

/// Two raised to the power `k`.
#[verifier::loop_isolation(false)]
pub fn pow2_u64(k: u64) -> (r: u64)
    requires
        k <= 63,
    ensures
        r as nat == pow2(k as nat),
{
    proof {
        lemma2_to64();
        lemma2_to64_rest();
    }
    let mut r: u64 = 1;
    let mut j: u64 = 0;
    while j < k
        invariant
            j <= k,
            r as nat == pow2(j as nat),
        decreases k - j,
    {
        proof {
            lemma_pow2_adds(j as nat, 1);
            if (j + 1) < 63 {
                lemma_pow2_strictly_increases((j + 1) as nat, 63);
            }
        }
        r = r * 2;
        j = j + 1;
    }
    r
}

/// The IEEE-754 64-bit pattern of the float nearest to `x`, ties going to
/// the even mantissa.  For magnitudes up to two to the 53rd the pattern
/// denotes `x` itself: the widening is exact there.
#[verifier::loop_isolation(false)]
#[verifier::rlimit(60)]
pub fn widen_int_to_float_bits(x: i64) -> (r: u64)
    ensures
        -(pow2(53) as int) <= (x as int) <= pow2(53) as int ==> f64_bits_to_int(r) == x as int,
{
    proof {
        lemma2_to64();
        lemma2_to64_rest();
    }
    if x == 0 {
        return 0;
    }
    let neg = x < 0;
    let mag: u64 = if x == i64::MIN {
        9223372036854775808u64
    } else if neg {
        (-x) as u64
    } else {
        x as u64
    };
    proof {
        assert(mag as int == if x >= 0 {
            x as int
        } else {
            -(x as int)
        });
        assert(mag >= 1);
    }
    let mut e: u64 = 0;
    let mut p: u64 = 1;
    let mut done = false;
    while !done
        invariant
            e <= 63,
            p as nat == pow2(e as nat),
            p <= mag,
            done ==> (e == 63 || (mag as nat) < pow2(e as nat + 1)),
        decreases (if done {
            0int
        } else {
            64 - e
        }),
    {
        if e == 63 {
            done = true;
        } else {
            proof {
                lemma_pow2_adds(e as nat, 1);
                if (e + 1) < 63 {
                    lemma_pow2_strictly_increases((e + 1) as nat, 63);
                }
            }
            let p2 = p * 2;
            if p2 > mag {
                done = true;
            } else {
                p = p2;
                e = e + 1;
            }
        }
    }
    proof {
        if e == 63 {
            assert((mag as nat) < pow2(64));
        }
        assert(pow2(e as nat) <= mag as nat);
        assert((mag as nat) < pow2(e as nat + 1));
    }
    let p52 = pow2_u64(52);
    let sign_bit: u64 = if neg {
        pow2_u64(63)
    } else {
        0
    };
    if e <= 52 {
        let shift = 52 - e;
        let pshift = pow2_u64(shift);
        proof {
            lemma_pow2_adds(e as nat + 1, shift as nat);
            lemma_pow2_adds(e as nat, shift as nat);
            lemma_pow2_pos(shift as nat);
            lemma_mul_strict_inequality(mag as int, pow2(e as nat + 1) as int, pshift as int);
            lemma_mul_inequality(pow2(e as nat) as int, mag as int, pshift as int);
            assert((mag as int) * (pshift as int) < pow2(53) as int);
            assert((pow2(52) as int) <= (mag as int) * (pshift as int));
        }
        let full = mag * pshift;
        let frac = full - p52;
        let expf = 1023 + e;
        let bits = sign_bit + expf * p52 + frac;
        proof {
            let s: int = if neg {
                1
            } else {
                0
            };
            let ei = e as int;
            let f = frac as int;
            let b = bits as int;
            assert(b == s * pow2(63) as int + (1023 + ei) * pow2(52) as int + f);
            assert(f < pow2(52) as int);
            lemma_pow2_adds(11, 52);
            assert((s * pow2(11) as int + 1023 + ei) * pow2(52) as int == s * pow2(63) as int + (
            1023 + ei) * pow2(52) as int) by (nonlinear_arith)
                requires
                    (pow2(11) as int) * (pow2(52) as int) == pow2(63) as int,
            ;
            lemma_fundamental_div_mod_converse(
                b,
                pow2(52) as int,
                s * pow2(11) as int + 1023 + ei,
                f,
            );
            assert(b / pow2(52) as int == s * pow2(11) as int + 1023 + ei);
            assert(b % pow2(52) as int == f);
            lemma_fundamental_div_mod_converse(
                b / pow2(52) as int,
                pow2(11) as int,
                s,
                1023 + ei,
            );
            assert((b / pow2(52) as int) % pow2(11) as int == 1023 + ei);
            // sign: b == s * pow2(63) + rest with rest < pow2(63)
            assert((1023 + ei) * pow2(52) as int + f < pow2(63) as int) by (nonlinear_arith)
                requires
                    0 <= ei <= 52,
                    0 <= f,
                    1023 + ei < pow2(11) as int,
                    (pow2(11) as int) * (pow2(52) as int) == pow2(63) as int,
                    f < pow2(52) as int,
                    pow2(52) as int > 0,
            ;
            lemma_fundamental_div_mod_converse(
                b,
                pow2(63) as int,
                s,
                (1023 + ei) * pow2(52) as int + f,
            );
            assert(b / pow2(63) as int == s);
            assert(bits != 0) by {
                lemma_pow2_pos(52);
                assert((1023 + ei) * pow2(52) as int >= pow2(52) as int) by (nonlinear_arith)
                    requires
                        ei >= 0,
                        pow2(52) as int > 0,
                ;
            }
            // the decoded magnitude is mag
            assert(pow2(52) as int + f == (mag as int) * (pshift as int));
            assert((pow2(52) as int + f) / pow2(shift as nat) as int == mag as int) by {
                lemma_pow2_pos(shift as nat);
                lemma_fundamental_div_mod_converse(
                    (mag as int) * (pshift as int),
                    pshift as int,
                    mag as int,
                    0,
                );
            }
            if ei == 52 {
                assert(pshift == 1);
                assert((pow2(52) as int + f) * pow2(0) as int == mag as int) by (nonlinear_arith)
                    requires
                        pow2(0) as int == 1,
                        pshift as int == 1,
                        pow2(52) as int + f == (mag as int) * (pshift as int),
                ;
            }
            assert(f64_bits_to_int(bits) == if s == 1 {
                -(mag as int)
            } else {
                mag as int
            });
        }
        bits
    } else {
        let shift = e - 52;
        let pshift = pow2_u64(shift);
        proof {
            lemma_pow2_pos(shift as nat);
        }
        let q0 = mag / pshift;
        let rem = mag % pshift;
        let half = pshift / 2;
        let mut q = q0;
        let mut e2 = e;
        if rem > half || (rem == half && q0 % 2 == 1) {
            q = q + 1;
        }
        let p53 = pow2_u64(53);
        if q == p53 {
            q = p52;
            e2 = e + 1;
        }
        proof {
            // within the exact range the only case here is mag == pow2(53)
            if -(pow2(53) as int) <= (x as int) <= pow2(53) as int {
                assert((mag as nat) <= pow2(53));
                if e > 53 {
                    lemma_pow2_strictly_increases(53, e as nat);
                    assert(false);
                }
                assert(e == 53);
                assert(mag as nat == pow2(53));
                assert(shift == 1);
                assert(pshift == 2);
                assert(q0 as nat == pow2(52)) by {
                    lemma_pow2_adds(52, 1);
                    lemma_fundamental_div_mod_converse(
                        mag as int,
                        2,
                        pow2(52) as int,
                        0,
                    );
                }
                assert(rem == 0) by {
                    lemma_pow2_adds(52, 1);
                    lemma_fundamental_div_mod_converse(
                        mag as int,
                        2,
                        pow2(52) as int,
                        0,
                    );
                }
                assert(q == q0);
                assert(q != p53) by {
                    lemma_pow2_strictly_increases(52, 53);
                }
                assert(q == p52);
            } else {
                // q stays within the mantissa range in every case
                vstd::arithmetic::div_mod::lemma_fundamental_div_mod(mag as int, pshift as int);
                assert(mag as int == (pshift as int) * (q0 as int) + (rem as int));
                assert(q0 as nat >= pow2(52)) by {
                    assert(mag as nat >= pow2(e as nat));
                    lemma_pow2_adds(52, shift as nat);
                    assert(pow2(e as nat) as int == (pow2(52) as int) * (pshift as int));
                    assert(q0 as int >= pow2(52) as int) by (nonlinear_arith)
                        requires
                            mag as int >= (pow2(52) as int) * (pshift as int),
                            pshift as int > 0,
                            mag as int == (pshift as int) * (q0 as int) + (rem as int),
                            0 <= rem as int,
                            (rem as int) < pshift as int,
                    ;
                }
                assert((q0 as nat) < pow2(53)) by {
                    assert((mag as nat) < pow2(e as nat + 1));
                    lemma_pow2_adds(53, shift as nat);
                    assert(pow2(e as nat + 1) as int == (pow2(53) as int) * (pshift as int));
                    assert((q0 as int) < pow2(53) as int) by (nonlinear_arith)
                        requires
                            (mag as int) < (pow2(53) as int) * (pshift as int),
                            pshift as int > 0,
                            mag as int == (pshift as int) * (q0 as int) + (rem as int),
                            0 <= rem as int,
                    ;
                }
                lemma_pow2_strictly_increases(52, 53);
                assert(q >= p52);
            }
        }
        let frac = q - p52;
        let expf = 1023 + e2;
        let bits = sign_bit + expf * p52 + frac;
        proof {
            if -(pow2(53) as int) <= (x as int) <= pow2(53) as int {
                let s: int = if neg {
                    1
                } else {
                    0
                };
                let b = bits as int;
                assert(b == s * pow2(63) as int + 1076 * pow2(52) as int);
                lemma_pow2_adds(11, 52);
                assert((s * pow2(11) as int + 1076) * pow2(52) as int == s * pow2(63) as int + 1076
                    * pow2(52) as int) by (nonlinear_arith)
                    requires
                        (pow2(11) as int) * (pow2(52) as int) == pow2(63) as int,
                ;
                lemma_pow2_pos(52);
                lemma_fundamental_div_mod_converse(
                    b,
                    pow2(52) as int,
                    s * pow2(11) as int + 1076,
                    0,
                );
                lemma_fundamental_div_mod_converse(b / pow2(52) as int, pow2(11) as int, s, 1076);
                assert(1076 * (pow2(52) as int) < pow2(63) as int) by (nonlinear_arith)
                    requires
                        (pow2(11) as int) * (pow2(52) as int) == pow2(63) as int,
                        pow2(52) as int > 0,
                        pow2(11) as int == 2048,
                ;
                lemma_fundamental_div_mod_converse(b, pow2(63) as int, s, 1076 * pow2(52) as int);
                assert(bits != 0);
                // decoded magnitude: (pow2(52) + 0) * pow2(1) == pow2(53) == mag
                lemma_pow2_adds(52, 1);
                assert((pow2(52) as int + 0) * pow2(1) as int == pow2(53) as int);
                assert(f64_bits_to_int(bits) == if s == 1 {
                    -(mag as int)
                } else {
                    mag as int
                });
            }
        }
        bits
    }
}

} // verus!
