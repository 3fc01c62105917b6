//! Per-radix limits: the exponent and mantissa ranges within which a float
//! is exact, the digit counts that determine rounding, and the largest
//! powers of a radix that fit in a machine word.
//!
//! Each table's contract states the property that generates it, so a wrong
//! entry cannot verify.

use vstd::prelude::*;

verus! {

use vstd::arithmetic::power::{pow, lemma_pow_multiplies};
use vstd::arithmetic::power2::{
    pow2, lemma2_to64, lemma2_to64_rest, lemma_pow2, lemma_pow2_strictly_increases,
};
use crate::limbs::{pow_nat, odd_part};

/// What it means for an exponent range to be exact for a float format with
/// `prec` significand bits, greatest normal binary exponent `emax`, and
/// least subnormal binary exponent `-eminabs`: a power-of-two radix may
/// span the whole exponent range, any other radix is limited by how many
/// of its odd factors fit in the significand.
pub open spec fn exact_exponent_range(
    radix: nat,
    min: int,
    max: int,
    prec: nat,
    emax: nat,
    eminabs: nat,
) -> bool {
    if odd_part(radix) == 1 {
        &&& min < 0 < max
        &&& pow_nat(radix, max as nat) <= pow2(emax) < pow_nat(radix, (max + 1) as nat)
        &&& pow_nat(radix, (-min) as nat) <= pow2(eminabs) < pow_nat(radix, (-min + 1) as nat)
    } else {
        &&& max == -min
        &&& 0 < max
        &&& pow_nat(odd_part(radix), max as nat) <= pow2(prec) < pow_nat(
            odd_part(radix),
            (max + 1) as nat,
        )
    }
}


/// The range of exponents for which a `f32` literal in the given radix is
/// guaranteed exactly representable, so scaling by the radix power is a
/// single exact multiplication.
#[verifier::rlimit(100)]
#[verifier::spinoff_prover]
pub fn f32_exponent_limit(radix: u32) -> (r: (i64, i64))
    ensures
        2 <= radix <= 36 ==> exact_exponent_range(radix as nat, r.0 as int, r.1 as int, 24, 127, 149),
        !(2 <= radix <= 36) ==> r == (0i64, 0i64),
{
    match radix {
        2 => {
            proof {
                lemma2_to64();
                lemma2_to64_rest();
                reveal_with_fuel(odd_part, 8);
                assert(odd_part(2) == 1);
                lemma_pow2(1);
                lemma_pow_multiplies(2, 1, 127);
                lemma_pow2(127);
                lemma_pow_multiplies(2, 1, 128);
                lemma_pow2(128);
                lemma_pow_multiplies(2, 1, 149);
                lemma_pow2(149);
                lemma_pow_multiplies(2, 1, 150);
                lemma_pow2(150);
                lemma_pow2_strictly_increases(127, 128);
                lemma_pow2_strictly_increases(149, 150);
            }
            (-149i64, 127i64)
        },
        3 => {
            proof {
                lemma2_to64();
                lemma2_to64_rest();
                reveal_with_fuel(odd_part, 8);
                assert(odd_part(3) == 3);
                reveal_with_fuel(pow, 17);
                assert(pow(3int, 15) == 14348907);
                assert(pow(3int, 16) == 43046721);
            }
            (-15i64, 15i64)
        },
        4 => {
            proof {
                lemma2_to64();
                lemma2_to64_rest();
                reveal_with_fuel(odd_part, 8);
                assert(odd_part(4) == 1);
                lemma_pow2(2);
                lemma_pow_multiplies(2, 2, 63);
                lemma_pow2(126);
                lemma_pow_multiplies(2, 2, 64);
                lemma_pow2(128);
                lemma_pow_multiplies(2, 2, 74);
                lemma_pow2(148);
                lemma_pow_multiplies(2, 2, 75);
                lemma_pow2(150);
                lemma_pow2_strictly_increases(126, 127);
                lemma_pow2_strictly_increases(127, 128);
                lemma_pow2_strictly_increases(148, 149);
                lemma_pow2_strictly_increases(149, 150);
            }
            (-74i64, 63i64)
        },
        5 => {
            proof {
                lemma2_to64();
                lemma2_to64_rest();
                reveal_with_fuel(odd_part, 8);
                assert(odd_part(5) == 5);
                reveal_with_fuel(pow, 12);
                assert(pow(5int, 10) == 9765625);
                assert(pow(5int, 11) == 48828125);
            }
            (-10i64, 10i64)
        },
        6 => {
            proof {
                lemma2_to64();
                lemma2_to64_rest();
                reveal_with_fuel(odd_part, 8);
                assert(odd_part(6) == 3);
                reveal_with_fuel(pow, 17);
                assert(pow(3int, 15) == 14348907);
                assert(pow(3int, 16) == 43046721);
            }
            (-15i64, 15i64)
        },
        7 => {
            proof {
                lemma2_to64();
                lemma2_to64_rest();
                reveal_with_fuel(odd_part, 8);
                assert(odd_part(7) == 7);
                reveal_with_fuel(pow, 10);
                assert(pow(7int, 8) == 5764801);
                assert(pow(7int, 9) == 40353607);
            }
            (-8i64, 8i64)
        },
        8 => {
            proof {
                lemma2_to64();
                lemma2_to64_rest();
                reveal_with_fuel(odd_part, 8);
                assert(odd_part(8) == 1);
                lemma_pow2(3);
                lemma_pow_multiplies(2, 3, 42);
                lemma_pow2(126);
                lemma_pow_multiplies(2, 3, 43);
                lemma_pow2(129);
                lemma_pow_multiplies(2, 3, 49);
                lemma_pow2(147);
                lemma_pow_multiplies(2, 3, 50);
                lemma_pow2(150);
                lemma_pow2_strictly_increases(126, 127);
                lemma_pow2_strictly_increases(127, 129);
                lemma_pow2_strictly_increases(147, 149);
                lemma_pow2_strictly_increases(149, 150);
            }
            (-49i64, 42i64)
        },
        9 => {
            proof {
                lemma2_to64();
                lemma2_to64_rest();
                reveal_with_fuel(odd_part, 8);
                assert(odd_part(9) == 9);
                reveal_with_fuel(pow, 9);
                assert(pow(9int, 7) == 4782969);
                assert(pow(9int, 8) == 43046721);
            }
            (-7i64, 7i64)
        },
        10 => {
            proof {
                lemma2_to64();
                lemma2_to64_rest();
                reveal_with_fuel(odd_part, 8);
                assert(odd_part(10) == 5);
                reveal_with_fuel(pow, 12);
                assert(pow(5int, 10) == 9765625);
                assert(pow(5int, 11) == 48828125);
            }
            (-10i64, 10i64)
        },
        11 => {
            proof {
                lemma2_to64();
                lemma2_to64_rest();
                reveal_with_fuel(odd_part, 8);
                assert(odd_part(11) == 11);
                reveal_with_fuel(pow, 8);
                assert(pow(11int, 6) == 1771561);
                assert(pow(11int, 7) == 19487171);
            }
            (-6i64, 6i64)
        },
        12 => {
            proof {
                lemma2_to64();
                lemma2_to64_rest();
                reveal_with_fuel(odd_part, 8);
                assert(odd_part(12) == 3);
                reveal_with_fuel(pow, 17);
                assert(pow(3int, 15) == 14348907);
                assert(pow(3int, 16) == 43046721);
            }
            (-15i64, 15i64)
        },
        13 => {
            proof {
                lemma2_to64();
                lemma2_to64_rest();
                reveal_with_fuel(odd_part, 8);
                assert(odd_part(13) == 13);
                reveal_with_fuel(pow, 8);
                assert(pow(13int, 6) == 4826809);
                assert(pow(13int, 7) == 62748517);
            }
            (-6i64, 6i64)
        },
        14 => {
            proof {
                lemma2_to64();
                lemma2_to64_rest();
                reveal_with_fuel(odd_part, 8);
                assert(odd_part(14) == 7);
                reveal_with_fuel(pow, 10);
                assert(pow(7int, 8) == 5764801);
                assert(pow(7int, 9) == 40353607);
            }
            (-8i64, 8i64)
        },
        15 => {
            proof {
                lemma2_to64();
                lemma2_to64_rest();
                reveal_with_fuel(odd_part, 8);
                assert(odd_part(15) == 15);
                reveal_with_fuel(pow, 8);
                assert(pow(15int, 6) == 11390625);
                assert(pow(15int, 7) == 170859375);
            }
            (-6i64, 6i64)
        },
        16 => {
            proof {
                lemma2_to64();
                lemma2_to64_rest();
                reveal_with_fuel(odd_part, 8);
                assert(odd_part(16) == 1);
                lemma_pow2(4);
                lemma_pow_multiplies(2, 4, 31);
                lemma_pow2(124);
                lemma_pow_multiplies(2, 4, 32);
                lemma_pow2(128);
                lemma_pow_multiplies(2, 4, 37);
                lemma_pow2(148);
                lemma_pow_multiplies(2, 4, 38);
                lemma_pow2(152);
                lemma_pow2_strictly_increases(124, 127);
                lemma_pow2_strictly_increases(127, 128);
                lemma_pow2_strictly_increases(148, 149);
                lemma_pow2_strictly_increases(149, 152);
            }
            (-37i64, 31i64)
        },
        17 => {
            proof {
                lemma2_to64();
                lemma2_to64_rest();
                reveal_with_fuel(odd_part, 8);
                assert(odd_part(17) == 17);
                reveal_with_fuel(pow, 7);
                assert(pow(17int, 5) == 1419857);
                assert(pow(17int, 6) == 24137569);
            }
            (-5i64, 5i64)
        },
        18 => {
            proof {
                lemma2_to64();
                lemma2_to64_rest();
                reveal_with_fuel(odd_part, 8);
                assert(odd_part(18) == 9);
                reveal_with_fuel(pow, 9);
                assert(pow(9int, 7) == 4782969);
                assert(pow(9int, 8) == 43046721);
            }
            (-7i64, 7i64)
        },
        19 => {
            proof {
                lemma2_to64();
                lemma2_to64_rest();
                reveal_with_fuel(odd_part, 8);
                assert(odd_part(19) == 19);
                reveal_with_fuel(pow, 7);
                assert(pow(19int, 5) == 2476099);
                assert(pow(19int, 6) == 47045881);
            }
            (-5i64, 5i64)
        },
        20 => {
            proof {
                lemma2_to64();
                lemma2_to64_rest();
                reveal_with_fuel(odd_part, 8);
                assert(odd_part(20) == 5);
                reveal_with_fuel(pow, 12);
                assert(pow(5int, 10) == 9765625);
                assert(pow(5int, 11) == 48828125);
            }
            (-10i64, 10i64)
        },
        21 => {
            proof {
                lemma2_to64();
                lemma2_to64_rest();
                reveal_with_fuel(odd_part, 8);
                assert(odd_part(21) == 21);
                reveal_with_fuel(pow, 7);
                assert(pow(21int, 5) == 4084101);
                assert(pow(21int, 6) == 85766121);
            }
            (-5i64, 5i64)
        },
        22 => {
            proof {
                lemma2_to64();
                lemma2_to64_rest();
                reveal_with_fuel(odd_part, 8);
                assert(odd_part(22) == 11);
                reveal_with_fuel(pow, 8);
                assert(pow(11int, 6) == 1771561);
                assert(pow(11int, 7) == 19487171);
            }
            (-6i64, 6i64)
        },
        23 => {
            proof {
                lemma2_to64();
                lemma2_to64_rest();
                reveal_with_fuel(odd_part, 8);
                assert(odd_part(23) == 23);
                reveal_with_fuel(pow, 7);
                assert(pow(23int, 5) == 6436343);
                assert(pow(23int, 6) == 148035889);
            }
            (-5i64, 5i64)
        },
        24 => {
            proof {
                lemma2_to64();
                lemma2_to64_rest();
                reveal_with_fuel(odd_part, 8);
                assert(odd_part(24) == 3);
                reveal_with_fuel(pow, 17);
                assert(pow(3int, 15) == 14348907);
                assert(pow(3int, 16) == 43046721);
            }
            (-15i64, 15i64)
        },
        25 => {
            proof {
                lemma2_to64();
                lemma2_to64_rest();
                reveal_with_fuel(odd_part, 8);
                assert(odd_part(25) == 25);
                reveal_with_fuel(pow, 7);
                assert(pow(25int, 5) == 9765625);
                assert(pow(25int, 6) == 244140625);
            }
            (-5i64, 5i64)
        },
        26 => {
            proof {
                lemma2_to64();
                lemma2_to64_rest();
                reveal_with_fuel(odd_part, 8);
                assert(odd_part(26) == 13);
                reveal_with_fuel(pow, 8);
                assert(pow(13int, 6) == 4826809);
                assert(pow(13int, 7) == 62748517);
            }
            (-6i64, 6i64)
        },
        27 => {
            proof {
                lemma2_to64();
                lemma2_to64_rest();
                reveal_with_fuel(odd_part, 8);
                assert(odd_part(27) == 27);
                reveal_with_fuel(pow, 7);
                assert(pow(27int, 5) == 14348907);
                assert(pow(27int, 6) == 387420489);
            }
            (-5i64, 5i64)
        },
        28 => {
            proof {
                lemma2_to64();
                lemma2_to64_rest();
                reveal_with_fuel(odd_part, 8);
                assert(odd_part(28) == 7);
                reveal_with_fuel(pow, 10);
                assert(pow(7int, 8) == 5764801);
                assert(pow(7int, 9) == 40353607);
            }
            (-8i64, 8i64)
        },
        29 => {
            proof {
                lemma2_to64();
                lemma2_to64_rest();
                reveal_with_fuel(odd_part, 8);
                assert(odd_part(29) == 29);
                reveal_with_fuel(pow, 6);
                assert(pow(29int, 4) == 707281);
                assert(pow(29int, 5) == 20511149);
            }
            (-4i64, 4i64)
        },
        30 => {
            proof {
                lemma2_to64();
                lemma2_to64_rest();
                reveal_with_fuel(odd_part, 8);
                assert(odd_part(30) == 15);
                reveal_with_fuel(pow, 8);
                assert(pow(15int, 6) == 11390625);
                assert(pow(15int, 7) == 170859375);
            }
            (-6i64, 6i64)
        },
        31 => {
            proof {
                lemma2_to64();
                lemma2_to64_rest();
                reveal_with_fuel(odd_part, 8);
                assert(odd_part(31) == 31);
                reveal_with_fuel(pow, 6);
                assert(pow(31int, 4) == 923521);
                assert(pow(31int, 5) == 28629151);
            }
            (-4i64, 4i64)
        },
        32 => {
            proof {
                lemma2_to64();
                lemma2_to64_rest();
                reveal_with_fuel(odd_part, 8);
                assert(odd_part(32) == 1);
                lemma_pow2(5);
                lemma_pow_multiplies(2, 5, 25);
                lemma_pow2(125);
                lemma_pow_multiplies(2, 5, 26);
                lemma_pow2(130);
                lemma_pow_multiplies(2, 5, 29);
                lemma_pow2(145);
                lemma_pow_multiplies(2, 5, 30);
                lemma_pow2(150);
                lemma_pow2_strictly_increases(125, 127);
                lemma_pow2_strictly_increases(127, 130);
                lemma_pow2_strictly_increases(145, 149);
                lemma_pow2_strictly_increases(149, 150);
            }
            (-29i64, 25i64)
        },
        33 => {
            proof {
                lemma2_to64();
                lemma2_to64_rest();
                reveal_with_fuel(odd_part, 8);
                assert(odd_part(33) == 33);
                reveal_with_fuel(pow, 6);
                assert(pow(33int, 4) == 1185921);
                assert(pow(33int, 5) == 39135393);
            }
            (-4i64, 4i64)
        },
        34 => {
            proof {
                lemma2_to64();
                lemma2_to64_rest();
                reveal_with_fuel(odd_part, 8);
                assert(odd_part(34) == 17);
                reveal_with_fuel(pow, 7);
                assert(pow(17int, 5) == 1419857);
                assert(pow(17int, 6) == 24137569);
            }
            (-5i64, 5i64)
        },
        35 => {
            proof {
                lemma2_to64();
                lemma2_to64_rest();
                reveal_with_fuel(odd_part, 8);
                assert(odd_part(35) == 35);
                reveal_with_fuel(pow, 6);
                assert(pow(35int, 4) == 1500625);
                assert(pow(35int, 5) == 52521875);
            }
            (-4i64, 4i64)
        },
        36 => {
            proof {
                lemma2_to64();
                lemma2_to64_rest();
                reveal_with_fuel(odd_part, 8);
                assert(odd_part(36) == 9);
                reveal_with_fuel(pow, 9);
                assert(pow(9int, 7) == 4782969);
                assert(pow(9int, 8) == 43046721);
            }
            (-7i64, 7i64)
        },
        _ => {
            (0i64, 0i64)
        },
    }
}

/// The range of exponents for which a `f64` literal in the given radix is
/// guaranteed exactly representable, so scaling by the radix power is a
/// single exact multiplication.
#[verifier::rlimit(100)]
#[verifier::spinoff_prover]
pub fn f64_exponent_limit(radix: u32) -> (r: (i64, i64))
    ensures
        2 <= radix <= 36 ==> exact_exponent_range(radix as nat, r.0 as int, r.1 as int, 53, 1023, 1074),
        !(2 <= radix <= 36) ==> r == (0i64, 0i64),
{
    match radix {
        2 => {
            proof {
                lemma2_to64();
                lemma2_to64_rest();
                reveal_with_fuel(odd_part, 8);
                assert(odd_part(2) == 1);
                lemma_pow2(1);
                lemma_pow_multiplies(2, 1, 1023);
                lemma_pow2(1023);
                lemma_pow_multiplies(2, 1, 1024);
                lemma_pow2(1024);
                lemma_pow_multiplies(2, 1, 1074);
                lemma_pow2(1074);
                lemma_pow_multiplies(2, 1, 1075);
                lemma_pow2(1075);
                lemma_pow2_strictly_increases(1023, 1024);
                lemma_pow2_strictly_increases(1074, 1075);
            }
            (-1074i64, 1023i64)
        },
        3 => {
            proof {
                lemma2_to64();
                lemma2_to64_rest();
                reveal_with_fuel(odd_part, 8);
                assert(odd_part(3) == 3);
                reveal_with_fuel(pow, 35);
                assert(pow(3int, 33) == 5559060566555523);
                assert(pow(3int, 34) == 16677181699666569);
            }
            (-33i64, 33i64)
        },
        4 => {
            proof {
                lemma2_to64();
                lemma2_to64_rest();
                reveal_with_fuel(odd_part, 8);
                assert(odd_part(4) == 1);
                lemma_pow2(2);
                lemma_pow_multiplies(2, 2, 511);
                lemma_pow2(1022);
                lemma_pow_multiplies(2, 2, 512);
                lemma_pow2(1024);
                lemma_pow_multiplies(2, 2, 537);
                lemma_pow2(1074);
                lemma_pow_multiplies(2, 2, 538);
                lemma_pow2(1076);
                lemma_pow2_strictly_increases(1022, 1023);
                lemma_pow2_strictly_increases(1023, 1024);
                lemma_pow2_strictly_increases(1074, 1076);
            }
            (-537i64, 511i64)
        },
        5 => {
            proof {
                lemma2_to64();
                lemma2_to64_rest();
                reveal_with_fuel(odd_part, 8);
                assert(odd_part(5) == 5);
                reveal_with_fuel(pow, 24);
                assert(pow(5int, 22) == 2384185791015625);
                assert(pow(5int, 23) == 11920928955078125);
            }
            (-22i64, 22i64)
        },
        6 => {
            proof {
                lemma2_to64();
                lemma2_to64_rest();
                reveal_with_fuel(odd_part, 8);
                assert(odd_part(6) == 3);
                reveal_with_fuel(pow, 35);
                assert(pow(3int, 33) == 5559060566555523);
                assert(pow(3int, 34) == 16677181699666569);
            }
            (-33i64, 33i64)
        },
        7 => {
            proof {
                lemma2_to64();
                lemma2_to64_rest();
                reveal_with_fuel(odd_part, 8);
                assert(odd_part(7) == 7);
                reveal_with_fuel(pow, 20);
                assert(pow(7int, 18) == 1628413597910449);
                assert(pow(7int, 19) == 11398895185373143);
            }
            (-18i64, 18i64)
        },
        8 => {
            proof {
                lemma2_to64();
                lemma2_to64_rest();
                reveal_with_fuel(odd_part, 8);
                assert(odd_part(8) == 1);
                lemma_pow2(3);
                lemma_pow_multiplies(2, 3, 341);
                lemma_pow2(1023);
                lemma_pow_multiplies(2, 3, 342);
                lemma_pow2(1026);
                lemma_pow_multiplies(2, 3, 358);
                lemma_pow2(1074);
                lemma_pow_multiplies(2, 3, 359);
                lemma_pow2(1077);
                lemma_pow2_strictly_increases(1023, 1026);
                lemma_pow2_strictly_increases(1074, 1077);
            }
            (-358i64, 341i64)
        },
        9 => {
            proof {
                lemma2_to64();
                lemma2_to64_rest();
                reveal_with_fuel(odd_part, 8);
                assert(odd_part(9) == 9);
                reveal_with_fuel(pow, 18);
                assert(pow(9int, 16) == 1853020188851841);
                assert(pow(9int, 17) == 16677181699666569);
            }
            (-16i64, 16i64)
        },
        10 => {
            proof {
                lemma2_to64();
                lemma2_to64_rest();
                reveal_with_fuel(odd_part, 8);
                assert(odd_part(10) == 5);
                reveal_with_fuel(pow, 24);
                assert(pow(5int, 22) == 2384185791015625);
                assert(pow(5int, 23) == 11920928955078125);
            }
            (-22i64, 22i64)
        },
        11 => {
            proof {
                lemma2_to64();
                lemma2_to64_rest();
                reveal_with_fuel(odd_part, 8);
                assert(odd_part(11) == 11);
                reveal_with_fuel(pow, 17);
                assert(pow(11int, 15) == 4177248169415651);
                assert(pow(11int, 16) == 45949729863572161);
            }
            (-15i64, 15i64)
        },
        12 => {
            proof {
                lemma2_to64();
                lemma2_to64_rest();
                reveal_with_fuel(odd_part, 8);
                assert(odd_part(12) == 3);
                reveal_with_fuel(pow, 35);
                assert(pow(3int, 33) == 5559060566555523);
                assert(pow(3int, 34) == 16677181699666569);
            }
            (-33i64, 33i64)
        },
        13 => {
            proof {
                lemma2_to64();
                lemma2_to64_rest();
                reveal_with_fuel(odd_part, 8);
                assert(odd_part(13) == 13);
                reveal_with_fuel(pow, 16);
                assert(pow(13int, 14) == 3937376385699289);
                assert(pow(13int, 15) == 51185893014090757);
            }
            (-14i64, 14i64)
        },
        14 => {
            proof {
                lemma2_to64();
                lemma2_to64_rest();
                reveal_with_fuel(odd_part, 8);
                assert(odd_part(14) == 7);
                reveal_with_fuel(pow, 20);
                assert(pow(7int, 18) == 1628413597910449);
                assert(pow(7int, 19) == 11398895185373143);
            }
            (-18i64, 18i64)
        },
        15 => {
            proof {
                lemma2_to64();
                lemma2_to64_rest();
                reveal_with_fuel(odd_part, 8);
                assert(odd_part(15) == 15);
                reveal_with_fuel(pow, 15);
                assert(pow(15int, 13) == 1946195068359375);
                assert(pow(15int, 14) == 29192926025390625);
            }
            (-13i64, 13i64)
        },
        16 => {
            proof {
                lemma2_to64();
                lemma2_to64_rest();
                reveal_with_fuel(odd_part, 8);
                assert(odd_part(16) == 1);
                lemma_pow2(4);
                lemma_pow_multiplies(2, 4, 255);
                lemma_pow2(1020);
                lemma_pow_multiplies(2, 4, 256);
                lemma_pow2(1024);
                lemma_pow_multiplies(2, 4, 268);
                lemma_pow2(1072);
                lemma_pow_multiplies(2, 4, 269);
                lemma_pow2(1076);
                lemma_pow2_strictly_increases(1020, 1023);
                lemma_pow2_strictly_increases(1023, 1024);
                lemma_pow2_strictly_increases(1072, 1074);
                lemma_pow2_strictly_increases(1074, 1076);
            }
            (-268i64, 255i64)
        },
        17 => {
            proof {
                lemma2_to64();
                lemma2_to64_rest();
                reveal_with_fuel(odd_part, 8);
                assert(odd_part(17) == 17);
                reveal_with_fuel(pow, 14);
                assert(pow(17int, 12) == 582622237229761);
                assert(pow(17int, 13) == 9904578032905937);
            }
            (-12i64, 12i64)
        },
        18 => {
            proof {
                lemma2_to64();
                lemma2_to64_rest();
                reveal_with_fuel(odd_part, 8);
                assert(odd_part(18) == 9);
                reveal_with_fuel(pow, 18);
                assert(pow(9int, 16) == 1853020188851841);
                assert(pow(9int, 17) == 16677181699666569);
            }
            (-16i64, 16i64)
        },
        19 => {
            proof {
                lemma2_to64();
                lemma2_to64_rest();
                reveal_with_fuel(odd_part, 8);
                assert(odd_part(19) == 19);
                reveal_with_fuel(pow, 14);
                assert(pow(19int, 12) == 2213314919066161);
                assert(pow(19int, 13) == 42052983462257059);
            }
            (-12i64, 12i64)
        },
        20 => {
            proof {
                lemma2_to64();
                lemma2_to64_rest();
                reveal_with_fuel(odd_part, 8);
                assert(odd_part(20) == 5);
                reveal_with_fuel(pow, 24);
                assert(pow(5int, 22) == 2384185791015625);
                assert(pow(5int, 23) == 11920928955078125);
            }
            (-22i64, 22i64)
        },
        21 => {
            proof {
                lemma2_to64();
                lemma2_to64_rest();
                reveal_with_fuel(odd_part, 8);
                assert(odd_part(21) == 21);
                reveal_with_fuel(pow, 14);
                assert(pow(21int, 12) == 7355827511386641);
                assert(pow(21int, 13) == 154472377739119461);
            }
            (-12i64, 12i64)
        },
        22 => {
            proof {
                lemma2_to64();
                lemma2_to64_rest();
                reveal_with_fuel(odd_part, 8);
                assert(odd_part(22) == 11);
                reveal_with_fuel(pow, 17);
                assert(pow(11int, 15) == 4177248169415651);
                assert(pow(11int, 16) == 45949729863572161);
            }
            (-15i64, 15i64)
        },
        23 => {
            proof {
                lemma2_to64();
                lemma2_to64_rest();
                reveal_with_fuel(odd_part, 8);
                assert(odd_part(23) == 23);
                reveal_with_fuel(pow, 13);
                assert(pow(23int, 11) == 952809757913927);
                assert(pow(23int, 12) == 21914624432020321);
            }
            (-11i64, 11i64)
        },
        24 => {
            proof {
                lemma2_to64();
                lemma2_to64_rest();
                reveal_with_fuel(odd_part, 8);
                assert(odd_part(24) == 3);
                reveal_with_fuel(pow, 35);
                assert(pow(3int, 33) == 5559060566555523);
                assert(pow(3int, 34) == 16677181699666569);
            }
            (-33i64, 33i64)
        },
        25 => {
            proof {
                lemma2_to64();
                lemma2_to64_rest();
                reveal_with_fuel(odd_part, 8);
                assert(odd_part(25) == 25);
                reveal_with_fuel(pow, 13);
                assert(pow(25int, 11) == 2384185791015625);
                assert(pow(25int, 12) == 59604644775390625);
            }
            (-11i64, 11i64)
        },
        26 => {
            proof {
                lemma2_to64();
                lemma2_to64_rest();
                reveal_with_fuel(odd_part, 8);
                assert(odd_part(26) == 13);
                reveal_with_fuel(pow, 16);
                assert(pow(13int, 14) == 3937376385699289);
                assert(pow(13int, 15) == 51185893014090757);
            }
            (-14i64, 14i64)
        },
        27 => {
            proof {
                lemma2_to64();
                lemma2_to64_rest();
                reveal_with_fuel(odd_part, 8);
                assert(odd_part(27) == 27);
                reveal_with_fuel(pow, 13);
                assert(pow(27int, 11) == 5559060566555523);
                assert(pow(27int, 12) == 150094635296999121);
            }
            (-11i64, 11i64)
        },
        28 => {
            proof {
                lemma2_to64();
                lemma2_to64_rest();
                reveal_with_fuel(odd_part, 8);
                assert(odd_part(28) == 7);
                reveal_with_fuel(pow, 20);
                assert(pow(7int, 18) == 1628413597910449);
                assert(pow(7int, 19) == 11398895185373143);
            }
            (-18i64, 18i64)
        },
        29 => {
            proof {
                lemma2_to64();
                lemma2_to64_rest();
                reveal_with_fuel(odd_part, 8);
                assert(odd_part(29) == 29);
                reveal_with_fuel(pow, 12);
                assert(pow(29int, 10) == 420707233300201);
                assert(pow(29int, 11) == 12200509765705829);
            }
            (-10i64, 10i64)
        },
        30 => {
            proof {
                lemma2_to64();
                lemma2_to64_rest();
                reveal_with_fuel(odd_part, 8);
                assert(odd_part(30) == 15);
                reveal_with_fuel(pow, 15);
                assert(pow(15int, 13) == 1946195068359375);
                assert(pow(15int, 14) == 29192926025390625);
            }
            (-13i64, 13i64)
        },
        31 => {
            proof {
                lemma2_to64();
                lemma2_to64_rest();
                reveal_with_fuel(odd_part, 8);
                assert(odd_part(31) == 31);
                reveal_with_fuel(pow, 12);
                assert(pow(31int, 10) == 819628286980801);
                assert(pow(31int, 11) == 25408476896404831);
            }
            (-10i64, 10i64)
        },
        32 => {
            proof {
                lemma2_to64();
                lemma2_to64_rest();
                reveal_with_fuel(odd_part, 8);
                assert(odd_part(32) == 1);
                lemma_pow2(5);
                lemma_pow_multiplies(2, 5, 204);
                lemma_pow2(1020);
                lemma_pow_multiplies(2, 5, 205);
                lemma_pow2(1025);
                lemma_pow_multiplies(2, 5, 214);
                lemma_pow2(1070);
                lemma_pow_multiplies(2, 5, 215);
                lemma_pow2(1075);
                lemma_pow2_strictly_increases(1020, 1023);
                lemma_pow2_strictly_increases(1023, 1025);
                lemma_pow2_strictly_increases(1070, 1074);
                lemma_pow2_strictly_increases(1074, 1075);
            }
            (-214i64, 204i64)
        },
        33 => {
            proof {
                lemma2_to64();
                lemma2_to64_rest();
                reveal_with_fuel(odd_part, 8);
                assert(odd_part(33) == 33);
                reveal_with_fuel(pow, 12);
                assert(pow(33int, 10) == 1531578985264449);
                assert(pow(33int, 11) == 50542106513726817);
            }
            (-10i64, 10i64)
        },
        34 => {
            proof {
                lemma2_to64();
                lemma2_to64_rest();
                reveal_with_fuel(odd_part, 8);
                assert(odd_part(34) == 17);
                reveal_with_fuel(pow, 14);
                assert(pow(17int, 12) == 582622237229761);
                assert(pow(17int, 13) == 9904578032905937);
            }
            (-12i64, 12i64)
        },
        35 => {
            proof {
                lemma2_to64();
                lemma2_to64_rest();
                reveal_with_fuel(odd_part, 8);
                assert(odd_part(35) == 35);
                reveal_with_fuel(pow, 12);
                assert(pow(35int, 10) == 2758547353515625);
                assert(pow(35int, 11) == 96549157373046875);
            }
            (-10i64, 10i64)
        },
        36 => {
            proof {
                lemma2_to64();
                lemma2_to64_rest();
                reveal_with_fuel(odd_part, 8);
                assert(odd_part(36) == 9);
                reveal_with_fuel(pow, 18);
                assert(pow(9int, 16) == 1853020188851841);
                assert(pow(9int, 17) == 16677181699666569);
            }
            (-16i64, 16i64)
        },
        _ => {
            (0i64, 0i64)
        },
    }
}

/// The number of digits in the given radix that always fit exactly in a
/// `f32` significand: the largest `n` with `radix^n <= 2^24`.
#[verifier::rlimit(100)]
pub fn f32_mantissa_limit(radix: u32) -> (r: i64)
    ensures
        2 <= radix <= 36 ==> 1 <= r && pow_nat(radix as nat, r as nat) <= pow2(24) < pow_nat(radix as nat, (r + 1) as nat),
        !(2 <= radix <= 36) ==> r == 0,
{
    match radix {
        2 => {
            proof {
                lemma2_to64();
                lemma2_to64_rest();
                reveal_with_fuel(odd_part, 8);
                assert(odd_part(2) == 1);
                lemma_pow2(1);
                lemma_pow_multiplies(2, 1, 24);
                lemma_pow2(24);
                lemma_pow_multiplies(2, 1, 25);
                lemma_pow2(25);
                lemma_pow2_strictly_increases(24, 25);
            }
            24i64
        },
        3 => {
            proof {
                lemma2_to64();
                lemma2_to64_rest();
                reveal_with_fuel(odd_part, 8);
                reveal_with_fuel(pow, 17);
                assert(pow(3int, 15) == 14348907);
                assert(pow(3int, 16) == 43046721);
            }
            15i64
        },
        4 => {
            proof {
                lemma2_to64();
                lemma2_to64_rest();
                reveal_with_fuel(odd_part, 8);
                assert(odd_part(4) == 1);
                lemma_pow2(2);
                lemma_pow_multiplies(2, 2, 12);
                lemma_pow2(24);
                lemma_pow_multiplies(2, 2, 13);
                lemma_pow2(26);
                lemma_pow2_strictly_increases(24, 26);
            }
            12i64
        },
        5 => {
            proof {
                lemma2_to64();
                lemma2_to64_rest();
                reveal_with_fuel(odd_part, 8);
                reveal_with_fuel(pow, 12);
                assert(pow(5int, 10) == 9765625);
                assert(pow(5int, 11) == 48828125);
            }
            10i64
        },
        6 => {
            proof {
                lemma2_to64();
                lemma2_to64_rest();
                reveal_with_fuel(odd_part, 8);
                reveal_with_fuel(pow, 11);
                assert(pow(6int, 9) == 10077696);
                assert(pow(6int, 10) == 60466176);
            }
            9i64
        },
        7 => {
            proof {
                lemma2_to64();
                lemma2_to64_rest();
                reveal_with_fuel(odd_part, 8);
                reveal_with_fuel(pow, 10);
                assert(pow(7int, 8) == 5764801);
                assert(pow(7int, 9) == 40353607);
            }
            8i64
        },
        8 => {
            proof {
                lemma2_to64();
                lemma2_to64_rest();
                reveal_with_fuel(odd_part, 8);
                assert(odd_part(8) == 1);
                lemma_pow2(3);
                lemma_pow_multiplies(2, 3, 8);
                lemma_pow2(24);
                lemma_pow_multiplies(2, 3, 9);
                lemma_pow2(27);
                lemma_pow2_strictly_increases(24, 27);
            }
            8i64
        },
        9 => {
            proof {
                lemma2_to64();
                lemma2_to64_rest();
                reveal_with_fuel(odd_part, 8);
                reveal_with_fuel(pow, 9);
                assert(pow(9int, 7) == 4782969);
                assert(pow(9int, 8) == 43046721);
            }
            7i64
        },
        10 => {
            proof {
                lemma2_to64();
                lemma2_to64_rest();
                reveal_with_fuel(odd_part, 8);
                reveal_with_fuel(pow, 9);
                assert(pow(10int, 7) == 10000000);
                assert(pow(10int, 8) == 100000000);
            }
            7i64
        },
        11 => {
            proof {
                lemma2_to64();
                lemma2_to64_rest();
                reveal_with_fuel(odd_part, 8);
                reveal_with_fuel(pow, 8);
                assert(pow(11int, 6) == 1771561);
                assert(pow(11int, 7) == 19487171);
            }
            6i64
        },
        12 => {
            proof {
                lemma2_to64();
                lemma2_to64_rest();
                reveal_with_fuel(odd_part, 8);
                reveal_with_fuel(pow, 8);
                assert(pow(12int, 6) == 2985984);
                assert(pow(12int, 7) == 35831808);
            }
            6i64
        },
        13 => {
            proof {
                lemma2_to64();
                lemma2_to64_rest();
                reveal_with_fuel(odd_part, 8);
                reveal_with_fuel(pow, 8);
                assert(pow(13int, 6) == 4826809);
                assert(pow(13int, 7) == 62748517);
            }
            6i64
        },
        14 => {
            proof {
                lemma2_to64();
                lemma2_to64_rest();
                reveal_with_fuel(odd_part, 8);
                reveal_with_fuel(pow, 8);
                assert(pow(14int, 6) == 7529536);
                assert(pow(14int, 7) == 105413504);
            }
            6i64
        },
        15 => {
            proof {
                lemma2_to64();
                lemma2_to64_rest();
                reveal_with_fuel(odd_part, 8);
                reveal_with_fuel(pow, 8);
                assert(pow(15int, 6) == 11390625);
                assert(pow(15int, 7) == 170859375);
            }
            6i64
        },
        16 => {
            proof {
                lemma2_to64();
                lemma2_to64_rest();
                reveal_with_fuel(odd_part, 8);
                assert(odd_part(16) == 1);
                lemma_pow2(4);
                lemma_pow_multiplies(2, 4, 6);
                lemma_pow2(24);
                lemma_pow_multiplies(2, 4, 7);
                lemma_pow2(28);
                lemma_pow2_strictly_increases(24, 28);
            }
            6i64
        },
        17 => {
            proof {
                lemma2_to64();
                lemma2_to64_rest();
                reveal_with_fuel(odd_part, 8);
                reveal_with_fuel(pow, 7);
                assert(pow(17int, 5) == 1419857);
                assert(pow(17int, 6) == 24137569);
            }
            5i64
        },
        18 => {
            proof {
                lemma2_to64();
                lemma2_to64_rest();
                reveal_with_fuel(odd_part, 8);
                reveal_with_fuel(pow, 7);
                assert(pow(18int, 5) == 1889568);
                assert(pow(18int, 6) == 34012224);
            }
            5i64
        },
        19 => {
            proof {
                lemma2_to64();
                lemma2_to64_rest();
                reveal_with_fuel(odd_part, 8);
                reveal_with_fuel(pow, 7);
                assert(pow(19int, 5) == 2476099);
                assert(pow(19int, 6) == 47045881);
            }
            5i64
        },
        20 => {
            proof {
                lemma2_to64();
                lemma2_to64_rest();
                reveal_with_fuel(odd_part, 8);
                reveal_with_fuel(pow, 7);
                assert(pow(20int, 5) == 3200000);
                assert(pow(20int, 6) == 64000000);
            }
            5i64
        },
        21 => {
            proof {
                lemma2_to64();
                lemma2_to64_rest();
                reveal_with_fuel(odd_part, 8);
                reveal_with_fuel(pow, 7);
                assert(pow(21int, 5) == 4084101);
                assert(pow(21int, 6) == 85766121);
            }
            5i64
        },
        22 => {
            proof {
                lemma2_to64();
                lemma2_to64_rest();
                reveal_with_fuel(odd_part, 8);
                reveal_with_fuel(pow, 7);
                assert(pow(22int, 5) == 5153632);
                assert(pow(22int, 6) == 113379904);
            }
            5i64
        },
        23 => {
            proof {
                lemma2_to64();
                lemma2_to64_rest();
                reveal_with_fuel(odd_part, 8);
                reveal_with_fuel(pow, 7);
                assert(pow(23int, 5) == 6436343);
                assert(pow(23int, 6) == 148035889);
            }
            5i64
        },
        24 => {
            proof {
                lemma2_to64();
                lemma2_to64_rest();
                reveal_with_fuel(odd_part, 8);
                reveal_with_fuel(pow, 7);
                assert(pow(24int, 5) == 7962624);
                assert(pow(24int, 6) == 191102976);
            }
            5i64
        },
        25 => {
            proof {
                lemma2_to64();
                lemma2_to64_rest();
                reveal_with_fuel(odd_part, 8);
                reveal_with_fuel(pow, 7);
                assert(pow(25int, 5) == 9765625);
                assert(pow(25int, 6) == 244140625);
            }
            5i64
        },
        26 => {
            proof {
                lemma2_to64();
                lemma2_to64_rest();
                reveal_with_fuel(odd_part, 8);
                reveal_with_fuel(pow, 7);
                assert(pow(26int, 5) == 11881376);
                assert(pow(26int, 6) == 308915776);
            }
            5i64
        },
        27 => {
            proof {
                lemma2_to64();
                lemma2_to64_rest();
                reveal_with_fuel(odd_part, 8);
                reveal_with_fuel(pow, 7);
                assert(pow(27int, 5) == 14348907);
                assert(pow(27int, 6) == 387420489);
            }
            5i64
        },
        28 => {
            proof {
                lemma2_to64();
                lemma2_to64_rest();
                reveal_with_fuel(odd_part, 8);
                reveal_with_fuel(pow, 6);
                assert(pow(28int, 4) == 614656);
                assert(pow(28int, 5) == 17210368);
            }
            4i64
        },
        29 => {
            proof {
                lemma2_to64();
                lemma2_to64_rest();
                reveal_with_fuel(odd_part, 8);
                reveal_with_fuel(pow, 6);
                assert(pow(29int, 4) == 707281);
                assert(pow(29int, 5) == 20511149);
            }
            4i64
        },
        30 => {
            proof {
                lemma2_to64();
                lemma2_to64_rest();
                reveal_with_fuel(odd_part, 8);
                reveal_with_fuel(pow, 6);
                assert(pow(30int, 4) == 810000);
                assert(pow(30int, 5) == 24300000);
            }
            4i64
        },
        31 => {
            proof {
                lemma2_to64();
                lemma2_to64_rest();
                reveal_with_fuel(odd_part, 8);
                reveal_with_fuel(pow, 6);
                assert(pow(31int, 4) == 923521);
                assert(pow(31int, 5) == 28629151);
            }
            4i64
        },
        32 => {
            proof {
                lemma2_to64();
                lemma2_to64_rest();
                reveal_with_fuel(odd_part, 8);
                assert(odd_part(32) == 1);
                lemma_pow2(5);
                lemma_pow_multiplies(2, 5, 4);
                lemma_pow2(20);
                lemma_pow_multiplies(2, 5, 5);
                lemma_pow2(25);
                lemma_pow2_strictly_increases(20, 24);
                lemma_pow2_strictly_increases(24, 25);
            }
            4i64
        },
        33 => {
            proof {
                lemma2_to64();
                lemma2_to64_rest();
                reveal_with_fuel(odd_part, 8);
                reveal_with_fuel(pow, 6);
                assert(pow(33int, 4) == 1185921);
                assert(pow(33int, 5) == 39135393);
            }
            4i64
        },
        34 => {
            proof {
                lemma2_to64();
                lemma2_to64_rest();
                reveal_with_fuel(odd_part, 8);
                reveal_with_fuel(pow, 6);
                assert(pow(34int, 4) == 1336336);
                assert(pow(34int, 5) == 45435424);
            }
            4i64
        },
        35 => {
            proof {
                lemma2_to64();
                lemma2_to64_rest();
                reveal_with_fuel(odd_part, 8);
                reveal_with_fuel(pow, 6);
                assert(pow(35int, 4) == 1500625);
                assert(pow(35int, 5) == 52521875);
            }
            4i64
        },
        36 => {
            proof {
                lemma2_to64();
                lemma2_to64_rest();
                reveal_with_fuel(odd_part, 8);
                reveal_with_fuel(pow, 6);
                assert(pow(36int, 4) == 1679616);
                assert(pow(36int, 5) == 60466176);
            }
            4i64
        },
        _ => {
            0i64
        },
    }
}

/// The number of digits in the given radix that always fit exactly in a
/// `f64` significand: the largest `n` with `radix^n <= 2^53`.
#[verifier::rlimit(100)]
pub fn f64_mantissa_limit(radix: u32) -> (r: i64)
    ensures
        2 <= radix <= 36 ==> 1 <= r && pow_nat(radix as nat, r as nat) <= pow2(53) < pow_nat(radix as nat, (r + 1) as nat),
        !(2 <= radix <= 36) ==> r == 0,
{
    match radix {
        2 => {
            proof {
                lemma2_to64();
                lemma2_to64_rest();
                reveal_with_fuel(odd_part, 8);
                assert(odd_part(2) == 1);
                lemma_pow2(1);
                lemma_pow_multiplies(2, 1, 53);
                lemma_pow2(53);
                lemma_pow_multiplies(2, 1, 54);
                lemma_pow2(54);
                lemma_pow2_strictly_increases(53, 54);
            }
            53i64
        },
        3 => {
            proof {
                lemma2_to64();
                lemma2_to64_rest();
                reveal_with_fuel(odd_part, 8);
                reveal_with_fuel(pow, 35);
                assert(pow(3int, 33) == 5559060566555523);
                assert(pow(3int, 34) == 16677181699666569);
            }
            33i64
        },
        4 => {
            proof {
                lemma2_to64();
                lemma2_to64_rest();
                reveal_with_fuel(odd_part, 8);
                assert(odd_part(4) == 1);
                lemma_pow2(2);
                lemma_pow_multiplies(2, 2, 26);
                lemma_pow2(52);
                lemma_pow_multiplies(2, 2, 27);
                lemma_pow2(54);
                lemma_pow2_strictly_increases(52, 53);
                lemma_pow2_strictly_increases(53, 54);
            }
            26i64
        },
        5 => {
            proof {
                lemma2_to64();
                lemma2_to64_rest();
                reveal_with_fuel(odd_part, 8);
                reveal_with_fuel(pow, 24);
                assert(pow(5int, 22) == 2384185791015625);
                assert(pow(5int, 23) == 11920928955078125);
            }
            22i64
        },
        6 => {
            proof {
                lemma2_to64();
                lemma2_to64_rest();
                reveal_with_fuel(odd_part, 8);
                reveal_with_fuel(pow, 22);
                assert(pow(6int, 20) == 3656158440062976);
                assert(pow(6int, 21) == 21936950640377856);
            }
            20i64
        },
        7 => {
            proof {
                lemma2_to64();
                lemma2_to64_rest();
                reveal_with_fuel(odd_part, 8);
                reveal_with_fuel(pow, 20);
                assert(pow(7int, 18) == 1628413597910449);
                assert(pow(7int, 19) == 11398895185373143);
            }
            18i64
        },
        8 => {
            proof {
                lemma2_to64();
                lemma2_to64_rest();
                reveal_with_fuel(odd_part, 8);
                assert(odd_part(8) == 1);
                lemma_pow2(3);
                lemma_pow_multiplies(2, 3, 17);
                lemma_pow2(51);
                lemma_pow_multiplies(2, 3, 18);
                lemma_pow2(54);
                lemma_pow2_strictly_increases(51, 53);
                lemma_pow2_strictly_increases(53, 54);
            }
            17i64
        },
        9 => {
            proof {
                lemma2_to64();
                lemma2_to64_rest();
                reveal_with_fuel(odd_part, 8);
                reveal_with_fuel(pow, 18);
                assert(pow(9int, 16) == 1853020188851841);
                assert(pow(9int, 17) == 16677181699666569);
            }
            16i64
        },
        10 => {
            proof {
                lemma2_to64();
                lemma2_to64_rest();
                reveal_with_fuel(odd_part, 8);
                reveal_with_fuel(pow, 17);
                assert(pow(10int, 15) == 1000000000000000);
                assert(pow(10int, 16) == 10000000000000000);
            }
            15i64
        },
        11 => {
            proof {
                lemma2_to64();
                lemma2_to64_rest();
                reveal_with_fuel(odd_part, 8);
                reveal_with_fuel(pow, 17);
                assert(pow(11int, 15) == 4177248169415651);
                assert(pow(11int, 16) == 45949729863572161);
            }
            15i64
        },
        12 => {
            proof {
                lemma2_to64();
                lemma2_to64_rest();
                reveal_with_fuel(odd_part, 8);
                reveal_with_fuel(pow, 16);
                assert(pow(12int, 14) == 1283918464548864);
                assert(pow(12int, 15) == 15407021574586368);
            }
            14i64
        },
        13 => {
            proof {
                lemma2_to64();
                lemma2_to64_rest();
                reveal_with_fuel(odd_part, 8);
                reveal_with_fuel(pow, 16);
                assert(pow(13int, 14) == 3937376385699289);
                assert(pow(13int, 15) == 51185893014090757);
            }
            14i64
        },
        14 => {
            proof {
                lemma2_to64();
                lemma2_to64_rest();
                reveal_with_fuel(odd_part, 8);
                reveal_with_fuel(pow, 15);
                assert(pow(14int, 13) == 793714773254144);
                assert(pow(14int, 14) == 11112006825558016);
            }
            13i64
        },
        15 => {
            proof {
                lemma2_to64();
                lemma2_to64_rest();
                reveal_with_fuel(odd_part, 8);
                reveal_with_fuel(pow, 15);
                assert(pow(15int, 13) == 1946195068359375);
                assert(pow(15int, 14) == 29192926025390625);
            }
            13i64
        },
        16 => {
            proof {
                lemma2_to64();
                lemma2_to64_rest();
                reveal_with_fuel(odd_part, 8);
                assert(odd_part(16) == 1);
                lemma_pow2(4);
                lemma_pow_multiplies(2, 4, 13);
                lemma_pow2(52);
                lemma_pow_multiplies(2, 4, 14);
                lemma_pow2(56);
                lemma_pow2_strictly_increases(52, 53);
                lemma_pow2_strictly_increases(53, 56);
            }
            13i64
        },
        17 => {
            proof {
                lemma2_to64();
                lemma2_to64_rest();
                reveal_with_fuel(odd_part, 8);
                reveal_with_fuel(pow, 14);
                assert(pow(17int, 12) == 582622237229761);
                assert(pow(17int, 13) == 9904578032905937);
            }
            12i64
        },
        18 => {
            proof {
                lemma2_to64();
                lemma2_to64_rest();
                reveal_with_fuel(odd_part, 8);
                reveal_with_fuel(pow, 14);
                assert(pow(18int, 12) == 1156831381426176);
                assert(pow(18int, 13) == 20822964865671168);
            }
            12i64
        },
        19 => {
            proof {
                lemma2_to64();
                lemma2_to64_rest();
                reveal_with_fuel(odd_part, 8);
                reveal_with_fuel(pow, 14);
                assert(pow(19int, 12) == 2213314919066161);
                assert(pow(19int, 13) == 42052983462257059);
            }
            12i64
        },
        20 => {
            proof {
                lemma2_to64();
                lemma2_to64_rest();
                reveal_with_fuel(odd_part, 8);
                reveal_with_fuel(pow, 14);
                assert(pow(20int, 12) == 4096000000000000);
                assert(pow(20int, 13) == 81920000000000000);
            }
            12i64
        },
        21 => {
            proof {
                lemma2_to64();
                lemma2_to64_rest();
                reveal_with_fuel(odd_part, 8);
                reveal_with_fuel(pow, 14);
                assert(pow(21int, 12) == 7355827511386641);
                assert(pow(21int, 13) == 154472377739119461);
            }
            12i64
        },
        22 => {
            proof {
                lemma2_to64();
                lemma2_to64_rest();
                reveal_with_fuel(odd_part, 8);
                reveal_with_fuel(pow, 13);
                assert(pow(22int, 11) == 584318301411328);
                assert(pow(22int, 12) == 12855002631049216);
            }
            11i64
        },
        23 => {
            proof {
                lemma2_to64();
                lemma2_to64_rest();
                reveal_with_fuel(odd_part, 8);
                reveal_with_fuel(pow, 13);
                assert(pow(23int, 11) == 952809757913927);
                assert(pow(23int, 12) == 21914624432020321);
            }
            11i64
        },
        24 => {
            proof {
                lemma2_to64();
                lemma2_to64_rest();
                reveal_with_fuel(odd_part, 8);
                reveal_with_fuel(pow, 13);
                assert(pow(24int, 11) == 1521681143169024);
                assert(pow(24int, 12) == 36520347436056576);
            }
            11i64
        },
        25 => {
            proof {
                lemma2_to64();
                lemma2_to64_rest();
                reveal_with_fuel(odd_part, 8);
                reveal_with_fuel(pow, 13);
                assert(pow(25int, 11) == 2384185791015625);
                assert(pow(25int, 12) == 59604644775390625);
            }
            11i64
        },
        26 => {
            proof {
                lemma2_to64();
                lemma2_to64_rest();
                reveal_with_fuel(odd_part, 8);
                reveal_with_fuel(pow, 13);
                assert(pow(26int, 11) == 3670344486987776);
                assert(pow(26int, 12) == 95428956661682176);
            }
            11i64
        },
        27 => {
            proof {
                lemma2_to64();
                lemma2_to64_rest();
                reveal_with_fuel(odd_part, 8);
                reveal_with_fuel(pow, 13);
                assert(pow(27int, 11) == 5559060566555523);
                assert(pow(27int, 12) == 150094635296999121);
            }
            11i64
        },
        28 => {
            proof {
                lemma2_to64();
                lemma2_to64_rest();
                reveal_with_fuel(odd_part, 8);
                reveal_with_fuel(pow, 13);
                assert(pow(28int, 11) == 8293509467471872);
                assert(pow(28int, 12) == 232218265089212416);
            }
            11i64
        },
        29 => {
            proof {
                lemma2_to64();
                lemma2_to64_rest();
                reveal_with_fuel(odd_part, 8);
                reveal_with_fuel(pow, 12);
                assert(pow(29int, 10) == 420707233300201);
                assert(pow(29int, 11) == 12200509765705829);
            }
            10i64
        },
        30 => {
            proof {
                lemma2_to64();
                lemma2_to64_rest();
                reveal_with_fuel(odd_part, 8);
                reveal_with_fuel(pow, 12);
                assert(pow(30int, 10) == 590490000000000);
                assert(pow(30int, 11) == 17714700000000000);
            }
            10i64
        },
        31 => {
            proof {
                lemma2_to64();
                lemma2_to64_rest();
                reveal_with_fuel(odd_part, 8);
                reveal_with_fuel(pow, 12);
                assert(pow(31int, 10) == 819628286980801);
                assert(pow(31int, 11) == 25408476896404831);
            }
            10i64
        },
        32 => {
            proof {
                lemma2_to64();
                lemma2_to64_rest();
                reveal_with_fuel(odd_part, 8);
                assert(odd_part(32) == 1);
                lemma_pow2(5);
                lemma_pow_multiplies(2, 5, 10);
                lemma_pow2(50);
                lemma_pow_multiplies(2, 5, 11);
                lemma_pow2(55);
                lemma_pow2_strictly_increases(50, 53);
                lemma_pow2_strictly_increases(53, 55);
            }
            10i64
        },
        33 => {
            proof {
                lemma2_to64();
                lemma2_to64_rest();
                reveal_with_fuel(odd_part, 8);
                reveal_with_fuel(pow, 12);
                assert(pow(33int, 10) == 1531578985264449);
                assert(pow(33int, 11) == 50542106513726817);
            }
            10i64
        },
        34 => {
            proof {
                lemma2_to64();
                lemma2_to64_rest();
                reveal_with_fuel(odd_part, 8);
                reveal_with_fuel(pow, 12);
                assert(pow(34int, 10) == 2064377754059776);
                assert(pow(34int, 11) == 70188843638032384);
            }
            10i64
        },
        35 => {
            proof {
                lemma2_to64();
                lemma2_to64_rest();
                reveal_with_fuel(odd_part, 8);
                reveal_with_fuel(pow, 12);
                assert(pow(35int, 10) == 2758547353515625);
                assert(pow(35int, 11) == 96549157373046875);
            }
            10i64
        },
        36 => {
            proof {
                lemma2_to64();
                lemma2_to64_rest();
                reveal_with_fuel(odd_part, 8);
                reveal_with_fuel(pow, 12);
                assert(pow(36int, 10) == 3656158440062976);
                assert(pow(36int, 11) == 131621703842267136);
            }
            10i64
        },
        _ => {
            0i64
        },
    }
}

/// The largest exponent `k` such that `radix^k` fits in a 32-bit word.
#[verifier::rlimit(100)]
pub fn u32_power_limit(radix: u32) -> (r: u32)
    ensures
        2 <= radix <= 36 ==> 1 <= r <= 31 && pow_nat(radix as nat, r as nat) <= 0xffff_ffff < pow_nat(radix as nat, (r + 1) as nat),
        !(2 <= radix <= 36) ==> r == 1,
{
    match radix {
        2 => {
            proof {
                lemma2_to64();
                lemma2_to64_rest();
                reveal_with_fuel(odd_part, 8);
                lemma_pow2(1);
                lemma_pow_multiplies(2, 1, 31);
                lemma_pow2(31);
                lemma_pow_multiplies(2, 1, 32);
                lemma_pow2(32);
            }
            31u32
        },
        3 => {
            proof {
                lemma2_to64();
                lemma2_to64_rest();
                reveal_with_fuel(odd_part, 8);
                reveal_with_fuel(pow, 22);
                assert(pow(3int, 20) == 3486784401);
                assert(pow(3int, 21) == 10460353203);
            }
            20u32
        },
        4 => {
            proof {
                lemma2_to64();
                lemma2_to64_rest();
                reveal_with_fuel(odd_part, 8);
                lemma_pow2(2);
                lemma_pow_multiplies(2, 2, 15);
                lemma_pow2(30);
                lemma_pow_multiplies(2, 2, 16);
                lemma_pow2(32);
            }
            15u32
        },
        5 => {
            proof {
                lemma2_to64();
                lemma2_to64_rest();
                reveal_with_fuel(odd_part, 8);
                reveal_with_fuel(pow, 15);
                assert(pow(5int, 13) == 1220703125);
                assert(pow(5int, 14) == 6103515625);
            }
            13u32
        },
        6 => {
            proof {
                lemma2_to64();
                lemma2_to64_rest();
                reveal_with_fuel(odd_part, 8);
                reveal_with_fuel(pow, 14);
                assert(pow(6int, 12) == 2176782336);
                assert(pow(6int, 13) == 13060694016);
            }
            12u32
        },
        7 => {
            proof {
                lemma2_to64();
                lemma2_to64_rest();
                reveal_with_fuel(odd_part, 8);
                reveal_with_fuel(pow, 13);
                assert(pow(7int, 11) == 1977326743);
                assert(pow(7int, 12) == 13841287201);
            }
            11u32
        },
        8 => {
            proof {
                lemma2_to64();
                lemma2_to64_rest();
                reveal_with_fuel(odd_part, 8);
                lemma_pow2(3);
                lemma_pow_multiplies(2, 3, 10);
                lemma_pow2(30);
                lemma_pow_multiplies(2, 3, 11);
                lemma_pow2(33);
            }
            10u32
        },
        9 => {
            proof {
                lemma2_to64();
                lemma2_to64_rest();
                reveal_with_fuel(odd_part, 8);
                reveal_with_fuel(pow, 12);
                assert(pow(9int, 10) == 3486784401);
                assert(pow(9int, 11) == 31381059609);
            }
            10u32
        },
        10 => {
            proof {
                lemma2_to64();
                lemma2_to64_rest();
                reveal_with_fuel(odd_part, 8);
                reveal_with_fuel(pow, 11);
                assert(pow(10int, 9) == 1000000000);
                assert(pow(10int, 10) == 10000000000);
            }
            9u32
        },
        11 => {
            proof {
                lemma2_to64();
                lemma2_to64_rest();
                reveal_with_fuel(odd_part, 8);
                reveal_with_fuel(pow, 11);
                assert(pow(11int, 9) == 2357947691);
                assert(pow(11int, 10) == 25937424601);
            }
            9u32
        },
        12 => {
            proof {
                lemma2_to64();
                lemma2_to64_rest();
                reveal_with_fuel(odd_part, 8);
                reveal_with_fuel(pow, 10);
                assert(pow(12int, 8) == 429981696);
                assert(pow(12int, 9) == 5159780352);
            }
            8u32
        },
        13 => {
            proof {
                lemma2_to64();
                lemma2_to64_rest();
                reveal_with_fuel(odd_part, 8);
                reveal_with_fuel(pow, 10);
                assert(pow(13int, 8) == 815730721);
                assert(pow(13int, 9) == 10604499373);
            }
            8u32
        },
        14 => {
            proof {
                lemma2_to64();
                lemma2_to64_rest();
                reveal_with_fuel(odd_part, 8);
                reveal_with_fuel(pow, 10);
                assert(pow(14int, 8) == 1475789056);
                assert(pow(14int, 9) == 20661046784);
            }
            8u32
        },
        15 => {
            proof {
                lemma2_to64();
                lemma2_to64_rest();
                reveal_with_fuel(odd_part, 8);
                reveal_with_fuel(pow, 10);
                assert(pow(15int, 8) == 2562890625);
                assert(pow(15int, 9) == 38443359375);
            }
            8u32
        },
        16 => {
            proof {
                lemma2_to64();
                lemma2_to64_rest();
                reveal_with_fuel(odd_part, 8);
                lemma_pow2(4);
                lemma_pow_multiplies(2, 4, 7);
                lemma_pow2(28);
                lemma_pow_multiplies(2, 4, 8);
                lemma_pow2(32);
            }
            7u32
        },
        17 => {
            proof {
                lemma2_to64();
                lemma2_to64_rest();
                reveal_with_fuel(odd_part, 8);
                reveal_with_fuel(pow, 9);
                assert(pow(17int, 7) == 410338673);
                assert(pow(17int, 8) == 6975757441);
            }
            7u32
        },
        18 => {
            proof {
                lemma2_to64();
                lemma2_to64_rest();
                reveal_with_fuel(odd_part, 8);
                reveal_with_fuel(pow, 9);
                assert(pow(18int, 7) == 612220032);
                assert(pow(18int, 8) == 11019960576);
            }
            7u32
        },
        19 => {
            proof {
                lemma2_to64();
                lemma2_to64_rest();
                reveal_with_fuel(odd_part, 8);
                reveal_with_fuel(pow, 9);
                assert(pow(19int, 7) == 893871739);
                assert(pow(19int, 8) == 16983563041);
            }
            7u32
        },
        20 => {
            proof {
                lemma2_to64();
                lemma2_to64_rest();
                reveal_with_fuel(odd_part, 8);
                reveal_with_fuel(pow, 9);
                assert(pow(20int, 7) == 1280000000);
                assert(pow(20int, 8) == 25600000000);
            }
            7u32
        },
        21 => {
            proof {
                lemma2_to64();
                lemma2_to64_rest();
                reveal_with_fuel(odd_part, 8);
                reveal_with_fuel(pow, 9);
                assert(pow(21int, 7) == 1801088541);
                assert(pow(21int, 8) == 37822859361);
            }
            7u32
        },
        22 => {
            proof {
                lemma2_to64();
                lemma2_to64_rest();
                reveal_with_fuel(odd_part, 8);
                reveal_with_fuel(pow, 9);
                assert(pow(22int, 7) == 2494357888);
                assert(pow(22int, 8) == 54875873536);
            }
            7u32
        },
        23 => {
            proof {
                lemma2_to64();
                lemma2_to64_rest();
                reveal_with_fuel(odd_part, 8);
                reveal_with_fuel(pow, 9);
                assert(pow(23int, 7) == 3404825447);
                assert(pow(23int, 8) == 78310985281);
            }
            7u32
        },
        24 => {
            proof {
                lemma2_to64();
                lemma2_to64_rest();
                reveal_with_fuel(odd_part, 8);
                reveal_with_fuel(pow, 8);
                assert(pow(24int, 6) == 191102976);
                assert(pow(24int, 7) == 4586471424);
            }
            6u32
        },
        25 => {
            proof {
                lemma2_to64();
                lemma2_to64_rest();
                reveal_with_fuel(odd_part, 8);
                reveal_with_fuel(pow, 8);
                assert(pow(25int, 6) == 244140625);
                assert(pow(25int, 7) == 6103515625);
            }
            6u32
        },
        26 => {
            proof {
                lemma2_to64();
                lemma2_to64_rest();
                reveal_with_fuel(odd_part, 8);
                reveal_with_fuel(pow, 8);
                assert(pow(26int, 6) == 308915776);
                assert(pow(26int, 7) == 8031810176);
            }
            6u32
        },
        27 => {
            proof {
                lemma2_to64();
                lemma2_to64_rest();
                reveal_with_fuel(odd_part, 8);
                reveal_with_fuel(pow, 8);
                assert(pow(27int, 6) == 387420489);
                assert(pow(27int, 7) == 10460353203);
            }
            6u32
        },
        28 => {
            proof {
                lemma2_to64();
                lemma2_to64_rest();
                reveal_with_fuel(odd_part, 8);
                reveal_with_fuel(pow, 8);
                assert(pow(28int, 6) == 481890304);
                assert(pow(28int, 7) == 13492928512);
            }
            6u32
        },
        29 => {
            proof {
                lemma2_to64();
                lemma2_to64_rest();
                reveal_with_fuel(odd_part, 8);
                reveal_with_fuel(pow, 8);
                assert(pow(29int, 6) == 594823321);
                assert(pow(29int, 7) == 17249876309);
            }
            6u32
        },
        30 => {
            proof {
                lemma2_to64();
                lemma2_to64_rest();
                reveal_with_fuel(odd_part, 8);
                reveal_with_fuel(pow, 8);
                assert(pow(30int, 6) == 729000000);
                assert(pow(30int, 7) == 21870000000);
            }
            6u32
        },
        31 => {
            proof {
                lemma2_to64();
                lemma2_to64_rest();
                reveal_with_fuel(odd_part, 8);
                reveal_with_fuel(pow, 8);
                assert(pow(31int, 6) == 887503681);
                assert(pow(31int, 7) == 27512614111);
            }
            6u32
        },
        32 => {
            proof {
                lemma2_to64();
                lemma2_to64_rest();
                reveal_with_fuel(odd_part, 8);
                lemma_pow2(5);
                lemma_pow_multiplies(2, 5, 6);
                lemma_pow2(30);
                lemma_pow_multiplies(2, 5, 7);
                lemma_pow2(35);
            }
            6u32
        },
        33 => {
            proof {
                lemma2_to64();
                lemma2_to64_rest();
                reveal_with_fuel(odd_part, 8);
                reveal_with_fuel(pow, 8);
                assert(pow(33int, 6) == 1291467969);
                assert(pow(33int, 7) == 42618442977);
            }
            6u32
        },
        34 => {
            proof {
                lemma2_to64();
                lemma2_to64_rest();
                reveal_with_fuel(odd_part, 8);
                reveal_with_fuel(pow, 8);
                assert(pow(34int, 6) == 1544804416);
                assert(pow(34int, 7) == 52523350144);
            }
            6u32
        },
        35 => {
            proof {
                lemma2_to64();
                lemma2_to64_rest();
                reveal_with_fuel(odd_part, 8);
                reveal_with_fuel(pow, 8);
                assert(pow(35int, 6) == 1838265625);
                assert(pow(35int, 7) == 64339296875);
            }
            6u32
        },
        36 => {
            proof {
                lemma2_to64();
                lemma2_to64_rest();
                reveal_with_fuel(odd_part, 8);
                reveal_with_fuel(pow, 8);
                assert(pow(36int, 6) == 2176782336);
                assert(pow(36int, 7) == 78364164096);
            }
            6u32
        },
        _ => {
            1u32
        },
    }
}

/// The largest exponent `k` such that `radix^k` fits in a 64-bit word.
#[verifier::rlimit(100)]
pub fn u64_power_limit(radix: u32) -> (r: u32)
    ensures
        2 <= radix <= 36 ==> 1 <= r <= 63 && pow_nat(radix as nat, r as nat) <= 0xffff_ffff_ffff_ffff < pow_nat(radix as nat, (r + 1) as nat),
        !(2 <= radix <= 36) ==> r == 1,
{
    match radix {
        2 => {
            proof {
                lemma2_to64();
                lemma2_to64_rest();
                reveal_with_fuel(odd_part, 8);
                lemma_pow2(1);
                lemma_pow_multiplies(2, 1, 63);
                lemma_pow2(63);
                lemma_pow_multiplies(2, 1, 64);
                lemma_pow2(64);
            }
            63u32
        },
        3 => {
            proof {
                lemma2_to64();
                lemma2_to64_rest();
                reveal_with_fuel(odd_part, 8);
                reveal_with_fuel(pow, 42);
                assert(pow(3int, 40) == 12157665459056928801);
                assert(pow(3int, 41) == 36472996377170786403);
            }
            40u32
        },
        4 => {
            proof {
                lemma2_to64();
                lemma2_to64_rest();
                reveal_with_fuel(odd_part, 8);
                lemma_pow2(2);
                lemma_pow_multiplies(2, 2, 31);
                lemma_pow2(62);
                lemma_pow_multiplies(2, 2, 32);
                lemma_pow2(64);
            }
            31u32
        },
        5 => {
            proof {
                lemma2_to64();
                lemma2_to64_rest();
                reveal_with_fuel(odd_part, 8);
                reveal_with_fuel(pow, 29);
                assert(pow(5int, 27) == 7450580596923828125);
                assert(pow(5int, 28) == 37252902984619140625);
            }
            27u32
        },
        6 => {
            proof {
                lemma2_to64();
                lemma2_to64_rest();
                reveal_with_fuel(odd_part, 8);
                reveal_with_fuel(pow, 26);
                assert(pow(6int, 24) == 4738381338321616896);
                assert(pow(6int, 25) == 28430288029929701376);
            }
            24u32
        },
        7 => {
            proof {
                lemma2_to64();
                lemma2_to64_rest();
                reveal_with_fuel(odd_part, 8);
                reveal_with_fuel(pow, 24);
                assert(pow(7int, 22) == 3909821048582988049);
                assert(pow(7int, 23) == 27368747340080916343);
            }
            22u32
        },
        8 => {
            proof {
                lemma2_to64();
                lemma2_to64_rest();
                reveal_with_fuel(odd_part, 8);
                lemma_pow2(3);
                lemma_pow_multiplies(2, 3, 21);
                lemma_pow2(63);
                lemma_pow_multiplies(2, 3, 22);
                lemma_pow2(66);
                lemma_pow2_strictly_increases(64, 66);
            }
            21u32
        },
        9 => {
            proof {
                lemma2_to64();
                lemma2_to64_rest();
                reveal_with_fuel(odd_part, 8);
                reveal_with_fuel(pow, 22);
                assert(pow(9int, 20) == 12157665459056928801);
                assert(pow(9int, 21) == 109418989131512359209);
            }
            20u32
        },
        10 => {
            proof {
                lemma2_to64();
                lemma2_to64_rest();
                reveal_with_fuel(odd_part, 8);
                reveal_with_fuel(pow, 21);
                assert(pow(10int, 19) == 10000000000000000000);
                assert(pow(10int, 20) == 100000000000000000000);
            }
            19u32
        },
        11 => {
            proof {
                lemma2_to64();
                lemma2_to64_rest();
                reveal_with_fuel(odd_part, 8);
                reveal_with_fuel(pow, 20);
                assert(pow(11int, 18) == 5559917313492231481);
                assert(pow(11int, 19) == 61159090448414546291);
            }
            18u32
        },
        12 => {
            proof {
                lemma2_to64();
                lemma2_to64_rest();
                reveal_with_fuel(odd_part, 8);
                reveal_with_fuel(pow, 19);
                assert(pow(12int, 17) == 2218611106740436992);
                assert(pow(12int, 18) == 26623333280885243904);
            }
            17u32
        },
        13 => {
            proof {
                lemma2_to64();
                lemma2_to64_rest();
                reveal_with_fuel(odd_part, 8);
                reveal_with_fuel(pow, 19);
                assert(pow(13int, 17) == 8650415919381337933);
                assert(pow(13int, 18) == 112455406951957393129);
            }
            17u32
        },
        14 => {
            proof {
                lemma2_to64();
                lemma2_to64_rest();
                reveal_with_fuel(odd_part, 8);
                reveal_with_fuel(pow, 18);
                assert(pow(14int, 16) == 2177953337809371136);
                assert(pow(14int, 17) == 30491346729331195904);
            }
            16u32
        },
        15 => {
            proof {
                lemma2_to64();
                lemma2_to64_rest();
                reveal_with_fuel(odd_part, 8);
                reveal_with_fuel(pow, 18);
                assert(pow(15int, 16) == 6568408355712890625);
                assert(pow(15int, 17) == 98526125335693359375);
            }
            16u32
        },
        16 => {
            proof {
                lemma2_to64();
                lemma2_to64_rest();
                reveal_with_fuel(odd_part, 8);
                lemma_pow2(4);
                lemma_pow_multiplies(2, 4, 15);
                lemma_pow2(60);
                lemma_pow_multiplies(2, 4, 16);
                lemma_pow2(64);
            }
            15u32
        },
        17 => {
            proof {
                lemma2_to64();
                lemma2_to64_rest();
                reveal_with_fuel(odd_part, 8);
                reveal_with_fuel(pow, 17);
                assert(pow(17int, 15) == 2862423051509815793);
                assert(pow(17int, 16) == 48661191875666868481);
            }
            15u32
        },
        18 => {
            proof {
                lemma2_to64();
                lemma2_to64_rest();
                reveal_with_fuel(odd_part, 8);
                reveal_with_fuel(pow, 17);
                assert(pow(18int, 15) == 6746640616477458432);
                assert(pow(18int, 16) == 121439531096594251776);
            }
            15u32
        },
        19 => {
            proof {
                lemma2_to64();
                lemma2_to64_rest();
                reveal_with_fuel(odd_part, 8);
                reveal_with_fuel(pow, 17);
                assert(pow(19int, 15) == 15181127029874798299);
                assert(pow(19int, 16) == 288441413567621167681);
            }
            15u32
        },
        20 => {
            proof {
                lemma2_to64();
                lemma2_to64_rest();
                reveal_with_fuel(odd_part, 8);
                reveal_with_fuel(pow, 16);
                assert(pow(20int, 14) == 1638400000000000000);
                assert(pow(20int, 15) == 32768000000000000000);
            }
            14u32
        },
        21 => {
            proof {
                lemma2_to64();
                lemma2_to64_rest();
                reveal_with_fuel(odd_part, 8);
                reveal_with_fuel(pow, 16);
                assert(pow(21int, 14) == 3243919932521508681);
                assert(pow(21int, 15) == 68122318582951682301);
            }
            14u32
        },
        22 => {
            proof {
                lemma2_to64();
                lemma2_to64_rest();
                reveal_with_fuel(odd_part, 8);
                reveal_with_fuel(pow, 16);
                assert(pow(22int, 14) == 6221821273427820544);
                assert(pow(22int, 15) == 136880068015412051968);
            }
            14u32
        },
        23 => {
            proof {
                lemma2_to64();
                lemma2_to64_rest();
                reveal_with_fuel(odd_part, 8);
                reveal_with_fuel(pow, 16);
                assert(pow(23int, 14) == 11592836324538749809);
                assert(pow(23int, 15) == 266635235464391245607);
            }
            14u32
        },
        24 => {
            proof {
                lemma2_to64();
                lemma2_to64_rest();
                reveal_with_fuel(odd_part, 8);
                reveal_with_fuel(pow, 15);
                assert(pow(24int, 13) == 876488338465357824);
                assert(pow(24int, 14) == 21035720123168587776);
            }
            13u32
        },
        25 => {
            proof {
                lemma2_to64();
                lemma2_to64_rest();
                reveal_with_fuel(odd_part, 8);
                reveal_with_fuel(pow, 15);
                assert(pow(25int, 13) == 1490116119384765625);
                assert(pow(25int, 14) == 37252902984619140625);
            }
            13u32
        },
        26 => {
            proof {
                lemma2_to64();
                lemma2_to64_rest();
                reveal_with_fuel(odd_part, 8);
                reveal_with_fuel(pow, 15);
                assert(pow(26int, 13) == 2481152873203736576);
                assert(pow(26int, 14) == 64509974703297150976);
            }
            13u32
        },
        27 => {
            proof {
                lemma2_to64();
                lemma2_to64_rest();
                reveal_with_fuel(odd_part, 8);
                reveal_with_fuel(pow, 15);
                assert(pow(27int, 13) == 4052555153018976267);
                assert(pow(27int, 14) == 109418989131512359209);
            }
            13u32
        },
        28 => {
            proof {
                lemma2_to64();
                lemma2_to64_rest();
                reveal_with_fuel(odd_part, 8);
                reveal_with_fuel(pow, 15);
                assert(pow(28int, 13) == 6502111422497947648);
                assert(pow(28int, 14) == 182059119829942534144);
            }
            13u32
        },
        29 => {
            proof {
                lemma2_to64();
                lemma2_to64_rest();
                reveal_with_fuel(odd_part, 8);
                reveal_with_fuel(pow, 15);
                assert(pow(29int, 13) == 10260628712958602189);
                assert(pow(29int, 14) == 297558232675799463481);
            }
            13u32
        },
        30 => {
            proof {
                lemma2_to64();
                lemma2_to64_rest();
                reveal_with_fuel(odd_part, 8);
                reveal_with_fuel(pow, 15);
                assert(pow(30int, 13) == 15943230000000000000);
                assert(pow(30int, 14) == 478296900000000000000);
            }
            13u32
        },
        31 => {
            proof {
                lemma2_to64();
                lemma2_to64_rest();
                reveal_with_fuel(odd_part, 8);
                reveal_with_fuel(pow, 14);
                assert(pow(31int, 12) == 787662783788549761);
                assert(pow(31int, 13) == 24417546297445042591);
            }
            12u32
        },
        32 => {
            proof {
                lemma2_to64();
                lemma2_to64_rest();
                reveal_with_fuel(odd_part, 8);
                lemma_pow2(5);
                lemma_pow_multiplies(2, 5, 12);
                lemma_pow2(60);
                lemma_pow_multiplies(2, 5, 13);
                lemma_pow2(65);
                lemma_pow2_strictly_increases(64, 65);
            }
            12u32
        },
        33 => {
            proof {
                lemma2_to64();
                lemma2_to64_rest();
                reveal_with_fuel(odd_part, 8);
                reveal_with_fuel(pow, 14);
                assert(pow(33int, 12) == 1667889514952984961);
                assert(pow(33int, 13) == 55040353993448503713);
            }
            12u32
        },
        34 => {
            proof {
                lemma2_to64();
                lemma2_to64_rest();
                reveal_with_fuel(odd_part, 8);
                reveal_with_fuel(pow, 14);
                assert(pow(34int, 12) == 2386420683693101056);
                assert(pow(34int, 13) == 81138303245565435904);
            }
            12u32
        },
        35 => {
            proof {
                lemma2_to64();
                lemma2_to64_rest();
                reveal_with_fuel(odd_part, 8);
                reveal_with_fuel(pow, 14);
                assert(pow(35int, 12) == 3379220508056640625);
                assert(pow(35int, 13) == 118272717781982421875);
            }
            12u32
        },
        36 => {
            proof {
                lemma2_to64();
                lemma2_to64_rest();
                reveal_with_fuel(odd_part, 8);
                reveal_with_fuel(pow, 14);
                assert(pow(36int, 12) == 4738381338321616896);
                assert(pow(36int, 13) == 170581728179578208256);
            }
            12u32
        },
        _ => {
            1u32
        },
    }
}

/// The `f32` digit budget as a value, fixing each table entry.
pub open spec fn f32_max_digits_spec(radix: u32) -> Option<usize> {
    if radix == 6 {
        Some(103usize)
    } else if radix == 10 {
        Some(114usize)
    } else if radix == 12 {
        Some(117usize)
    } else if radix == 14 {
        Some(119usize)
    } else if radix == 18 {
        Some(122usize)
    } else if radix == 20 {
        Some(123usize)
    } else if radix == 22 {
        Some(123usize)
    } else if radix == 24 {
        Some(124usize)
    } else if radix == 26 {
        Some(125usize)
    } else if radix == 28 {
        Some(125usize)
    } else if radix == 30 {
        Some(126usize)
    } else if radix == 34 {
        Some(127usize)
    } else if radix == 36 {
        Some(127usize)
    } else {
        None
    }
}

/// The `f64` digit budget as a value, fixing each table entry.
pub open spec fn f64_max_digits_spec(radix: u32) -> Option<usize> {
    if radix == 6 {
        Some(682usize)
    } else if radix == 10 {
        Some(769usize)
    } else if radix == 12 {
        Some(792usize)
    } else if radix == 14 {
        Some(808usize)
    } else if radix == 18 {
        Some(832usize)
    } else if radix == 20 {
        Some(840usize)
    } else if radix == 22 {
        Some(848usize)
    } else if radix == 24 {
        Some(854usize)
    } else if radix == 26 {
        Some(859usize)
    } else if radix == 28 {
        Some(864usize)
    } else if radix == 30 {
        Some(868usize)
    } else if radix == 34 {
        Some(876usize)
    } else if radix == 36 {
        Some(879usize)
    } else {
        None
    }
}

/// For radixes with both even and odd prime factors, a digit count that
/// always suffices to decide the rounding of a `f32` (the maximum
/// number of meaningful significant digits, plus one).  Powers of two
/// resolve exactly, and odd radixes admit inputs whose exact
/// representation needs unboundedly many digits, so both get nothing.
#[verifier::rlimit(100)]
pub fn f32_max_digits(radix: u32) -> (r: Option<usize>)
    ensures
        2 <= radix <= 36 ==> ((r is Some) <==> (radix % 2 == 0 && odd_part(radix as nat) != 1)),
        r matches Some(d) ==> 103 <= d <= 127,
        r == f32_max_digits_spec(radix),
        !(2 <= radix <= 36) ==> r is None,
{
    match radix {
        6 => {
            proof {
                lemma2_to64();
                lemma2_to64_rest();
                reveal_with_fuel(odd_part, 8);
                assert(odd_part(6) == 3);
            }
            Some(103usize)
        },
        10 => {
            proof {
                lemma2_to64();
                lemma2_to64_rest();
                reveal_with_fuel(odd_part, 8);
                assert(odd_part(10) == 5);
            }
            Some(114usize)
        },
        12 => {
            proof {
                lemma2_to64();
                lemma2_to64_rest();
                reveal_with_fuel(odd_part, 8);
                assert(odd_part(12) == 3);
            }
            Some(117usize)
        },
        14 => {
            proof {
                lemma2_to64();
                lemma2_to64_rest();
                reveal_with_fuel(odd_part, 8);
                assert(odd_part(14) == 7);
            }
            Some(119usize)
        },
        18 => {
            proof {
                lemma2_to64();
                lemma2_to64_rest();
                reveal_with_fuel(odd_part, 8);
                assert(odd_part(18) == 9);
            }
            Some(122usize)
        },
        20 => {
            proof {
                lemma2_to64();
                lemma2_to64_rest();
                reveal_with_fuel(odd_part, 8);
                assert(odd_part(20) == 5);
            }
            Some(123usize)
        },
        22 => {
            proof {
                lemma2_to64();
                lemma2_to64_rest();
                reveal_with_fuel(odd_part, 8);
                assert(odd_part(22) == 11);
            }
            Some(123usize)
        },
        24 => {
            proof {
                lemma2_to64();
                lemma2_to64_rest();
                reveal_with_fuel(odd_part, 8);
                assert(odd_part(24) == 3);
            }
            Some(124usize)
        },
        26 => {
            proof {
                lemma2_to64();
                lemma2_to64_rest();
                reveal_with_fuel(odd_part, 8);
                assert(odd_part(26) == 13);
            }
            Some(125usize)
        },
        28 => {
            proof {
                lemma2_to64();
                lemma2_to64_rest();
                reveal_with_fuel(odd_part, 8);
                assert(odd_part(28) == 7);
            }
            Some(125usize)
        },
        30 => {
            proof {
                lemma2_to64();
                lemma2_to64_rest();
                reveal_with_fuel(odd_part, 8);
                assert(odd_part(30) == 15);
            }
            Some(126usize)
        },
        34 => {
            proof {
                lemma2_to64();
                lemma2_to64_rest();
                reveal_with_fuel(odd_part, 8);
                assert(odd_part(34) == 17);
            }
            Some(127usize)
        },
        36 => {
            proof {
                lemma2_to64();
                lemma2_to64_rest();
                reveal_with_fuel(odd_part, 8);
                assert(odd_part(36) == 9);
            }
            Some(127usize)
        },
        _ => {
            proof {
                lemma2_to64();
                lemma2_to64_rest();
                reveal_with_fuel(odd_part, 8);
                assert(radix == 2 ==> odd_part(radix as nat) == 1);
                assert(radix == 3 ==> odd_part(radix as nat) == 3);
                assert(radix == 4 ==> odd_part(radix as nat) == 1);
                assert(radix == 5 ==> odd_part(radix as nat) == 5);
                assert(radix == 7 ==> odd_part(radix as nat) == 7);
                assert(radix == 8 ==> odd_part(radix as nat) == 1);
                assert(radix == 9 ==> odd_part(radix as nat) == 9);
                assert(radix == 11 ==> odd_part(radix as nat) == 11);
                assert(radix == 13 ==> odd_part(radix as nat) == 13);
                assert(radix == 15 ==> odd_part(radix as nat) == 15);
                assert(radix == 16 ==> odd_part(radix as nat) == 1);
                assert(radix == 17 ==> odd_part(radix as nat) == 17);
                assert(radix == 19 ==> odd_part(radix as nat) == 19);
                assert(radix == 21 ==> odd_part(radix as nat) == 21);
                assert(radix == 23 ==> odd_part(radix as nat) == 23);
                assert(radix == 25 ==> odd_part(radix as nat) == 25);
                assert(radix == 27 ==> odd_part(radix as nat) == 27);
                assert(radix == 29 ==> odd_part(radix as nat) == 29);
                assert(radix == 31 ==> odd_part(radix as nat) == 31);
                assert(radix == 32 ==> odd_part(radix as nat) == 1);
                assert(radix == 33 ==> odd_part(radix as nat) == 33);
                assert(radix == 35 ==> odd_part(radix as nat) == 35);
            }
            None
        },
    }
}

/// For radixes with both even and odd prime factors, a digit count that
/// always suffices to decide the rounding of a `f64` (the maximum
/// number of meaningful significant digits, plus one).  Powers of two
/// resolve exactly, and odd radixes admit inputs whose exact
/// representation needs unboundedly many digits, so both get nothing.
#[verifier::rlimit(100)]
pub fn f64_max_digits(radix: u32) -> (r: Option<usize>)
    ensures
        2 <= radix <= 36 ==> ((r is Some) <==> (radix % 2 == 0 && odd_part(radix as nat) != 1)),
        r matches Some(d) ==> 682 <= d <= 879,
        r == f64_max_digits_spec(radix),
        !(2 <= radix <= 36) ==> r is None,
{
    match radix {
        6 => {
            proof {
                lemma2_to64();
                lemma2_to64_rest();
                reveal_with_fuel(odd_part, 8);
                assert(odd_part(6) == 3);
            }
            Some(682usize)
        },
        10 => {
            proof {
                lemma2_to64();
                lemma2_to64_rest();
                reveal_with_fuel(odd_part, 8);
                assert(odd_part(10) == 5);
            }
            Some(769usize)
        },
        12 => {
            proof {
                lemma2_to64();
                lemma2_to64_rest();
                reveal_with_fuel(odd_part, 8);
                assert(odd_part(12) == 3);
            }
            Some(792usize)
        },
        14 => {
            proof {
                lemma2_to64();
                lemma2_to64_rest();
                reveal_with_fuel(odd_part, 8);
                assert(odd_part(14) == 7);
            }
            Some(808usize)
        },
        18 => {
            proof {
                lemma2_to64();
                lemma2_to64_rest();
                reveal_with_fuel(odd_part, 8);
                assert(odd_part(18) == 9);
            }
            Some(832usize)
        },
        20 => {
            proof {
                lemma2_to64();
                lemma2_to64_rest();
                reveal_with_fuel(odd_part, 8);
                assert(odd_part(20) == 5);
            }
            Some(840usize)
        },
        22 => {
            proof {
                lemma2_to64();
                lemma2_to64_rest();
                reveal_with_fuel(odd_part, 8);
                assert(odd_part(22) == 11);
            }
            Some(848usize)
        },
        24 => {
            proof {
                lemma2_to64();
                lemma2_to64_rest();
                reveal_with_fuel(odd_part, 8);
                assert(odd_part(24) == 3);
            }
            Some(854usize)
        },
        26 => {
            proof {
                lemma2_to64();
                lemma2_to64_rest();
                reveal_with_fuel(odd_part, 8);
                assert(odd_part(26) == 13);
            }
            Some(859usize)
        },
        28 => {
            proof {
                lemma2_to64();
                lemma2_to64_rest();
                reveal_with_fuel(odd_part, 8);
                assert(odd_part(28) == 7);
            }
            Some(864usize)
        },
        30 => {
            proof {
                lemma2_to64();
                lemma2_to64_rest();
                reveal_with_fuel(odd_part, 8);
                assert(odd_part(30) == 15);
            }
            Some(868usize)
        },
        34 => {
            proof {
                lemma2_to64();
                lemma2_to64_rest();
                reveal_with_fuel(odd_part, 8);
                assert(odd_part(34) == 17);
            }
            Some(876usize)
        },
        36 => {
            proof {
                lemma2_to64();
                lemma2_to64_rest();
                reveal_with_fuel(odd_part, 8);
                assert(odd_part(36) == 9);
            }
            Some(879usize)
        },
        _ => {
            proof {
                lemma2_to64();
                lemma2_to64_rest();
                reveal_with_fuel(odd_part, 8);
                assert(radix == 2 ==> odd_part(radix as nat) == 1);
                assert(radix == 3 ==> odd_part(radix as nat) == 3);
                assert(radix == 4 ==> odd_part(radix as nat) == 1);
                assert(radix == 5 ==> odd_part(radix as nat) == 5);
                assert(radix == 7 ==> odd_part(radix as nat) == 7);
                assert(radix == 8 ==> odd_part(radix as nat) == 1);
                assert(radix == 9 ==> odd_part(radix as nat) == 9);
                assert(radix == 11 ==> odd_part(radix as nat) == 11);
                assert(radix == 13 ==> odd_part(radix as nat) == 13);
                assert(radix == 15 ==> odd_part(radix as nat) == 15);
                assert(radix == 16 ==> odd_part(radix as nat) == 1);
                assert(radix == 17 ==> odd_part(radix as nat) == 17);
                assert(radix == 19 ==> odd_part(radix as nat) == 19);
                assert(radix == 21 ==> odd_part(radix as nat) == 21);
                assert(radix == 23 ==> odd_part(radix as nat) == 23);
                assert(radix == 25 ==> odd_part(radix as nat) == 25);
                assert(radix == 27 ==> odd_part(radix as nat) == 27);
                assert(radix == 29 ==> odd_part(radix as nat) == 29);
                assert(radix == 31 ==> odd_part(radix as nat) == 31);
                assert(radix == 32 ==> odd_part(radix as nat) == 1);
                assert(radix == 33 ==> odd_part(radix as nat) == 33);
                assert(radix == 35 ==> odd_part(radix as nat) == 35);
            }
            None
        },
    }
}

} // verus!
