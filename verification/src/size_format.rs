//! Human-readable sizes ("1.50KB").
//!
//! The size is computed the way `f64` arithmetic computes it, but with
//! exact integers: the byte count is first rounded to the nearest value a
//! `f64` can hold (53 significant bits, ties to even), divided by a power of
//! 1024 (exact for a `f64`), and printed with two decimals rounded half to
//! even, which is how `format!("{:.2}", x)` prints the exact value of `x`.

use vstd::prelude::*;
use vstd::arithmetic::div_mod::{lemma_div_denominator, lemma_fundamental_div_mod};
use crate::text::{chars_eq, from_chars, to_chars, to_uppercase, unicode_uppercase};

verus! {

pub open spec fn pow2(e: nat) -> nat
    decreases e,
{
    if e == 0 {
        1
    } else {
        2 * pow2((e - 1) as nat)
    }
}

/// 2^53, the first integer past which a `f64` cannot hold every integer.
pub open spec fn two_pow_53() -> nat {
    9007199254740992
}

/// How many low bits an integer loses in a `f64`: the number of halvings
/// that bring it below 2^53.
pub open spec fn dropped_bits(b: nat) -> nat
    decreases b,
{
    if b < two_pow_53() {
        0
    } else {
        1 + dropped_bits(b / 2)
    }
}

/// The value of `b as f64`: `b` rounded to a multiple of 2^dropped_bits,
/// to the nearest one, ties to the even multiple.
pub open spec fn as_f64(b: nat) -> nat {
    let p = pow2(dropped_bits(b));
    let q = b / p;
    let r = b % p;
    if r * 2 > p || (r * 2 == p && q % 2 == 1) {
        (q + 1) * p
    } else {
        q * p
    }
}

/// 1024^k.
pub open spec fn kib_pow(k: nat) -> nat
    decreases k,
{
    if k == 0 {
        1
    } else {
        1024 * kib_pow((k - 1) as nat)
    }
}

/// The unit picked automatically: the largest k <= 4 with 1024^k <= m.
pub open spec fn auto_unit(m: nat) -> nat {
    if m >= kib_pow(4) {
        4
    } else if m >= kib_pow(3) {
        3
    } else if m >= kib_pow(2) {
        2
    } else if m >= kib_pow(1) {
        1
    } else {
        0
    }
}

/// n / d rounded to the nearest integer, ties to the even one.
pub open spec fn round_half_even(n: nat, d: nat) -> nat {
    let q = n / d;
    let r = n % d;
    if 2 * r > d || (2 * r == d && q % 2 == 1) {
        q + 1
    } else {
        q
    }
}

pub open spec fn digits() -> Seq<char> {
    seq!['0', '1', '2', '3', '4', '5', '6', '7', '8', '9']
}

/// The decimal digits of n, without leading zeros ("0" for zero).
pub open spec fn decimal(n: nat) -> Seq<char>
    decreases n,
{
    if n < 10 {
        seq![digits()[n as int]]
    } else {
        decimal(n / 10).push(digits()[(n % 10) as int])
    }
}

/// A number of hundredths printed with two decimals.
pub open spec fn fixed_two(h: nat) -> Seq<char> {
    decimal(h / 100) + seq!['.', digits()[((h % 100) / 10) as int], digits()[(h % 10) as int]]
}

pub open spec fn unit_name(k: nat) -> Seq<char> {
    if k == 0 {
        seq!['B']
    } else if k == 1 {
        seq!['K', 'B']
    } else if k == 2 {
        seq!['M', 'B']
    } else if k == 3 {
        seq!['G', 'B']
    } else {
        seq!['T', 'B']
    }
}

/// The index of a unit name among B, KB, MB, GB, TB.
pub open spec fn unit_position(u: Seq<char>) -> Option<nat> {
    if u == unit_name(0) {
        Some(0)
    } else if u == unit_name(1) {
        Some(1)
    } else if u == unit_name(2) {
        Some(2)
    } else if u == unit_name(3) {
        Some(3)
    } else if u == unit_name(4) {
        Some(4)
    } else {
        None
    }
}

/// The unit `format_file_size` uses.
pub open spec fn chosen_unit(bytes: nat, unit: Option<Seq<char>>) -> nat {
    match unit {
        Some(u) => match unit_position(unicode_uppercase(u)) {
            Some(k) => k,
            None => auto_unit(as_f64(bytes)),
        },
        None => auto_unit(as_f64(bytes)),
    }
}

/// The text `format_file_size` returns.
pub open spec fn formatted_size(bytes: nat, unit: Option<Seq<char>>) -> Seq<char> {
    let k = chosen_unit(bytes, unit);
    fixed_two(round_half_even(as_f64(bytes) * 100, kib_pow(k))) + unit_name(k)
}

proof fn lemma_pow2_pos(e: nat)
    ensures
        pow2(e) >= 1,
    decreases e,
{
    if e > 0 {
        lemma_pow2_pos((e - 1) as nat);
    }
}

/// `b as f64`, exactly.
fn f64_value(b: u64) -> (r: u128)
    ensures
        r == as_f64(b as nat),
        r <= 18446744073709551615 + 4096,
{
    let mut x: u128 = b as u128;
    let mut p: u128 = 1;
    let ghost mut e: nat = 0;
    assert(x == (b as nat) / pow2(0));
    while x >= 9007199254740992
        invariant
            p == pow2(e),
            1 <= p <= 4096,
            x == (b as nat) / (p as nat),
            dropped_bits(b as nat) == e + dropped_bits(x as nat),
            (p as nat) * (x as nat) <= b as nat,
            b <= 18446744073709551615,
        decreases x,
    {
        proof {
            lemma_div_denominator(b as int, p as int, 2);
            assert(p <= 2047) by (nonlinear_arith)
                requires
                    x >= 9007199254740992,
                    (p as nat) * (x as nat) <= b as nat,
                    b <= 18446744073709551615,
            ;
            assert((p as nat) * 2 * ((x / 2) as nat) <= (p as nat) * (x as nat)) by (
            nonlinear_arith)
                requires
                    (x / 2) * 2 <= x,
                    p >= 1,
            ;
        }
        x = x / 2;
        p = p * 2;
        proof {
            e = e + 1;
        }
    }
    proof {
        lemma_fundamental_div_mod(b as int, p as int);
        assert((p as nat) * (x as nat) == (x as nat) * (p as nat)) by (nonlinear_arith);
        assert(((x + 1) as nat) * (p as nat) <= 9007199254740992 * 4096) by (nonlinear_arith)
            requires
                x < 9007199254740992,
                p <= 4096,
        ;
        assert(((x + 1) as nat) * (p as nat) == (x as nat) * (p as nat) + (p as nat)) by (
        nonlinear_arith);
    }
    let q = x;
    let r = (b as u128) - p * q;
    assert(r == (b as nat) % (p as nat));
    let out = if r * 2 > p || (r * 2 == p && q % 2 == 1) {
        (q + 1) * p
    } else {
        q * p
    };
    out
}

fn digit_char(d: u128) -> (c: char)
    requires
        d < 10,
    ensures
        c == digits()[d as int],
{
    let t = ['0', '1', '2', '3', '4', '5', '6', '7', '8', '9'];
    assert(t@ =~= digits());
    t[d as usize]
}

pub(crate) fn decimal_exec(n: u128) -> (r: Vec<char>)
    ensures
        r@ == decimal(n as nat),
    decreases n,
{
    if n < 10 {
        let mut v: Vec<char> = Vec::new();
        v.push(digit_char(n));
        assert(v@ =~= seq![digits()[n as int]]);
        v
    } else {
        let mut v = decimal_exec(n / 10);
        v.push(digit_char(n % 10));
        v
    }
}

fn unit_name_exec(k: usize) -> (r: Vec<char>)
    requires
        k <= 4,
    ensures
        r@ == unit_name(k as nat),
{
    let r = if k == 0 {
        vec!['B']
    } else if k == 1 {
        vec!['K', 'B']
    } else if k == 2 {
        vec!['M', 'B']
    } else if k == 3 {
        vec!['G', 'B']
    } else {
        vec!['T', 'B']
    };
    assert(r@ =~= unit_name(k as nat));
    r
}

fn unit_position_exec(u: &[char]) -> (r: Option<usize>)
    ensures
        match r {
            Some(k) => unit_position(u@) == Some(k as nat) && k <= 4,
            None => unit_position(u@) is None,
        },
{
    let mut k: usize = 0;
    while k < 5
        invariant
            k <= 5,
            forall|j: nat| j < k ==> u@ != unit_name(j),
        decreases 5 - k,
    {
        let name = unit_name_exec(k);
        if chars_eq(u, name.as_slice()) {
            return Some(k);
        }
        k = k + 1;
    }
    None
}

/// A byte count as text with two decimals and a unit among B, KB, MB, GB,
/// TB. A `unit` naming one of these (in any case) fixes the unit; otherwise
/// the largest unit not above the size is used.
pub fn format_file_size(bytes: u64, unit: Option<&str>) -> (r: String)
    ensures
        r@ == formatted_size(bytes as nat, match unit {
            Some(u) => Some(u@),
            None => None,
        }),
{
    let m = f64_value(bytes);
    let requested: Option<usize> = match unit {
        Some(u) => {
            let up = to_uppercase(u);
            let uc = to_chars(up.as_str());
            unit_position_exec(uc.as_slice())
        },
        None => None,
    };
    let k: usize = match requested {
        Some(k) => k,
        None => {
            if m >= 1099511627776 {
                4
            } else if m >= 1073741824 {
                3
            } else if m >= 1048576 {
                2
            } else if m >= 1024 {
                1
            } else {
                0
            }
        },
    };
    proof {
        reveal_with_fuel(kib_pow, 5);
    }
    let d: u128 = if k == 0 {
        1
    } else if k == 1 {
        1024
    } else if k == 2 {
        1048576
    } else if k == 3 {
        1073741824
    } else {
        1099511627776
    };
    assert(d == kib_pow(k as nat));
    let n = m * 100;
    let q = n / d;
    let rem = n % d;
    let h = if 2 * rem > d || (2 * rem == d && q % 2 == 1) {
        q + 1
    } else {
        q
    };
    let mut out = decimal_exec(h / 100);
    out.push('.');
    out.push(digit_char((h % 100) / 10));
    out.push(digit_char(h % 10));
    let name = unit_name_exec(k);
    let mut i: usize = 0;
    let ghost before = out@;
    while i < name.len()
        invariant
            i <= name.len(),
            out@ == before + name@.take(i as int),
        decreases name.len() - i,
    {
        out.push(name[i]);
        i = i + 1;
        assert(name@.take(i as int) == name@.take((i - 1) as int).push(name@[i - 1]));
    }
    assert(name@.take(name.len() as int) == name@);
    assert(before =~= fixed_two(h as nat));
    from_chars(out.as_slice())
}

} // verus!
