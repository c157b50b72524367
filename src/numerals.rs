//! Integers written with Unicode superscript or subscript digit glyphs.
use vstd::arithmetic::div_mod::{
    lemma_basic_div, lemma_breakdown, lemma_div_denominator, lemma_fundamental_div_mod_converse,
    lemma_small_mod,
};
use vstd::prelude::*;

verus! {

/// The glyph of decimal digit `d` in the superscript (`sub == false`) or
/// subscript (`sub == true`) set.
pub open spec fn digit_glyph(d: int, sub: bool) -> char {
    if sub {
        if d == 0 { '₀' }
        else if d == 1 { '₁' }
        else if d == 2 { '₂' }
        else if d == 3 { '₃' }
        else if d == 4 { '₄' }
        else if d == 5 { '₅' }
        else if d == 6 { '₆' }
        else if d == 7 { '₇' }
        else if d == 8 { '₈' }
        else { '₉' }
    } else {
        if d == 0 { '⁰' }
        else if d == 1 { '¹' }
        else if d == 2 { '²' }
        else if d == 3 { '³' }
        else if d == 4 { '⁴' }
        else if d == 5 { '⁵' }
        else if d == 6 { '⁶' }
        else if d == 7 { '⁷' }
        else if d == 8 { '⁸' }
        else { '⁹' }
    }
}

/// The minus glyph of the selected set.
pub open spec fn minus_glyph(sub: bool) -> char {
    if sub { '₋' } else { '⁻' }
}

/// The decimal digits of `n`, most significant first, without leading
/// zeros; empty for zero.
pub open spec fn digit_glyphs(n: nat, sub: bool) -> Seq<char>
    decreases n,
{
    if n == 0 {
        Seq::empty()
    } else {
        digit_glyphs(n / 10, sub).push(digit_glyph((n % 10) as int, sub))
    }
}

/// `n` written in the selected glyph set: one zero glyph for zero, else an
/// optional minus glyph followed by the digits of the magnitude.
pub open spec fn styled(n: int, sub: bool) -> Seq<char> {
    if n == 0 {
        seq![digit_glyph(0, sub)]
    } else if n < 0 {
        seq![minus_glyph(sub)] + digit_glyphs((-n) as nat, sub)
    } else {
        digit_glyphs(n as nat, sub)
    }
}

pub open spec fn pow10(k: nat) -> nat
    decreases k,
{
    if k == 0 { 1 } else { 10 * pow10((k - 1) as nat) }
}

fn glyph_str(d: u32, sub: bool) -> (r: &'static str)
    requires
        0 <= d < 10,
    ensures
        r@ == seq![digit_glyph(d as int, sub)],
{
    if sub {
        match d {
            0 => { proof { reveal_strlit("₀"); } "₀" }
            1 => { proof { reveal_strlit("₁"); } "₁" }
            2 => { proof { reveal_strlit("₂"); } "₂" }
            3 => { proof { reveal_strlit("₃"); } "₃" }
            4 => { proof { reveal_strlit("₄"); } "₄" }
            5 => { proof { reveal_strlit("₅"); } "₅" }
            6 => { proof { reveal_strlit("₆"); } "₆" }
            7 => { proof { reveal_strlit("₇"); } "₇" }
            8 => { proof { reveal_strlit("₈"); } "₈" }
            _ => { proof { reveal_strlit("₉"); } "₉" }
        }
    } else {
        match d {
            0 => { proof { reveal_strlit("⁰"); } "⁰" }
            1 => { proof { reveal_strlit("¹"); } "¹" }
            2 => { proof { reveal_strlit("²"); } "²" }
            3 => { proof { reveal_strlit("³"); } "³" }
            4 => { proof { reveal_strlit("⁴"); } "⁴" }
            5 => { proof { reveal_strlit("⁵"); } "⁵" }
            6 => { proof { reveal_strlit("⁶"); } "⁶" }
            7 => { proof { reveal_strlit("⁷"); } "⁷" }
            8 => { proof { reveal_strlit("⁸"); } "⁸" }
            _ => { proof { reveal_strlit("⁹"); } "⁹" }
        }
    }
}

/// Splitting `x % (10 * p)` at place value `p` yields the digit at that
/// place and the remainder below it.
proof fn lemma_place_digit(x: nat, p: nat)
    requires
        p > 0,
    ensures
        (x % (10 * p)) / p == (x / p) % 10,
        (x % (10 * p)) - ((x % (10 * p)) / p) * p == x % p,
        (x / p) / 10 == x / (10 * p),
        x / p == 10 * (x / (10 * p)) + (x / p) % 10,
{
    let a = (x / p) % 10;
    let b = x % p;
    lemma_breakdown(x as int, p as int, 10);
    assert(p * 10 == 10 * p) by (nonlinear_arith);
    assert(x % (10 * p) == p * a + b);
    assert(p * a == a * p) by (nonlinear_arith);
    lemma_fundamental_div_mod_converse((x % (10 * p)) as int, p as int, a as int, b as int);
    lemma_div_denominator(x as int, p as int, 10);
    lemma_fundamental_div_mod_converse((x / p) as int, 10, (x / (10 * p)) as int, a as int);
}

/// Writes `num` with superscript digit glyphs, or subscript ones when
/// `sub` is set, most significant digit first and prefixed by the set's
/// minus glyph when negative. The magnitude must fit in an `i32`.
pub fn style_number(num: i32, sub: bool) -> (r: String)
    requires
        num > i32::MIN,
    ensures
        r@ == styled(num as int, sub),
{
    let mut num = num;
    let mut result = String::new();

    if num == 0 {
        result.append(glyph_str(0, sub));
        return result;
    }
    let ghost prefix: Seq<char> = Seq::empty();
    if num < 0 {
        num = -num;
        if sub {
            proof { reveal_strlit("₋"); }
            result.append("₋");
        } else {
            proof { reveal_strlit("⁻"); }
            result.append("⁻");
        }
        proof { prefix = seq![minus_glyph(sub)]; }
    }
    let mut rest: u32 = num as u32;
    let ghost mag: nat = rest as nat;
    let ghost mut scale: nat = pow10(10);
    proof {
        reveal_with_fuel(pow10, 11);
        lemma_small_mod(mag, scale);
        lemma_basic_div(mag as int, scale as int);
        assert(result@ =~= prefix + digit_glyphs(0, sub));
    }

    let mut started = false;
    let mut power_of_ten: u32 = 1_000_000_000;
    let mut i: u32 = 0;
    while i < 10
        invariant
            i <= 10,
            scale == pow10((10 - i) as nat),
            power_of_ten as int == scale / 10,
            rest as int == mag % scale,
            started == (mag / scale != 0),
            result@ == prefix + digit_glyphs(mag / scale, sub),
        decreases 10 - i,
    {
        let ghost p: nat = (scale / 10) as nat;
        proof {
            assert(scale == 10 * pow10((10 - i - 1) as nat));
            assert(p == pow10((10 - i - 1) as nat));
            assert(p > 0) by {
                let k = (10 - i - 1) as nat;
                assert(pow10(k) > 0) by { lemma_pow10_positive(k); }
            }
            lemma_place_digit(mag, p);
        }
        let digit = rest / power_of_ten;
        rest -= digit * power_of_ten;
        power_of_ten /= 10;
        if digit != 0 || started {
            started = true;
            let g = glyph_str(digit, sub);
            result.append(g);
            proof {
                assert(digit_glyphs(mag / p, sub) == digit_glyphs(mag / scale, sub).push(digit_glyph(digit as int, sub)));
                assert(result@ =~= prefix + digit_glyphs(mag / p, sub));
            }
        } else {
            proof {
                assert(mag / p == 0);
            }
        }
        proof {
            scale = p;
        }
        i += 1;
    }
    proof {
        assert(scale == 1);
        if prefix.len() == 0 {
            assert(prefix + digit_glyphs(mag, sub) =~= digit_glyphs(mag, sub));
        }
    }
    result
}

proof fn lemma_pow10_positive(k: nat)
    ensures
        pow10(k) > 0,
    decreases k,
{
    if k > 0 {
        lemma_pow10_positive((k - 1) as nat);
    }
}

} // verus!
