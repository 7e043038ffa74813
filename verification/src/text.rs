//! Verified text building for the rendered report: decimal digits of a
//! number, right-aligned padding, and the repeated bar glyph.

use vstd::prelude::*;
use vstd::string::StringExecFns;

verus! {

/// The decimal digit character for a value below ten.
pub open spec fn spec_digit_char(d: int) -> char {
    if d == 0 {
        '0'
    } else if d == 1 {
        '1'
    } else if d == 2 {
        '2'
    } else if d == 3 {
        '3'
    } else if d == 4 {
        '4'
    } else if d == 5 {
        '5'
    } else if d == 6 {
        '6'
    } else if d == 7 {
        '7'
    } else if d == 8 {
        '8'
    } else {
        '9'
    }
}

/// The decimal digits of a non-negative integer, most significant first.
pub open spec fn spec_digits(v: int) -> Seq<char>
    decreases v,
{
    if v < 10 {
        seq![spec_digit_char(v)]
    } else {
        spec_digits(v / 10).push(spec_digit_char(v % 10))
    }
}

/// How many decimal digits a non-negative integer prints as.
pub open spec fn spec_num_digits(v: int) -> int
    decreases v,
{
    if v < 10 {
        1
    } else {
        1 + spec_num_digits(v / 10)
    }
}

/// A run of `k` spaces (none if `k` is negative).
pub open spec fn spec_spaces(k: int) -> Seq<char> {
    Seq::new(if k < 0 {
        0nat
    } else {
        k as nat
    }, |i: int| ' ')
}

/// A number rendered right-aligned in a field of `width` characters.
pub open spec fn spec_padded(v: int, width: int) -> Seq<char> {
    spec_spaces(width - spec_num_digits(v)) + spec_digits(v)
}

/// A bar of `k` unit glyphs.
pub open spec fn spec_bar(k: int) -> Seq<char> {
    Seq::new(if k < 0 {
        0nat
    } else {
        k as nat
    }, |i: int| '\u{220e}')
}

/// Digit counts are monotone in the value.
pub proof fn lemma_num_digits_mono(v: int, w: int)
    requires
        0 <= v <= w,
    ensures
        1 <= spec_num_digits(v) <= spec_num_digits(w),
    decreases w,
{
    if w < 10 {
    } else if v < 10 {
        lemma_num_digits_mono(0, w / 10);
    } else {
        vstd::arithmetic::div_mod::lemma_div_is_ordered(v, w, 10);
        lemma_num_digits_mono(v / 10, w / 10);
    }
}

/// A `u128` never prints as more than 39 digits.
pub proof fn lemma_num_digits_u128(v: u128)
    ensures
        1 <= spec_num_digits(v as int) <= 39,
{
    lemma_num_digits_mono(v as int, u128::MAX as int);
    reveal_with_fuel(spec_num_digits, 41);
    assert(spec_num_digits(u128::MAX as int) == 39);
}

/// The single-character string for a decimal digit.
fn digit_str(d: u128) -> (r: &'static str)
    requires
        d < 10,
    ensures
        r@ == seq![spec_digit_char(d as int)],
{
    proof {
        reveal_strlit("0");
        reveal_strlit("1");
        reveal_strlit("2");
        reveal_strlit("3");
        reveal_strlit("4");
        reveal_strlit("5");
        reveal_strlit("6");
        reveal_strlit("7");
        reveal_strlit("8");
        reveal_strlit("9");
    }
    let r = if d == 0 {
        "0"
    } else if d == 1 {
        "1"
    } else if d == 2 {
        "2"
    } else if d == 3 {
        "3"
    } else if d == 4 {
        "4"
    } else if d == 5 {
        "5"
    } else if d == 6 {
        "6"
    } else if d == 7 {
        "7"
    } else if d == 8 {
        "8"
    } else {
        "9"
    };
    proof {
        assert(r@ =~= seq![spec_digit_char(d as int)]);
    }
    r
}

/// The single-character string holding the bar glyph.
fn bar_glyph() -> (r: &'static str)
    ensures
        r@ == seq!['\u{220e}'],
{
    proof {
        reveal_strlit("\u{220e}");
    }
    let r = "\u{220e}";
    proof {
        assert(r@ =~= seq!['\u{220e}']);
    }
    r
}

/// Appends the decimal digits of `v` to `out`.
pub fn push_number(out: &mut String, v: u128)
    ensures
        final(out)@ == old(out)@ + spec_digits(v as int),
    decreases v,
{
    if v < 10 {
        out.append(digit_str(v));
        proof {
            assert(out@ =~= old(out)@ + spec_digits(v as int));
        }
    } else {
        push_number(out, v / 10);
        out.append(digit_str(v % 10));
        proof {
            assert(spec_digits(v as int) =~= spec_digits(v as int / 10) + seq![
                spec_digit_char(v as int % 10),
            ]);
            assert(out@ =~= old(out)@ + spec_digits(v as int));
        }
    }
}

/// How many decimal digits `v` prints as.
pub fn num_digits(v: u128) -> (d: usize)
    ensures
        d as int == spec_num_digits(v as int),
    decreases v,
{
    if v < 10 {
        1
    } else {
        proof {
            lemma_num_digits_u128(v);
        }
        let rest = num_digits(v / 10);
        rest + 1
    }
}

/// Appends `k` spaces to `out`.
pub fn push_spaces(out: &mut String, k: usize)
    ensures
        final(out)@ == old(out)@ + spec_spaces(k as int),
{
    let ghost orig = out@;
    let mut i: usize = 0;
    while i < k
        invariant
            i <= k,
            out@ == orig + spec_spaces(i as int),
        decreases k - i,
    {
        out.append(" ");
        proof {
            reveal_strlit(" ");
            assert(spec_spaces(i + 1) =~= spec_spaces(i as int) + " "@);
            assert(out@ =~= orig + spec_spaces(i + 1));
        }
        i += 1;
    }
}

/// Appends `v` right-aligned in a field of `width` characters.
pub fn push_padded(out: &mut String, v: u128, width: usize)
    ensures
        final(out)@ == old(out)@ + spec_padded(v as int, width as int),
{
    let ghost orig = out@;
    let d = num_digits(v);
    if d < width {
        push_spaces(out, width - d);
    } else {
        proof {
            assert(spec_spaces(width - spec_num_digits(v as int)) =~= Seq::<char>::empty());
            assert(out@ =~= orig + spec_spaces(width - spec_num_digits(v as int)));
        }
    }
    push_number(out, v);
    proof {
        assert(out@ =~= orig + spec_padded(v as int, width as int));
    }
}

/// Appends a bar of `k` unit glyphs.
pub fn push_bar(out: &mut String, k: usize)
    ensures
        final(out)@ == old(out)@ + spec_bar(k as int),
{
    let ghost orig = out@;
    let mut i: usize = 0;
    while i < k
        invariant
            i <= k,
            out@ == orig + spec_bar(i as int),
        decreases k - i,
    {
        out.append(bar_glyph());
        proof {
            assert(spec_bar(i + 1) =~= spec_bar(i as int) + seq!['\u{220e}']);
            assert(out@ =~= orig + spec_bar(i + 1));
        }
        i += 1;
    }
}

} // verus!
