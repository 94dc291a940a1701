use vstd::prelude::*;

verus! {

/// The character of a decimal digit.
pub open spec fn digit_char(d: nat) -> char
    recommends
        d < 10,
{
    ((d + 48) as u8) as char
}

/// The decimal digits of `n`, most significant first, without leading zeros.
pub open spec fn decimal(n: nat) -> Seq<char>
    decreases n,
{
    if n < 10 {
        seq![digit_char(n)]
    } else {
        decimal(n / 10) + seq![digit_char(n % 10)]
    }
}

fn digit_str(d: u64) -> (r: &'static str)
    requires
        d < 10,
    ensures
        r@ == seq![digit_char(d as nat)],
{
    proof {
        reveal_strlit("0");
        reveal_strlit("1");
        reveal_strlit("2");
        reveal_strlit("3");
        reveal_strlit("4");
        reveal_strlit("5");
        reveal_strlit("6");
        reveal_strlit("7");
        reveal_strlit("8");
        reveal_strlit("9");
    }
    if d == 0 {
        "0"
    } else if d == 1 {
        "1"
    } else if d == 2 {
        "2"
    } else if d == 3 {
        "3"
    } else if d == 4 {
        "4"
    } else if d == 5 {
        "5"
    } else if d == 6 {
        "6"
    } else if d == 7 {
        "7"
    } else if d == 8 {
        "8"
    } else {
        "9"
    }
}

/// Appends the decimal digits of `n` to `out`.
pub fn append_decimal(out: &mut String, n: u64)
    ensures
        final(out)@ == old(out)@ + decimal(n as nat),
    decreases n,
{
    if n >= 10 {
        append_decimal(out, n / 10);
    }
    out.append(digit_str(n % 10));
    proof {
        assert(out@ =~= old(out)@ + decimal(n as nat));
    }
}

/// The power of two that a byte count is divided by to keep 24 significant
/// bits, the precision of an `f32`.
pub open spec fn float_scale(n: nat) -> nat
    decreases n,
{
    if n < 0x100_0000 {
        1
    } else {
        2 * float_scale(n / 2)
    }
}

/// The byte count as the nearest `f32` holds it: rounded to 24 significant
/// bits, ties to the even neighbour.
pub open spec fn float_rounded(n: nat) -> nat {
    let p = float_scale(n);
    let q = n / p;
    let r = n % p;
    let up = r * 2 > p || (r * 2 == p && q % 2 == 1);
    (if up {
        q + 1
    } else {
        q
    }) * p
}

/// How many times a value is divided by 1024 before it is at most 1024, as
/// far as the units reach (TiB); `None` beyond.
pub open spec fn divisions_for(v: nat) -> Option<nat> {
    if v <= 1024 {
        Some(0)
    } else if v <= 1024 * 1024 {
        Some(1)
    } else if v <= 1024 * 1024 * 1024 {
        Some(2)
    } else if v <= 1024 * 1024 * 1024 * 1024 {
        Some(3)
    } else if v <= 1024 * 1024 * 1024 * 1024 * 1024 {
        Some(4)
    } else {
        None
    }
}

/// The suffix of the unit reached after `k` divisions by 1024.
pub open spec fn unit_suffix(k: nat) -> Seq<char> {
    if k == 0 {
        " B"@
    } else if k == 1 {
        " KiB"@
    } else if k == 2 {
        " MiB"@
    } else if k == 3 {
        " GiB"@
    } else {
        " TiB"@
    }
}

/// The unit a byte count is shown in.
pub struct SizeUnit {
    /// The byte count as an `f32` holds it.
    pub rounded: u128,
    /// How many times that value is divided by 1024 to be shown.
    pub divisions: u32,
    /// The unit of the value shown, with a leading space.
    pub suffix: String,
}

fn unit_str(k: u32) -> (r: String)
    requires
        k <= 4,
    ensures
        r@ == unit_suffix(k as nat),
{
    if k == 0 {
        String::from_str(" B")
    } else if k == 1 {
        String::from_str(" KiB")
    } else if k == 2 {
        String::from_str(" MiB")
    } else if k == 3 {
        String::from_str(" GiB")
    } else {
        String::from_str(" TiB")
    }
}

/// Get human readable byte sizes: the unit the count is shown in, and how
/// often its `f32` value is divided by 1024 to get the number shown. `None`
/// when the count is beyond 1024 TiB, which no unit covers.
pub fn mem_size(mem_size_bytes: u64) -> (r: Option<SizeUnit>)
    ensures
        match divisions_for(float_rounded(mem_size_bytes as nat)) {
            Some(k) => r matches Some(u) && u.rounded == float_rounded(mem_size_bytes as nat)
                && u.divisions == k && u.suffix@ == unit_suffix(k),
            None => r is None,
        },
{
    let n = mem_size_bytes;
    let mut q: u64 = n;
    let mut p: u64 = 1;
    while q >= 0x100_0000
        invariant
            p >= 1,
            q as int == n as int / p as int,
            float_scale(n as nat) == p * float_scale(q as nat),
            p * q <= n,
        decreases q,
    {
        proof {
            vstd::arithmetic::div_mod::lemma_div_denominator(n as int, p as int, 2);
            vstd::arithmetic::div_mod::lemma_fundamental_div_mod(n as int, p as int);
            assert(p * 0x100_0000 <= n) by (nonlinear_arith)
                requires
                    p * q <= n,
                    q >= 0x100_0000,
            ;
            assert(float_scale(n as nat) == (p * 2) * float_scale((q / 2) as nat)) by (
            nonlinear_arith)
                requires
                    float_scale(n as nat) == p * float_scale(q as nat),
                    float_scale(q as nat) == 2 * float_scale((q / 2) as nat),
            ;
            assert((p * 2) * (q / 2) <= p * q) by (nonlinear_arith)
                requires
                    p >= 1,
            ;
        }
        q = q / 2;
        p = p * 2;
    }
    proof {
        vstd::arithmetic::div_mod::lemma_fundamental_div_mod(n as int, p as int);
        assert(float_scale(q as nat) == 1);
    }
    let r = n % p;
    let up = (r as u128) * 2 > p as u128 || ((r as u128) * 2 == p as u128 && q % 2 == 1);
    let kept: u128 = if up {
        q as u128 + 1
    } else {
        q as u128
    };
    assert(kept * p <= 0x1_0000_0000_0000_0000_0000_0000) by (nonlinear_arith)
        requires
            kept <= 0x100_0000,
            p <= 0xffff_ffff_ffff_ffff,
    ;
    let rounded: u128 = kept * (p as u128);
    proof {
        let sp = float_scale(n as nat);
        assert(sp == p) by (nonlinear_arith)
            requires
                sp == p * float_scale(q as nat),
                float_scale(q as nat) == 1,
        ;
        assert((n as nat) / sp == q);
        assert((n as nat) % sp == r);
        let sup = r * 2 > sp || (r * 2 == sp && q % 2 == 1);
        assert(sup == up);
        assert(float_rounded(n as nat) == (if sup { (q + 1) as nat } else { q as nat }) * sp);
    }
    assert(rounded == float_rounded(n as nat));
    let mut k: u32 = 0;
    let mut bound: u128 = 1024;
    while k < 5 && rounded > bound
        invariant
            k <= 5,
            k == 0 ==> bound == 1024,
            k == 1 ==> bound == 1024 * 1024,
            k == 2 ==> bound == 1024 * 1024 * 1024,
            k == 3 ==> bound == 1024 * 1024 * 1024 * 1024,
            k == 4 ==> bound == 1024 * 1024 * 1024 * 1024 * 1024,
            k == 5 ==> bound == 1024 * 1024 * 1024 * 1024 * 1024 * 1024,
            k >= 1 ==> rounded > bound / 1024,
        decreases 5 - k,
    {
        bound = bound * 1024;
        k = k + 1;
    }
    if k == 5 {
        return None;
    }
    Some(SizeUnit { rounded, divisions: k, suffix: unit_str(k) })
}

} // verus!
