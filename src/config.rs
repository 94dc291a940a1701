use vstd::prelude::*;

verus! {

/// The default delay between two integrity checks, in milliseconds.
pub const DELAY_DEFAULT: u64 = 30000;

/// The validated settings of a run.
pub struct Args {
    /// The number of bytes to monitor; 0 asks for adaptive sizing.
    pub memory_to_occupy: usize,
    /// The delay between two integrity checks, in milliseconds.
    pub delay_between_checks: u64,
    pub longitude: String,
    pub latitude: String,
    /// The file the detections are appended to.
    pub file_path: String,
    /// Whether to print progress information.
    pub verbose: bool,
}

pub open spec fn is_digit(c: char) -> bool {
    48 <= (c as u32) <= 57
}

pub open spec fn digit_value(c: char) -> nat {
    ((c as u32) - 48) as nat
}

/// Reading decimal digits left to right into a `usize`, as `str::parse` does:
/// the first character that is not a digit, or the first step past
/// `usize::MAX`, ends the reading with its error.
pub open spec fn scan_digits(d: Seq<char>) -> Result<nat, Seq<char>>
    decreases d.len(),
{
    if d.len() == 0 {
        Ok(0)
    } else {
        match scan_digits(d.drop_last()) {
            Err(e) => Err(e),
            Ok(v) => if !is_digit(d.last()) {
                Err("invalid digit found in string"@)
            } else if v * 10 + digit_value(d.last()) > usize::MAX {
                Err("number too large to fit in target type"@)
            } else {
                Ok(v * 10 + digit_value(d.last()))
            },
        }
    }
}

/// A `usize` in decimal, with an optional leading `+`.
pub open spec fn number_outcome(d: Seq<char>) -> Result<nat, Seq<char>> {
    if d.len() == 0 {
        Err("cannot parse integer from empty string"@)
    } else if d[0] == '+' {
        if d.len() == 1 {
            Err("invalid digit found in string"@)
        } else {
            scan_digits(d.drop_first())
        }
    } else {
        scan_digits(d)
    }
}

/// The factor of an SI prefix, in bytes (`B`) or in bits (`b`, an eighth).
pub open spec fn prefix_factor(c: char) -> nat {
    if c == 'k' {
        1_000
    } else if c == 'M' {
        1_000_000
    } else if c == 'G' {
        1_000_000_000
    } else if c == 'T' {
        1_000_000_000_000
    } else {
        1_000_000_000_000_000
    }
}

pub open spec fn is_prefix(c: char) -> bool {
    c == 'k' || c == 'M' || c == 'G' || c == 'T' || c == 'P'
}

/// What a size string means: a plain number of bytes, such as `200` (where `0`
/// asks for adaptive sizing), or a number, a prefix and a unit, such as `30kB`.
pub open spec fn size_outcome(s: Seq<char>) -> Result<nat, Seq<char>> {
    if s.len() == 0 {
        Err("memory_to_occupy was empty"@)
    } else if is_digit(s.last()) {
        number_outcome(s)
    } else if (s.last() != 'B' && s.last() != 'b') || s.len() < 2 {
        Err("Unable to parse memory_to_occupy"@)
    } else if !is_prefix(s[s.len() - 2]) {
        if !is_digit(s[s.len() - 2]) {
            Err("Unsupported memory size"@)
        } else {
            Err("Could not parse memory size"@)
        }
    } else {
        let factor = if s.last() == 'B' {
            prefix_factor(s[s.len() - 2])
        } else {
            prefix_factor(s[s.len() - 2]) / 8
        };
        match number_outcome(s.subrange(0, s.len() - 2)) {
            Err(e) => Err(e),
            Ok(n) => if n * factor > usize::MAX {
                Err("memory size does not fit in usize"@)
            } else {
                Ok(n * factor)
            },
        }
    }
}

/// Whether a parse result is what `size_outcome` gives.
pub open spec fn parsed_as(r: Result<usize, String>, o: Result<nat, Seq<char>>) -> bool {
    match o {
        Ok(n) => r matches Ok(v) && v == n,
        Err(m) => r matches Err(e) && e@ == m,
    }
}

proof fn lemma_scan_error_sticks(d: Seq<char>, k: int)
    requires
        0 <= k <= d.len(),
        scan_digits(d.subrange(0, k)) is Err,
    ensures
        scan_digits(d) == scan_digits(d.subrange(0, k)),
    decreases d.len(),
{
    if k == d.len() {
        assert(d.subrange(0, k) =~= d);
    } else {
        assert(d.drop_last().subrange(0, k) =~= d.subrange(0, k));
        lemma_scan_error_sticks(d.drop_last(), k);
    }
}

fn parse_digits(s: &str, from: usize, to: usize) -> (r: Result<usize, String>)
    requires
        from <= to <= s@.len(),
    ensures
        parsed_as(r, scan_digits(s@.subrange(from as int, to as int))),
{
    let mut v: usize = 0;
    let mut i: usize = from;
    while i < to
        invariant
            from <= i <= to <= s@.len(),
            scan_digits(s@.subrange(from as int, i as int)) == Ok::<nat, Seq<char>>(v as nat),
        decreases to - i,
    {
        let c = s.get_char(i);
        let ghost prev = s@.subrange(from as int, i as int);
        assert(s@.subrange(from as int, i + 1).drop_last() =~= prev);
        let code = c as u32;
        if code < 48 || code > 57 {
            proof {
                assert(s@.subrange(from as int, i + 1).last() == c);
                assert(s@.subrange(from as int, to as int).subrange(0, i + 1 - from) =~= s@.subrange(from as int, i + 1));
                lemma_scan_error_sticks(s@.subrange(from as int, to as int), i + 1 - from);
            }
            return Err(String::from_str("invalid digit found in string"));
        }
        let d = (code - 48) as usize;
        if v > (usize::MAX - d) / 10 {
            proof {
                assert(v * 10 + d > usize::MAX) by (nonlinear_arith)
                    requires
                        v > (usize::MAX - d) / 10,
                        d <= 9,
                ;
                assert(s@.subrange(from as int, i + 1).last() == c);
                assert(s@.subrange(from as int, to as int).subrange(0, i + 1 - from) =~= s@.subrange(from as int, i + 1));
                lemma_scan_error_sticks(s@.subrange(from as int, to as int), i + 1 - from);
            }
            return Err(String::from_str("number too large to fit in target type"));
        }
        assert(v * 10 + d <= usize::MAX) by (nonlinear_arith)
            requires
                v <= (usize::MAX - d) / 10,
                d <= 9,
        ;
        v = v * 10 + d;
        i = i + 1;
    }
    Ok(v)
}

/// Reads the first `end` characters of `s` as a `usize` in decimal, with an
/// optional leading `+`.
fn parse_number(s: &str, end: usize) -> (r: Result<usize, String>)
    requires
        end <= s@.len(),
    ensures
        parsed_as(r, number_outcome(s@.subrange(0, end as int))),
{
    if end == 0 {
        return Err(String::from_str("cannot parse integer from empty string"));
    }
    if s.get_char(0) == '+' {
        if end == 1 {
            return Err(String::from_str("invalid digit found in string"));
        }
        assert(s@.subrange(0, end as int).drop_first() =~= s@.subrange(1, end as int));
        parse_digits(s, 1, end)
    } else {
        parse_digits(s, 0, end)
    }
}

/// Parses a string describing a number of bytes into an integer.
/// The string can be a plain number of bytes, like '200', or use common SI
/// prefixes, like '4GB' or '30kB'; a lower-case `b` counts bits. The value 0
/// asks for adaptive sizing.
pub fn parse_size_string(size_string: &str) -> (r: Result<usize, String>)
    ensures
        parsed_as(r, size_outcome(size_string@)),
{
    let len = size_string.unicode_len();
    if len == 0 {
        return Err(String::from_str("memory_to_occupy was empty"));
    }
    let last = size_string.get_char(len - 1);
    if (last as u32) >= 48 && (last as u32) <= 57 {
        assert(size_string@.subrange(0, len as int) =~= size_string@);
        return parse_number(size_string, len);
    }
    if (last != 'B' && last != 'b') || len < 2 {
        return Err(String::from_str("Unable to parse memory_to_occupy"));
    }
    let next_to_last = size_string.get_char(len - 2);
    let si_prefix_factor: u64 = if next_to_last == 'k' {
        1_000
    } else if next_to_last == 'M' {
        1_000_000
    } else if next_to_last == 'G' {
        1_000_000_000
    } else if next_to_last == 'T' {
        1_000_000_000_000
    } else if next_to_last == 'P' {
        1_000_000_000_000_000
    } else if (next_to_last as u32) < 48 || (next_to_last as u32) > 57 {
        return Err(String::from_str("Unsupported memory size"));
    } else {
        return Err(String::from_str("Could not parse memory size"));
    };
    let factor: u64 = if last == 'B' {
        si_prefix_factor
    } else {
        si_prefix_factor / 8
    };
    let digits_end = len - 2;
    let number = parse_number(size_string, digits_end);
    match number {
        Err(e) => Err(e),
        Ok(n) => {
            assert((n as int) * (factor as int) <= 0xffff_ffff_ffff_ffff * 1_000_000_000_000_000) by (nonlinear_arith)
                requires
                    n <= 0xffff_ffff_ffff_ffff,
                    factor <= 1_000_000_000_000_000,
            ;
            let product: u128 = (n as u128) * (factor as u128);
            if product > usize::MAX as u128 {
                Err(String::from_str("memory size does not fit in usize"))
            } else {
                Ok(product as usize)
            }
        },
    }
}

} // verus!
