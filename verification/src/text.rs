//! Small verified text helpers: decimal rendering of unsigned integers and
//! masking of secret strings, shared by the display routines of the crate.

use vstd::prelude::*;

verus! {

/// The decimal digit character for a value in `0..10`.
pub open spec fn digit_char(d: int) -> char {
    if d == 0 {
        '0'
    } else if d == 1 {
        '1'
    } else if d == 2 {
        '2'
    } else if d == 3 {
        '3'
    } else if d == 4 {
        '4'
    } else if d == 5 {
        '5'
    } else if d == 6 {
        '6'
    } else if d == 7 {
        '7'
    } else if d == 8 {
        '8'
    } else {
        '9'
    }
}

/// The usual decimal rendering of `n`, most significant digit first.
pub open spec fn dec_digits(n: nat) -> Seq<char>
    decreases n,
{
    if n < 10 {
        seq![digit_char(n as int)]
    } else {
        dec_digits(n / 10).push(digit_char((n % 10) as int))
    }
}

fn digit_str(d: u64) -> (r: &'static str)
    requires
        d < 10,
    ensures
        r@ == seq![digit_char(d as int)],
{
    proof {
        reveal_strlit("0");
        reveal_strlit("1");
        reveal_strlit("2");
        reveal_strlit("3");
        reveal_strlit("4");
        reveal_strlit("5");
        reveal_strlit("6");
        reveal_strlit("7");
        reveal_strlit("8");
        reveal_strlit("9");
    }
    match d {
        0 => "0",
        1 => "1",
        2 => "2",
        3 => "3",
        4 => "4",
        5 => "5",
        6 => "6",
        7 => "7",
        8 => "8",
        _ => "9",
    }
}

/// Renders `n` in decimal.
pub fn u64_to_dec_string(n: u64) -> (r: String)
    ensures
        r@ == dec_digits(n as nat),
    decreases n,
{
    if n < 10 {
        digit_str(n).to_owned()
    } else {
        let mut s = u64_to_dec_string(n / 10);
        s.append(digit_str(n % 10));
        s
    }
}

/// Whether every character of `s` is a decimal digit.
pub open spec fn is_digits(s: Seq<char>) -> bool {
    forall|i: int| 0 <= i < s.len() ==> '0' <= #[trigger] s[i] <= '9'
}

/// The numeric value of a digit string, most significant digit first.
pub open spec fn digits_val(s: Seq<char>) -> nat
    decreases s.len(),
{
    if s.len() == 0 {
        0
    } else {
        (digits_val(s.drop_last()) * 10 + (s.last() as int - '0' as int)) as nat
    }
}

/// Parses a decimal number. Succeeds exactly on nonempty all-digit strings
/// whose value fits, and then returns that value.
pub fn parse_u64(s: &str) -> (r: Option<u64>)
    ensures
        r.is_some() == (s@.len() > 0 && is_digits(s@) && digits_val(s@) <= u64::MAX),
        r matches Option::Some(n) ==> n == digits_val(s@),
{
    let n = s.unicode_len();
    if n == 0 {
        return Option::None;
    }
    let mut value: u64 = 0;
    for i in 0..n
        invariant
            n == s@.len(),
            is_digits(s@.subrange(0, i as int)),
            value == digits_val(s@.subrange(0, i as int)),
            digits_val(s@.subrange(0, i as int)) <= u64::MAX,
    {
        let c = s.get_char(i);
        proof {
            assert(s@.subrange(0, i as int + 1).drop_last() =~= s@.subrange(0, i as int));
            assert(s@.subrange(0, i as int + 1).last() == s@[i as int]);
        }
        if c < '0' || c > '9' {
            proof {
                assert(!is_digits(s@));
            }
            return Option::None;
        }
        let d = (c as u32 - '0' as u32) as u64;
        if value > (u64::MAX - d) / 10 {
            proof {
                let pref = s@.subrange(0, i as int + 1);
                assert(value * 10 + d > u64::MAX) by (nonlinear_arith)
                    requires
                        value > (u64::MAX - d) / 10,
                        d <= 9,
                        value <= u64::MAX,
                ;
                assert(digits_val(pref) > u64::MAX);
                if is_digits(s@) {
                    lemma_digits_val_prefix_le(s@, i as int + 1);
                }
            }
            return Option::None;
        }
        value = value * 10 + d;
        proof {
            assert(is_digits(s@.subrange(0, i as int + 1)));
        }
    }
    proof {
        assert(s@.subrange(0, n as int) =~= s@);
    }
    Option::Some(value)
}

/// A digit string's value only grows as more digits follow.
pub proof fn lemma_digits_val_prefix_le(s: Seq<char>, m: int)
    requires
        0 <= m <= s.len(),
        is_digits(s),
    ensures
        digits_val(s.subrange(0, m)) <= digits_val(s),
    decreases s.len() - m,
{
    if m < s.len() {
        lemma_digits_val_prefix_le(s, m + 1);
        assert(s.subrange(0, m + 1).drop_last() =~= s.subrange(0, m));
        assert(s.subrange(0, m + 1).last() == s[m]);
        assert(digits_val(s.subrange(0, m + 1)) == (digits_val(s.subrange(0, m)) * 10 + (
        s[m] as int - '0' as int)) as nat);
    } else {
        assert(s.subrange(0, m) =~= s);
    }
}

/// The strings joined by commas, in order.
pub open spec fn join_comma(items: Seq<String>, upto: int) -> Seq<char>
    decreases upto,
{
    if upto <= 0 {
        Seq::empty()
    } else if upto == 1 {
        items[0]@
    } else {
        join_comma(items, upto - 1) + ","@ + items[upto - 1]@
    }
}

/// Joins strings with commas.
pub fn join_comma_exec(items: &Vec<String>) -> (r: String)
    ensures
        r@ == join_comma(items@, items@.len() as int),
{
    let mut out = String::new();
    let n = items.len();
    for i in 0..n
        invariant
            n == items@.len(),
            out@ == join_comma(items@, i as int),
    {
        if i > 0 {
            out.append(",");
        }
        out.append(items[i].as_str());
    }
    out
}

/// Character-by-character equality of two string slices.
pub fn str_eq(a: &str, b: &str) -> (r: bool)
    ensures
        r == (a@ == b@),
{
    let la = a.unicode_len();
    let lb = b.unicode_len();
    if la != lb {
        return false;
    }
    for i in 0..la
        invariant
            la == a@.len(),
            lb == b@.len(),
            la == lb,
            forall|j: int| 0 <= j < i ==> a@[j] == b@[j],
    {
        if a.get_char(i) != b.get_char(i) {
            return false;
        }
    }
    proof {
        assert(a@ =~= b@);
    }
    true
}

/// Whether `s` starts with the prefix `p`.
pub fn str_starts_with(s: &str, p: &str) -> (r: bool)
    ensures
        r == (s@.len() >= p@.len() && s@.subrange(0, p@.len() as int) == p@),
{
    let ls = s.unicode_len();
    let lp = p.unicode_len();
    if ls < lp {
        return false;
    }
    for i in 0..lp
        invariant
            ls == s@.len(),
            lp == p@.len(),
            ls >= lp,
            forall|j: int| 0 <= j < i ==> s@[j] == p@[j],
    {
        if s.get_char(i) != p.get_char(i) {
            assert(s@.subrange(0, lp as int)[i as int] == s@[i as int]);
            return false;
        }
    }
    proof {
        assert(s@.subrange(0, lp as int) =~= p@);
    }
    true
}

/// `s` with all but its first `unmask_len` characters replaced by `******`.
pub open spec fn mask_spec(s: Seq<char>, unmask_len: int) -> Seq<char> {
    if s.len() <= unmask_len {
        s
    } else {
        s.subrange(0, unmask_len) + seq!['*', '*', '*', '*', '*', '*']
    }
}

/// Keeps the first `unmask_len` characters of `s` and hides the rest behind
/// a fixed-width `******` tail, so that secrets never appear whole.
pub fn mask_string(s: &str, unmask_len: usize) -> (r: String)
    ensures
        r@ == mask_spec(s@, unmask_len as int),
{
    proof {
        reveal_strlit("******");
    }
    let l = s.unicode_len();
    if l <= unmask_len {
        s.to_owned()
    } else {
        let kept = s.substring_char(0, unmask_len).to_owned();
        kept.concat("******")
    }
}

} // verus!
