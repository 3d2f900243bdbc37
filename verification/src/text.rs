//! Verified text primitives: whitespace trimming, string comparison,
//! decimal parsing and decimal rendering, as the registry's attribute
//! files need them.

use vstd::prelude::*;
use vstd::string::StrSliceExecFns;
use vstd::string::StringExecFns;

verus! {

/// A whitespace character: the Unicode `White_Space` set, which is what
/// attribute values are trimmed of.
pub open spec fn is_space(c: char) -> bool {
    ||| c == ' '
    ||| c == '\t'
    ||| c == '\n'
    ||| c == '\u{b}'
    ||| c == '\u{c}'
    ||| c == '\r'
    ||| c == '\u{85}'
    ||| c == '\u{a0}'
    ||| c == '\u{1680}'
    ||| (0x2000 <= c as u32 && c as u32 <= 0x200a)
    ||| c == '\u{2028}'
    ||| c == '\u{2029}'
    ||| c == '\u{202f}'
    ||| c == '\u{205f}'
    ||| c == '\u{3000}'
}

fn space(c: char) -> (b: bool)
    ensures
        b == is_space(c),
{
    c == ' ' || c == '\t' || c == '\n' || c == '\u{b}' || c == '\u{c}' || c == '\r'
        || c == '\u{85}' || c == '\u{a0}' || c == '\u{1680}'
        || (0x2000 <= c as u32 && c as u32 <= 0x200a) || c == '\u{2028}' || c == '\u{2029}'
        || c == '\u{202f}' || c == '\u{205f}' || c == '\u{3000}'
}

/// Equality of two string slices, decided character by character.
pub fn str_eq(a: &str, b: &str) -> (r: bool)
    ensures
        r == (a@ == b@),
{
    let na = a.unicode_len();
    let nb = b.unicode_len();
    if na != nb {
        return false;
    }
    let mut i: usize = 0;
    while i < na
        invariant
            na == a@.len(),
            na == b@.len(),
            0 <= i <= na,
            forall|j: int| 0 <= j < i ==> a@[j] == b@[j],
        decreases na - i,
    {
        if a.get_char(i) != b.get_char(i) {
            return false;
        }
        i = i + 1;
    }
    proof {
        assert(a@ =~= b@);
    }
    true
}

/// Whether `prefix` is an initial segment of `s`.
pub fn str_starts_with(s: &str, prefix: &str) -> (r: bool)
    ensures
        r == prefix@.is_prefix_of(s@),
{
    let np = prefix.unicode_len();
    let ns = s.unicode_len();
    if np > ns {
        return false;
    }
    let mut i: usize = 0;
    while i < np
        invariant
            np == prefix@.len(),
            ns == s@.len(),
            np <= ns,
            0 <= i <= np,
            forall|j: int| 0 <= j < i ==> prefix@[j] == s@[j],
        decreases np - i,
    {
        if prefix.get_char(i) != s.get_char(i) {
            proof {
                assert(!(prefix@ =~= s@.subrange(0, np as int)));
            }
            return false;
        }
        i = i + 1;
    }
    proof {
        assert(prefix@ =~= s@.subrange(0, np as int));
    }
    true
}

/// What is left of `s` once leading whitespace is dropped.
pub open spec fn trim_start_spec(s: Seq<char>) -> Seq<char>
    decreases s.len(),
{
    if s.len() > 0 && is_space(s[0]) {
        trim_start_spec(s.drop_first())
    } else {
        s
    }
}

/// What is left of `s` once trailing whitespace is dropped.
pub open spec fn trim_end_spec(s: Seq<char>) -> Seq<char>
    decreases s.len(),
{
    if s.len() > 0 && is_space(s.last()) {
        trim_end_spec(s.drop_last())
    } else {
        s
    }
}

/// `s` without its surrounding whitespace.
pub open spec fn trim_spec(s: Seq<char>) -> Seq<char> {
    trim_end_spec(trim_start_spec(s))
}

/// Trims surrounding whitespace, as attribute values read from the
/// registry require.
pub fn trim(s: &str) -> (r: String)
    ensures
        r@ == trim_spec(s@),
{
    let n = s.unicode_len();
    proof {
        assert(s@.subrange(0, n as int) =~= s@);
    }
    let mut i: usize = 0;
    while i < n && space(s.get_char(i))
        invariant
            n == s@.len(),
            0 <= i <= n,
            trim_start_spec(s@) == trim_start_spec(s@.subrange(i as int, n as int)),
        decreases n - i,
    {
        proof {
            assert(s@.subrange(i as int, n as int).drop_first() =~= s@.subrange(
                i as int + 1,
                n as int,
            ));
        }
        i = i + 1;
    }
    proof {
        assert(trim_start_spec(s@) == s@.subrange(i as int, n as int));
    }
    let mut j: usize = n;
    while j > i && space(s.get_char(j - 1))
        invariant
            n == s@.len(),
            0 <= i <= j <= n,
            trim_spec(s@) == trim_end_spec(s@.subrange(i as int, j as int)),
        decreases j,
    {
        proof {
            assert(s@.subrange(i as int, j as int).drop_last() =~= s@.subrange(
                i as int,
                j as int - 1,
            ));
        }
        j = j - 1;
    }
    proof {
        assert(trim_spec(s@) == s@.subrange(i as int, j as int));
    }
    let cut = s.substring_char(i, j);
    String::from_str(cut)
}

/// A decimal digit.
pub open spec fn is_digit(c: char) -> bool {
    48 <= c as u32 <= 57
}

/// The numeric value of a decimal digit.
pub open spec fn digit_val(c: char) -> int {
    c as u32 - 48
}

pub open spec fn all_digits(s: Seq<char>) -> bool {
    forall|i: int| 0 <= i < s.len() ==> is_digit(s[i])
}

/// The number a digit string denotes, most significant digit first.
pub open spec fn dec_val(s: Seq<char>) -> int
    decreases s.len(),
{
    if s.len() == 0 {
        0
    } else {
        dec_val(s.drop_last()) * 10 + digit_val(s.last())
    }
}

proof fn lemma_dec_val_nonneg(s: Seq<char>)
    requires
        all_digits(s),
    ensures
        dec_val(s) >= 0,
    decreases s.len(),
{
    if s.len() > 0 {
        lemma_dec_val_nonneg(s.drop_last());
    }
}

/// A digit string denotes at least what any of its prefixes denotes.
proof fn lemma_dec_val_prefix(s: Seq<char>, k: int)
    requires
        all_digits(s),
        0 <= k <= s.len(),
    ensures
        dec_val(s.subrange(0, k)) <= dec_val(s),
    decreases s.len() - k,
{
    if k == s.len() {
        assert(s.subrange(0, k) =~= s);
    } else {
        assert(s.subrange(0, k + 1).drop_last() =~= s.subrange(0, k));
        assert(all_digits(s.subrange(0, k)));
        lemma_dec_val_nonneg(s.subrange(0, k));
        assert(dec_val(s.subrange(0, k + 1)) == dec_val(s.subrange(0, k)) * 10 + digit_val(
            s[k],
        ));
        lemma_dec_val_prefix(s, k + 1);
    }
}

/// The digits a decimal number names, an optional leading `+` allowed.
pub open spec fn dec_body(s: Seq<char>) -> Seq<char> {
    if s.len() > 0 && s[0] == '+' {
        s.drop_first()
    } else {
        s
    }
}

/// What base-10 parsing of `s` as an unsigned 64-bit value yields: the
/// value when `s` is an optional `+` followed by digits denoting a number
/// in range, and nothing otherwise.
pub open spec fn parse_u64_spec(s: Seq<char>) -> Option<u64> {
    let b = dec_body(s);
    if b.len() > 0 && all_digits(b) && dec_val(b) <= u64::MAX {
        Some(dec_val(b) as u64)
    } else {
        None
    }
}

/// Base-10 parsing of an unsigned 64-bit value; unparsable input yields
/// nothing rather than an error.
pub fn parse_u64(s: &str) -> (r: Option<u64>)
    ensures
        r == parse_u64_spec(s@),
{
    let n = s.unicode_len();
    if n == 0 {
        return None;
    }
    let first = s.get_char(0);
    let st: usize = if first == '+' {
        1
    } else {
        0
    };
    if n == st {
        return None;
    }
    let ghost b = dec_body(s@);
    proof {
        assert(b =~= s@.subrange(st as int, n as int));
    }
    let mut acc: u64 = 0;
    let mut i: usize = st;
    while i < n
        invariant
            n == s@.len(),
            st <= i <= n,
            st < n,
            b =~= s@.subrange(st as int, n as int),
            b == dec_body(s@),
            forall|j: int| st <= j < i ==> is_digit(s@[j]),
            acc == dec_val(s@.subrange(st as int, i as int)),
        decreases n - i,
    {
        let c = s.get_char(i);
        let u = c as u32;
        if u < 48 || u > 57 {
            proof {
                assert(b[i as int - st as int] == s@[i as int]);
                assert(!all_digits(b));
            }
            return None;
        }
        let d = (u - 48) as u64;
        proof {
            assert(s@.subrange(st as int, i as int + 1).drop_last() =~= s@.subrange(
                st as int,
                i as int,
            ));
            assert(dec_val(s@.subrange(st as int, i as int + 1)) == acc * 10 + d);
        }
        let big = match acc.checked_mul(10) {
            Some(t) => t.checked_add(d),
            None => None,
        };
        match big {
            Some(v) => {
                acc = v;
            },
            None => {
                proof {
                    if all_digits(b) {
                        lemma_dec_val_prefix(b, i as int + 1 - st as int);
                        assert(b.subrange(0, i as int + 1 - st as int) =~= s@.subrange(
                            st as int,
                            i as int + 1,
                        ));
                    }
                }
                return None;
            },
        }
        i = i + 1;
    }
    proof {
        assert(s@.subrange(st as int, n as int) =~= b);
    }
    Some(acc)
}

/// The digits of a signed decimal number, an optional `+` or `-` sign
/// allowed.
pub open spec fn signed_body(s: Seq<char>) -> Seq<char> {
    if s.len() > 0 && (s[0] == '-' || s[0] == '+') {
        s.drop_first()
    } else {
        s
    }
}

/// What base-10 parsing of `s` as a signed 32-bit value yields: an
/// optional `+` or `-` sign, digits, and a value in range.
pub open spec fn parse_i32_spec(s: Seq<char>) -> Option<i32> {
    let neg = s.len() > 0 && s[0] == '-';
    let b = signed_body(s);
    if b.len() > 0 && all_digits(b) {
        if neg {
            if -dec_val(b) >= i32::MIN {
                Some((-dec_val(b)) as i32)
            } else {
                None
            }
        } else {
            if dec_val(b) <= i32::MAX {
                Some(dec_val(b) as i32)
            } else {
                None
            }
        }
    } else {
        None
    }
}

/// Base-10 parsing of a signed 32-bit value; unparsable input yields
/// nothing rather than an error.
pub fn parse_i32(s: &str) -> (r: Option<i32>)
    ensures
        r == parse_i32_spec(s@),
{
    let n = s.unicode_len();
    if n == 0 {
        return None;
    }
    let first = s.get_char(0);
    let neg = first == '-';
    let st: usize = if first == '-' || first == '+' {
        1
    } else {
        0
    };
    if n == st {
        return None;
    }
    let ghost b = signed_body(s@);
    proof {
        assert(b =~= s@.subrange(st as int, n as int));
    }
    let mut acc: u64 = 0;
    let mut i: usize = st;
    while i < n
        invariant
            n == s@.len(),
            st <= i <= n,
            st < n,
            b =~= s@.subrange(st as int, n as int),
            b == signed_body(s@),
            neg == (s@[0] == '-'),
            forall|j: int| st <= j < i ==> is_digit(s@[j]),
            acc == dec_val(s@.subrange(st as int, i as int)),
            acc <= 0x8000_0000,
        decreases n - i,
    {
        let c = s.get_char(i);
        let u = c as u32;
        if u < 48 || u > 57 {
            proof {
                assert(b[i as int - st as int] == s@[i as int]);
                assert(!all_digits(b));
            }
            return None;
        }
        let d = (u - 48) as u64;
        proof {
            assert(s@.subrange(st as int, i as int + 1).drop_last() =~= s@.subrange(
                st as int,
                i as int,
            ));
            assert(dec_val(s@.subrange(st as int, i as int + 1)) == acc * 10 + d);
        }
        let big = acc * 10 + d;
        if big > 0x8000_0000 {
            proof {
                if all_digits(b) {
                    lemma_dec_val_prefix(b, i as int + 1 - st as int);
                    assert(b.subrange(0, i as int + 1 - st as int) =~= s@.subrange(
                        st as int,
                        i as int + 1,
                    ));
                }
            }
            return None;
        }
        acc = big;
        i = i + 1;
    }
    proof {
        assert(s@.subrange(st as int, n as int) =~= b);
    }
    if neg {
        if acc == 0x8000_0000 {
            Some(i32::MIN)
        } else {
            Some(-(acc as i32))
        }
    } else {
        if acc > 0x7fff_ffff {
            None
        } else {
            Some(acc as i32)
        }
    }
}

/// The character for one decimal digit value.
pub open spec fn digit_char(d: int) -> char {
    ((d + 48) as u8) as char
}

/// The decimal digits of a non-negative number, most significant first.
pub open spec fn dec_str(n: int) -> Seq<char>
    recommends
        n >= 0,
    decreases n,
{
    if n < 10 {
        seq![digit_char(n)]
    } else {
        dec_str(n / 10).push(digit_char(n % 10))
    }
}

/// The decimal rendering of a signed number, `-` sign included.
pub open spec fn dec_str_i32(n: int) -> Seq<char> {
    if n < 0 {
        seq!['-'] + dec_str(-n)
    } else {
        dec_str(n)
    }
}

fn digit_str(d: u8) -> (r: &'static str)
    requires
        d < 10,
    ensures
        r@ == seq![digit_char(d as int)],
{
    proof {
        reveal_strlit("0");
        reveal_strlit("1");
        reveal_strlit("2");
        reveal_strlit("3");
        reveal_strlit("4");
        reveal_strlit("5");
        reveal_strlit("6");
        reveal_strlit("7");
        reveal_strlit("8");
        reveal_strlit("9");
    }
    let r = match d {
        0 => "0",
        1 => "1",
        2 => "2",
        3 => "3",
        4 => "4",
        5 => "5",
        6 => "6",
        7 => "7",
        8 => "8",
        _ => "9",
    };
    proof {
        assert(r@ =~= seq![digit_char(d as int)]);
    }
    r
}

fn u32_to_decimal(m: u32) -> (r: String)
    ensures
        r@ == dec_str(m as int),
    decreases m,
{
    if m < 10 {
        String::from_str(digit_str(m as u8))
    } else {
        let mut s = u32_to_decimal(m / 10);
        s.append(digit_str((m % 10) as u8));
        proof {
            assert(dec_str(m as int / 10).push(digit_char(m as int % 10)) =~= dec_str(
                m as int / 10,
            ) + seq![digit_char(m as int % 10)]);
        }
        s
    }
}

/// The decimal rendering of a signed 32-bit value, as it is written to an
/// attribute file.
pub fn i32_to_decimal(n: i32) -> (r: String)
    ensures
        r@ == dec_str_i32(n as int),
{
    if n >= 0 {
        u32_to_decimal(n as u32)
    } else {
        let mag: u32 = if n == i32::MIN {
            0x8000_0000
        } else {
            (-n) as u32
        };
        proof {
            assert(mag as int == -(n as int));
        }
        let mut s = String::from_str("-");
        let tail = u32_to_decimal(mag);
        s.append(tail.as_str());
        proof {
            reveal_strlit("-");
            assert("-"@ =~= seq!['-']);
        }
        s
    }
}

} // verus!
