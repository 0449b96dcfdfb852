//! Verified text utilities: string equality, substring search over
//! character sequences, suffix tests, and decimal parsing.

use vstd::prelude::*;
use vstd::string::StrSliceExecFns;

verus! {

// ---------- equality and character access ----------

/// Compare two string slices by their character sequences.
pub fn str_eq(a: &str, b: &str) -> (r: bool)
    ensures
        r == (a@ == b@),
{
    let sa: String = a.to_owned();
    let sb: String = b.to_owned();
    sa == sb
}

/// Collect the characters of a string slice into a vector.
pub fn str_chars(s: &str) -> (r: Vec<char>)
    ensures
        r@ == s@,
{
    let n: usize = s.unicode_len();
    let mut r: Vec<char> = Vec::new();
    let mut i: usize = 0;
    while i < n
        invariant
            n == s@.len(),
            i <= n,
            r@ == s@.take(i as int),
        decreases n - i,
    {
        r.push(s.get_char(i));
        proof {
            assert(s@.take(i + 1 as int) =~= s@.take(i as int).push(s@[i as int]));
        }
        i = i + 1;
    }
    proof {
        assert(r@ =~= s@);
    }
    r
}

// ---------- substring search ----------

/// The pattern occurs in `text` starting at position `i`.
pub open spec fn matches_at(text: Seq<char>, pat: Seq<char>, i: int) -> bool {
    0 <= i && i + pat.len() <= text.len() && text.subrange(i, i + pat.len()) == pat
}

/// The pattern occurs somewhere in `text` (every text contains the empty
/// pattern).
pub open spec fn contains_seq(text: Seq<char>, pat: Seq<char>) -> bool {
    exists|i: int| matches_at(text, pat, i)
}

fn matches_at_exec(text: &Vec<char>, pat: &Vec<char>, i: usize) -> (r: bool)
    requires
        i + pat@.len() <= text@.len(),
    ensures
        r == matches_at(text@, pat@, i as int),
{
    let tlen: usize = text.len();
    let mut k: usize = 0;
    while k < pat.len()
        invariant
            i + pat@.len() <= text@.len(),
            tlen == text@.len(),
            k <= pat@.len(),
            forall|j: int| 0 <= j < k ==> text@[i + j] == pat@[j],
        decreases pat@.len() - k,
    {
        if text[i + k] != pat[k] {
            proof {
                if matches_at(text@, pat@, i as int) {
                    assert(text@.subrange(i as int, i + pat@.len())[k as int] == pat@[k as int]);
                }
            }
            return false;
        }
        k = k + 1;
    }
    proof {
        assert(text@.subrange(i as int, i + pat@.len()) =~= pat@);
    }
    true
}

/// Substring search over character vectors.
pub fn contains_chars(text: &Vec<char>, pat: &Vec<char>) -> (r: bool)
    ensures
        r == contains_seq(text@, pat@),
{
    if pat.len() > text.len() {
        proof {
            assert forall|i: int| !matches_at(text@, pat@, i) by {}
        }
        return false;
    }
    let last: usize = text.len() - pat.len();
    let mut i: usize = 0;
    while i < last
        invariant
            pat@.len() <= text@.len(),
            last == text@.len() - pat@.len(),
            i <= last,
            forall|j: int| 0 <= j < i ==> !matches_at(text@, pat@, j),
        decreases last - i,
    {
        if matches_at_exec(text, pat, i) {
            return true;
        }
        i = i + 1;
    }
    if matches_at_exec(text, pat, last) {
        return true;
    }
    proof {
        assert forall|j: int| !matches_at(text@, pat@, j) by {
            if j > last as int {
                assert(j + pat@.len() > text@.len());
            }
        }
    }
    false
}

/// Substring search over string slices.
pub fn str_contains(text: &str, pat: &str) -> (r: bool)
    ensures
        r == contains_seq(text@, pat@),
{
    let tc = str_chars(text);
    let pc = str_chars(pat);
    contains_chars(&tc, &pc)
}

// ---------- suffix test ----------

/// The string ends with the given suffix.
pub open spec fn ends_with_seq(s: Seq<char>, suffix: Seq<char>) -> bool {
    s.len() >= suffix.len() && s.subrange(s.len() - suffix.len(), s.len() as int) == suffix
}

/// Suffix test over string slices.
pub fn str_ends_with(s: &str, suffix: &str) -> (r: bool)
    ensures
        r == ends_with_seq(s@, suffix@),
{
    let sc = str_chars(s);
    let pc = str_chars(suffix);
    if pc.len() > sc.len() {
        return false;
    }
    matches_at_exec(&sc, &pc, sc.len() - pc.len())
}

// ---------- decimal parsing ----------

/// A decimal digit character.
pub open spec fn is_digit_char(c: char) -> bool {
    '0' <= c && c <= '9'
}

/// Every character of the sequence is a decimal digit.
pub open spec fn all_digits(s: Seq<char>) -> bool {
    forall|i: int| 0 <= i < s.len() ==> is_digit_char(s[i])
}

/// The value of a digit sequence read as a decimal number.
pub open spec fn dec_value(s: Seq<char>) -> int
    decreases s.len(),
{
    if s.len() == 0 {
        0
    } else {
        dec_value(s.drop_last()) * 10 + (s.last() as int - '0' as int)
    }
}

/// What parsing an unsigned 64-bit decimal number returns: the digits'
/// value when the string is nonempty, all digits, and the value fits.
pub open spec fn parse_u64_spec(s: Seq<char>) -> Option<u64> {
    if s.len() > 0 && all_digits(s) && dec_value(s) <= u64::MAX {
        Some(dec_value(s) as u64)
    } else {
        None
    }
}

/// What parsing a signed 64-bit decimal number returns: an optional
/// leading `+` or `-`, then digits, value within the type's range.
pub open spec fn parse_i64_spec(s: Seq<char>) -> Option<i64> {
    if s.len() > 0 && s[0] == '-' {
        let m = s.drop_first();
        if m.len() > 0 && all_digits(m) && dec_value(m) <= 0x8000_0000_0000_0000 {
            Some((0 - dec_value(m)) as i64)
        } else {
            None
        }
    } else {
        let m = if s.len() > 0 && s[0] == '+' {
            s.drop_first()
        } else {
            s
        };
        if m.len() > 0 && all_digits(m) && dec_value(m) <= i64::MAX {
            Some(dec_value(m) as i64)
        } else {
            None
        }
    }
}

proof fn lemma_dec_value_nonneg(s: Seq<char>)
    requires
        all_digits(s),
    ensures
        dec_value(s) >= 0,
    decreases s.len(),
{
    if s.len() > 0 {
        assert(all_digits(s.drop_last()));
        lemma_dec_value_nonneg(s.drop_last());
    }
}

proof fn lemma_dec_value_step(s: Seq<char>, i: int)
    requires
        0 <= i < s.len(),
    ensures
        dec_value(s.take(i + 1)) == dec_value(s.take(i)) * 10 + (s[i] as int - '0' as int),
{
    assert(s.take(i + 1).drop_last() =~= s.take(i));
    assert(s.take(i + 1).last() == s[i]);
}

proof fn lemma_dec_value_prefix(s: Seq<char>, i: int)
    requires
        all_digits(s),
        0 <= i <= s.len(),
    ensures
        dec_value(s.take(i)) <= dec_value(s),
    decreases s.len() - i,
{
    if i == s.len() {
        assert(s.take(i) =~= s);
    } else {
        lemma_dec_value_step(s, i);
        assert(all_digits(s.take(i)));
        lemma_dec_value_nonneg(s.take(i));
        lemma_dec_value_prefix(s, i + 1);
    }
}

/// Parse the decimal digits of `cs` starting at `start`, as `u64`.
fn parse_u64_digits(cs: &Vec<char>, start: usize) -> (r: Option<u64>)
    requires
        start <= cs@.len(),
    ensures
        r == parse_u64_spec(cs@.skip(start as int)),
{
    let ghost m = cs@.skip(start as int);
    if start == cs.len() {
        return None;
    }
    let mut acc: u64 = 0;
    let mut i: usize = start;
    while i < cs.len()
        invariant
            start <= i <= cs@.len(),
            start < cs@.len(),
            m == cs@.skip(start as int),
            all_digits(m.take(i - start)),
            acc == dec_value(m.take(i - start)),
        decreases cs@.len() - i,
    {
        let c = cs[i];
        proof {
            assert(m[i - start] == cs@[i as int]);
        }
        if c < '0' || c > '9' {
            proof {
                assert(!is_digit_char(m[i - start]));
            }
            return None;
        }
        let d: u64 = (c as u32 - 48) as u64;
        let wide: u128 = acc as u128 * 10 + d as u128;
        proof {
            lemma_dec_value_step(m, i - start);
        }
        if wide > u64::MAX as u128 {
            proof {
                assert(all_digits(m.take(i - start + 1)));
                if all_digits(m) {
                    lemma_dec_value_prefix(m, i - start + 1);
                }
            }
            return None;
        }
        acc = wide as u64;
        i = i + 1;
    }
    proof {
        assert(m.take(cs@.len() - start) =~= m);
    }
    Some(acc)
}

/// Parse a string as an unsigned 64-bit decimal number (digits only).
pub fn parse_u64(s: &str) -> (r: Option<u64>)
    ensures
        r == parse_u64_spec(s@),
{
    let cs = str_chars(s);
    proof {
        assert(cs@.skip(0) =~= s@);
    }
    parse_u64_digits(&cs, 0)
}

/// Parse a string as a signed 64-bit decimal number, with an optional
/// leading sign.
pub fn parse_i64(s: &str) -> (r: Option<i64>)
    ensures
        r == parse_i64_spec(s@),
{
    let cs = str_chars(s);
    if cs.len() == 0 {
        return None;
    }
    let first = cs[0];
    if first == '-' {
        proof {
            assert(cs@.skip(1) =~= s@.drop_first());
        }
        match parse_u64_digits(&cs, 1) {
            None => None,
            Some(mag) => {
                proof {
                    lemma_dec_value_nonneg(cs@.skip(1));
                }
                if mag <= 0x7fff_ffff_ffff_ffffu64 {
                    Some(0i64 - (mag as i64))
                } else if mag == 0x8000_0000_0000_0000u64 {
                    Some(i64::MIN)
                } else {
                    None
                }
            },
        }
    } else if first == '+' {
        proof {
            assert(cs@.skip(1) =~= s@.drop_first());
        }
        match parse_u64_digits(&cs, 1) {
            None => None,
            Some(mag) => {
                proof {
                    lemma_dec_value_nonneg(cs@.skip(1));
                }
                if mag <= 0x7fff_ffff_ffff_ffffu64 {
                    Some(mag as i64)
                } else {
                    None
                }
            },
        }
    } else {
        proof {
            assert(cs@.skip(0) =~= s@);
        }
        match parse_u64_digits(&cs, 0) {
            None => None,
            Some(mag) => {
                proof {
                    lemma_dec_value_nonneg(cs@.skip(0));
                }
                if mag <= 0x7fff_ffff_ffff_ffffu64 {
                    Some(mag as i64)
                } else {
                    None
                }
            },
        }
    }
}

// ---------- ASCII strings ----------

/// The characters with the same code points as the given ASCII bytes.
pub open spec fn ascii_chars_of(s: Seq<u8>) -> Seq<char> {
    Seq::new(s.len(), |i: int| s[i] as char)
}

/// Relies on `String::from_utf8`: bytes below 128 are valid UTF-8 and
/// decode to the characters with the same code points.
#[verifier::external_body]
pub fn ascii_string(v: Vec<u8>) -> (r: String)
    requires
        forall|i: int| 0 <= i < v@.len() ==> v@[i] < 128,
    ensures
        r@ == ascii_chars_of(v@),
{
    String::from_utf8(v).unwrap_or_default()
}

} // verus!
