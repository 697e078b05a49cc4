//! Character and string helpers shared by the compiler stages.
use vstd::prelude::*;
use vstd::string::StrSliceExecFns;
use vstd::string::StringExecFns;

verus! {

/// The characters of `s`, in order.
pub fn str_to_chars(s: &str) -> (r: Vec<char>)
    ensures
        r@ == s@,
{
    let n = s.unicode_len();
    let mut r: Vec<char> = Vec::new();
    let mut i: usize = 0;
    while i < n
        invariant
            n == s@.len(),
            i <= n,
            r@ == s@.subrange(0, i as int),
        decreases n - i,
    {
        let c = s.get_char(i);
        r.push(c);
        i = i + 1;
    }
    r
}

/// Wraps `String::push`, which appends one character to a string: the contract claims
/// that the string afterwards holds its old characters followed by `c`.
#[verifier::external_body]
pub(crate) fn push_char(s: &mut String, c: char)
    ensures
        final(s)@ == old(s)@.push(c),
{
    s.push(c);
}

/// A string holding exactly the given characters.
pub fn string_from_chars(cs: &[char]) -> (r: String)
    ensures
        r@ == cs@,
{
    let mut r = String::new();
    let mut i: usize = 0;
    while i < cs.len()
        invariant
            i <= cs@.len(),
            r@ == cs@.subrange(0, i as int),
        decreases cs@.len() - i,
    {
        push_char(&mut r, cs[i]);
        i = i + 1;
    }
    r
}

/// The characters of a string.
pub fn string_to_chars(s: &String) -> (r: Vec<char>)
    ensures
        r@ == s@,
{
    str_to_chars(s.as_str())
}

/// `a` followed by `b`.
pub fn concat(a: &str, b: &str) -> (r: String)
    ensures
        r@ == a@ + b@,
{
    let mut r = String::from_str(a);
    r.append(b);
    r
}

/// The decimal digit character for `d < 10`.
pub open spec fn digit_char(d: nat) -> char {
    if d == 0 { '0' } else if d == 1 { '1' } else if d == 2 { '2' } else if d == 3 { '3' }
    else if d == 4 { '4' } else if d == 5 { '5' } else if d == 6 { '6' } else if d == 7 { '7' }
    else if d == 8 { '8' } else { '9' }
}

/// The decimal digits of `n`, most significant first, without leading zeros (`0` is "0").
pub open spec fn nat_digits(n: nat) -> Seq<char>
    decreases n,
{
    if n < 10 {
        seq![digit_char(n)]
    } else {
        nat_digits(n / 10).push(digit_char(n % 10))
    }
}

/// The decimal text of an integer, with a leading `-` for negative values.
pub open spec fn int_text(i: int) -> Seq<char> {
    if i < 0 {
        seq!['-'] + nat_digits((-i) as nat)
    } else {
        nat_digits(i as nat)
    }
}

fn digit_to_char(d: u64) -> (c: char)
    requires
        d < 10,
    ensures
        c == digit_char(d as nat),
{
    if d == 0 { '0' } else if d == 1 { '1' } else if d == 2 { '2' } else if d == 3 { '3' }
    else if d == 4 { '4' } else if d == 5 { '5' } else if d == 6 { '6' } else if d == 7 { '7' }
    else if d == 8 { '8' } else { '9' }
}

/// The decimal digits of `n`.
pub fn u64_to_chars(n: u64) -> (r: Vec<char>)
    ensures
        r@ == nat_digits(n as nat),
    decreases n,
{
    if n < 10 {
        let mut r = Vec::new();
        r.push(digit_to_char(n));
        r
    } else {
        let mut r = u64_to_chars(n / 10);
        r.push(digit_to_char(n % 10));
        r
    }
}

/// The decimal text of a 64-bit integer.
pub fn i64_to_string(i: i64) -> (r: String)
    ensures
        r@ == int_text(i as int),
{
    if i < 0 {
        let m: u64 = if i == i64::MIN { 9223372036854775808u64 } else { (-i) as u64 };
        let digits = u64_to_chars(m);
        let mut r = String::new();
        push_char(&mut r, '-');
        let mut k: usize = 0;
        while k < digits.len()
            invariant
                k <= digits@.len(),
                r@ == seq!['-'] + digits@.subrange(0, k as int),
            decreases digits@.len() - k,
        {
            push_char(&mut r, digits[k]);
            assert(digits@.subrange(0, k + 1) =~= digits@.subrange(0, k as int).push(digits@[k as int]));
            k = k + 1;
        }
        assert(digits@.subrange(0, digits@.len() as int) =~= digits@);
        r
    } else {
        let digits = u64_to_chars(i as u64);
        string_from_chars(digits.as_slice())
    }
}

/// The decimal text of a 32-bit integer.
pub fn i32_to_string(i: i32) -> (r: String)
    ensures
        r@ == int_text(i as int),
{
    i64_to_string(i as i64)
}

/// The decimal text of an index.
pub fn usize_to_string(n: usize) -> (r: String)
    ensures
        r@ == nat_digits(n as nat),
{
    let digits = u64_to_chars(n as u64);
    string_from_chars(digits.as_slice())
}

/// `prefix` followed by the decimal text of `n`.
pub fn numbered_name(prefix: &str, n: usize) -> (r: String)
    ensures
        r@ == prefix@ + nat_digits(n as nat),
{
    let digits = usize_to_string(n);
    concat(prefix, digits.as_str())
}

/// How `{:?}` writes one character of a string: quotes, backslashes, and the newline,
/// carriage return, tab and null characters are escaped with a backslash.
pub open spec fn escape_char(c: char) -> Seq<char> {
    if c == '"' { seq!['\\', '"'] }
    else if c == '\\' { seq!['\\', '\\'] }
    else if c == '\n' { seq!['\\', 'n'] }
    else if c == '\r' { seq!['\\', 'r'] }
    else if c == '\t' { seq!['\\', 't'] }
    else if c == '\0' { seq!['\\', '0'] }
    else { seq![c] }
}

/// The characters of `s`, each escaped.
pub open spec fn escaped(s: Seq<char>) -> Seq<char>
    decreases s.len(),
{
    if s.len() == 0 {
        seq![]
    } else {
        escaped(s.drop_last()) + escape_char(s.last())
    }
}

/// A string as `{:?}` writes it: escaped, between double quotes.
pub open spec fn quoted(s: Seq<char>) -> Seq<char> {
    seq!['"'] + escaped(s) + seq!['"']
}

/// Appends the escaped form of `c` to `out`.
fn push_escaped(out: &mut String, c: char)
    ensures
        final(out)@ == old(out)@ + escape_char(c),
{
    if c == '"' || c == '\\' || c == '\n' || c == '\r' || c == '\t' || c == '\0' {
        push_char(out, '\\');
        let e = if c == '\n' { 'n' } else if c == '\r' { 'r' } else if c == '\t' { 't' } else if c == '\0' { '0' } else { c };
        push_char(out, e);
    } else {
        push_char(out, c);
    }
}

/// `s` as `{:?}` writes it.
pub fn quoted_string(s: &str) -> (r: String)
    ensures
        r@ == quoted(s@),
{
    let cs = str_to_chars(s);
    let mut r = String::new();
    push_char(&mut r, '"');
    let mut i: usize = 0;
    while i < cs.len()
        invariant
            cs@ == s@,
            i <= cs@.len(),
            r@ == seq!['"'] + escaped(cs@.subrange(0, i as int)),
        decreases cs@.len() - i,
    {
        assert(cs@.subrange(0, i + 1).drop_last() =~= cs@.subrange(0, i as int));
        push_escaped(&mut r, cs[i]);
        i = i + 1;
    }
    assert(cs@.subrange(0, cs@.len() as int) =~= cs@);
    push_char(&mut r, '"');
    r
}

/// Whether a character is a decimal digit.
pub open spec fn is_digit(c: char) -> bool {
    '0' <= c && c <= '9'
}

/// The decimal text of a number is made of digits, has at least one, and has more than
/// one for numbers from 10 up.
pub proof fn lemma_nat_digits_shape(n: nat)
    ensures
        nat_digits(n).len() >= 1,
        n >= 10 ==> nat_digits(n).len() >= 2,
        forall|i: int| 0 <= i < nat_digits(n).len() ==> is_digit(#[trigger] nat_digits(n)[i]),
    decreases n,
{
    if n >= 10 {
        lemma_nat_digits_shape(n / 10);
        let s = nat_digits(n / 10);
        assert forall|i: int| 0 <= i < nat_digits(n).len() implies is_digit(#[trigger] nat_digits(n)[i]) by {
            if i < s.len() {
                assert(nat_digits(n)[i] == s[i]);
            }
        }
    }
}

/// Different numbers have different decimal texts.
pub proof fn lemma_nat_digits_injective(m: nat, n: nat)
    requires
        nat_digits(m) == nat_digits(n),
    ensures
        m == n,
    decreases m,
{
    lemma_nat_digits_shape(m);
    lemma_nat_digits_shape(n);
    if m >= 10 && n >= 10 {
        assert(nat_digits(m / 10) == nat_digits(m).drop_last());
        assert(nat_digits(n / 10) == nat_digits(n).drop_last());
        lemma_nat_digits_injective(m / 10, n / 10);
        assert(nat_digits(m).last() == digit_char(m % 10));
        assert(nat_digits(n).last() == digit_char(n % 10));
        assert(m % 10 == n % 10);
    } else if m < 10 && n < 10 {
        assert(nat_digits(m)[0] == digit_char(m));
        assert(nat_digits(n)[0] == digit_char(n));
    }
}

} // verus!
