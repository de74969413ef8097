//! Character-sequence helpers shared by the parsers and the text generators.

use vstd::prelude::*;

verus! {

/// An ASCII decimal digit.
pub open spec fn is_digit(c: char) -> bool {
    '0' <= c && c <= '9'
}

/// An ASCII lower-case letter.
pub open spec fn is_lower(c: char) -> bool {
    'a' <= c && c <= 'z'
}

/// The value of an ASCII decimal digit.
pub open spec fn digit_value(c: char) -> nat {
    (c as int - '0' as int) as nat
}

/// The value of a string of ASCII decimal digits, read most significant first.
pub open spec fn dec_value(ds: Seq<char>) -> nat
    decreases ds.len(),
{
    if ds.len() == 0 {
        0
    } else {
        dec_value(ds.drop_last()) * 10 + digit_value(ds.last())
    }
}

/// The digit character for a value below ten.
pub open spec fn digit_char(d: nat) -> char {
    ((d + '0' as nat) as u32) as char
}

/// The shortest decimal spelling of `n` (no sign, no leading zeros).
pub open spec fn dec(n: nat) -> Seq<char>
    decreases n,
{
    if n < 10 {
        seq![digit_char(n)]
    } else {
        dec(n / 10).push(digit_char(n % 10))
    }
}

/// `lit` occurs in `s` starting at index `p`.
pub open spec fn lit_at(s: Seq<char>, p: int, lit: Seq<char>) -> bool {
    0 <= p && p + lit.len() <= s.len() && s.subrange(p, p + lit.len()) == lit
}

/// `s` ends with `suffix`.
pub open spec fn ends_with(s: Seq<char>, suffix: Seq<char>) -> bool {
    suffix.len() <= s.len() && s.subrange(s.len() - suffix.len(), s.len() as int) == suffix
}

/// `s` starts with `prefix`.
pub open spec fn starts_with(s: Seq<char>, prefix: Seq<char>) -> bool {
    prefix.len() <= s.len() && s.subrange(0, prefix.len() as int) == prefix
}

/// `pat` occurs somewhere in `s`.
pub open spec fn contains(s: Seq<char>, pat: Seq<char>) -> bool {
    exists|i: int| 0 <= i <= s.len() - pat.len() && #[trigger] lit_at(s, i, pat)
}

/// Length of the run of ASCII digits that starts at `p`.
pub open spec fn digit_run(s: Seq<char>, p: int) -> nat
    decreases s.len() - p,
{
    if p < 0 || p >= s.len() || !is_digit(s[p]) {
        0
    } else {
        1 + digit_run(s, p + 1)
    }
}

/// Length of the run of ASCII lower-case letters that starts at `p`.
pub open spec fn lower_run(s: Seq<char>, p: int) -> nat
    decreases s.len() - p,
{
    if p < 0 || p >= s.len() || !is_lower(s[p]) {
        0
    } else {
        1 + lower_run(s, p + 1)
    }
}

/// `c` does not occur in `s`.
pub open spec fn no_char(s: Seq<char>, c: char) -> bool {
    forall|i: int| 0 <= i < s.len() ==> s[i] != c
}

pub proof fn lemma_digit_run_bounds(s: Seq<char>, p: int)
    requires
        0 <= p <= s.len(),
    ensures
        p + digit_run(s, p) <= s.len(),
        forall|i: int| p <= i < p + digit_run(s, p) ==> is_digit(#[trigger] s[i]),
        p + digit_run(s, p) < s.len() ==> !is_digit(s[p + digit_run(s, p)]),
    decreases s.len() - p,
{
    if p < s.len() && is_digit(s[p]) {
        lemma_digit_run_bounds(s, p + 1);
    }
}

pub proof fn lemma_lower_run_bounds(s: Seq<char>, p: int)
    requires
        0 <= p <= s.len(),
    ensures
        p + lower_run(s, p) <= s.len(),
        forall|i: int| p <= i < p + lower_run(s, p) ==> is_lower(#[trigger] s[i]),
        p + lower_run(s, p) < s.len() ==> !is_lower(s[p + lower_run(s, p)]),
    decreases s.len() - p,
{
    if p < s.len() && is_lower(s[p]) {
        lemma_lower_run_bounds(s, p + 1);
    }
}

/// A run of digits that stops before a non-digit is exactly `digit_run` long.
pub proof fn lemma_digit_run_exact(s: Seq<char>, p: int, n: int)
    requires
        0 <= p,
        0 <= n,
        p + n <= s.len(),
        forall|i: int| p <= i < p + n ==> is_digit(#[trigger] s[i]),
        p + n == s.len() || !is_digit(s[p + n]),
    ensures
        digit_run(s, p) == n,
    decreases n,
{
    if n > 0 {
        lemma_digit_run_exact(s, p + 1, n - 1);
    }
}

/// A run of lower-case letters that stops before another character is exactly `lower_run` long.
pub proof fn lemma_lower_run_exact(s: Seq<char>, p: int, n: int)
    requires
        0 <= p,
        0 <= n,
        p + n <= s.len(),
        forall|i: int| p <= i < p + n ==> is_lower(#[trigger] s[i]),
        p + n == s.len() || !is_lower(s[p + n]),
    ensures
        lower_run(s, p) == n,
    decreases n,
{
    if n > 0 {
        lemma_lower_run_exact(s, p + 1, n - 1);
    }
}

pub proof fn lemma_dec_digits(n: nat)
    ensures
        dec(n).len() >= 1,
        forall|i: int| 0 <= i < dec(n).len() ==> is_digit(#[trigger] dec(n)[i]),
        dec_value(dec(n)) == n,
    decreases n,
{
    lemma_digit_char_value((n % 10) as nat);
    if n >= 10 {
        lemma_dec_digits(n / 10);
        let d = dec(n / 10);
        assert(dec(n).drop_last() == d);
        assert(dec(n).last() == digit_char((n % 10) as nat));
        assert(n == (n / 10) * 10 + n % 10);
        assert(dec_value(dec(n)) == dec_value(d) * 10 + digit_value(digit_char((n % 10) as nat)));
    } else {
        assert(n % 10 == n);
        assert(dec(n).drop_last() =~= Seq::<char>::empty());
        assert(dec_value(Seq::<char>::empty()) == 0);
        assert(dec_value(dec(n)) == dec_value(dec(n).drop_last()) * 10 + digit_value(dec(n).last()));
    }
}

pub proof fn lemma_digit_char_value(d: nat)
    requires
        d < 10,
    ensures
        is_digit(digit_char(d)),
        digit_value(digit_char(d)) == d,
{
}

/// Appends one character to a string.
#[verifier::external_body]
pub(crate) fn string_push(s: &mut String, c: char)
    ensures
        final(s)@ == old(s)@.push(c),
{
    s.push(c);
}

/// The characters of a string slice, in order.
pub fn chars_of(s: &str) -> (r: Vec<char>)
    ensures
        r@ == s@,
{
    let n = s.unicode_len();
    let mut v: Vec<char> = Vec::new();
    let mut i: usize = 0;
    while i < n
        invariant
            n == s@.len(),
            i <= n,
            v@ == s@.subrange(0, i as int),
        decreases n - i,
    {
        let c = s.get_char(i);
        v.push(c);
        i += 1;
    }
    v
}

/// Appends the characters `v[lo..hi]` to `out`.
pub fn push_chars(out: &mut String, v: &Vec<char>, lo: usize, hi: usize)
    requires
        lo <= hi <= v@.len(),
    ensures
        final(out)@ == old(out)@ + v@.subrange(lo as int, hi as int),
{
    let mut i = lo;
    while i < hi
        invariant
            lo <= i <= hi <= v@.len(),
            out@ == old(out)@ + v@.subrange(lo as int, i as int),
        decreases hi - i,
    {
        string_push(out, v[i]);
        assert(v@.subrange(lo as int, i + 1) == v@.subrange(lo as int, i as int).push(v@[i as int]));
        i += 1;
    }
}

/// A new string holding `v[lo..hi]`.
pub fn string_from_chars(v: &Vec<char>, lo: usize, hi: usize) -> (r: String)
    requires
        lo <= hi <= v@.len(),
    ensures
        r@ == v@.subrange(lo as int, hi as int),
{
    let mut s = String::new();
    push_chars(&mut s, v, lo, hi);
    assert(s@ == Seq::<char>::empty() + v@.subrange(lo as int, hi as int));
    s
}

/// Appends a string slice.
pub fn push_str(out: &mut String, s: &str)
    ensures
        final(out)@ == old(out)@ + s@,
{
    out.append(s);
}

fn digit_to_char(d: u64) -> (c: char)
    requires
        d < 10,
    ensures
        c == digit_char(d as nat),
{
    let b: u8 = d as u8 + 48;
    b as char
}

/// Appends the decimal spelling of `n`.
pub fn push_u64(out: &mut String, n: u64)
    ensures
        final(out)@ == old(out)@ + dec(n as nat),
    decreases n,
{
    if n >= 10 {
        push_u64(out, n / 10);
    }
    let c = digit_to_char(n % 10);
    string_push(out, c);
    proof {
        if n >= 10 {
            assert(old(out)@ + dec((n / 10) as nat) + seq![c] == old(out)@ + dec(n as nat));
        } else {
            assert(old(out)@.push(c) == old(out)@ + dec(n as nat));
        }
    }
}

/// The decimal spelling of `n` as a new string.
pub fn u64_to_string(n: u64) -> (r: String)
    ensures
        r@ == dec(n as nat),
{
    let mut s = String::new();
    push_u64(&mut s, n);
    assert(s@ == Seq::<char>::empty() + dec(n as nat));
    s
}

/// Reads the ASCII digits `v[lo..hi]` as a number; `None` when the value does not fit in `usize`.
pub fn parse_digits(v: &Vec<char>, lo: usize, hi: usize) -> (r: Option<usize>)
    requires
        lo <= hi <= v@.len(),
        forall|i: int| lo <= i < hi ==> is_digit(#[trigger] v@[i]),
    ensures
        match r {
            Some(x) => x as nat == dec_value(v@.subrange(lo as int, hi as int)),
            None => dec_value(v@.subrange(lo as int, hi as int)) > usize::MAX,
        },
{
    let mut acc: usize = 0;
    let mut i = lo;
    while i < hi
        invariant
            lo <= i <= hi <= v@.len(),
            forall|k: int| lo <= k < hi ==> is_digit(#[trigger] v@[k]),
            acc as nat == dec_value(v@.subrange(lo as int, i as int)),
        decreases hi - i,
    {
        let c = v[i];
        let d: usize = (c as u32 - 48) as usize;
        assert(v@.subrange(lo as int, i + 1).drop_last() == v@.subrange(lo as int, i as int));
        assert(d as nat == digit_value(c));
        if acc > (usize::MAX - d) / 10 {
            proof {
                lemma_dec_value_monotone(v@.subrange(lo as int, hi as int), (i + 1 - lo) as int);
                assert(v@.subrange(lo as int, hi as int).subrange(0, (i + 1 - lo) as int)
                    == v@.subrange(lo as int, i + 1));
                assert(acc * 10 + d > usize::MAX) by (nonlinear_arith)
                    requires acc > (usize::MAX - d) / 10, d < 10;
            }
            return None;
        }
        assert(acc * 10 + d <= usize::MAX) by (nonlinear_arith)
            requires acc <= (usize::MAX - d) / 10, d < 10;
        acc = acc * 10 + d;
        i += 1;
    }
    Some(acc)
}

/// A prefix of a digit string never reads as more than the whole.
pub proof fn lemma_dec_value_monotone(ds: Seq<char>, k: int)
    requires
        0 <= k <= ds.len(),
    ensures
        dec_value(ds.subrange(0, k)) <= dec_value(ds),
    decreases ds.len() - k,
{
    if k < ds.len() {
        lemma_dec_value_monotone(ds, k + 1);
        assert(ds.subrange(0, k + 1).drop_last() == ds.subrange(0, k));
        assert(dec_value(ds.subrange(0, k)) <= dec_value(ds.subrange(0, k + 1)));
    } else {
        assert(ds.subrange(0, k) =~= ds);
    }
}


/// What `str::to_lowercase` gives for a string (Unicode lower-case mapping).
pub uninterp spec fn lowercase(s: Seq<char>) -> Seq<char>;

/// What `str::to_uppercase` gives for a string (Unicode upper-case mapping).
pub uninterp spec fn uppercase(s: Seq<char>) -> Seq<char>;

/// `str::to_lowercase`: the Unicode lower-case form of `s`, a function of `s` alone.
#[verifier::external_body]
pub(crate) fn to_lower(s: &str) -> (r: String)
    ensures
        r@ == lowercase(s@),
{
    s.to_lowercase()
}

/// Every character is ASCII.
pub open spec fn is_ascii_text(s: Seq<char>) -> bool {
    forall|i: int| 0 <= i < s.len() ==> (#[trigger] s[i] as u32) < 128
}

/// The upper-case form of an ASCII character: `a` to `z` become `A` to `Z`.
pub open spec fn ascii_upper_char(c: char) -> char {
    if 'a' <= c && c <= 'z' {
        ((c as u32 - 32) as u8) as char
    } else {
        c
    }
}

/// The upper-case form of a text: letter by letter for ASCII text, else
/// the Unicode mapping.
pub open spec fn upper_text(s: Seq<char>) -> Seq<char> {
    if is_ascii_text(s) {
        s.map_values(|c: char| ascii_upper_char(c))
    } else {
        uppercase(s)
    }
}

/// `str::to_uppercase`: the Unicode upper-case form of `s`, a function of `s`
/// alone; on ASCII text it upper-cases the letters `a` to `z` and keeps every
/// other character.
#[verifier::external_body]
pub(crate) fn to_upper(s: &str) -> (r: String)
    ensures
        r@ == uppercase(s@),
        r@ == upper_text(s@),
{
    s.to_uppercase()
}

/// Whether two strings hold the same characters.
pub fn str_eq(a: &str, b: &str) -> (r: bool)
    ensures
        r == (a@ == b@),
{
    let n = a.unicode_len();
    let m = b.unicode_len();
    if n != m {
        return false;
    }
    let mut i: usize = 0;
    while i < n
        invariant
            n == a@.len(),
            m == b@.len(),
            n == m,
            i <= n,
            forall|k: int| 0 <= k < i ==> a@[k] == b@[k],
        decreases n - i,
    {
        if a.get_char(i) != b.get_char(i) {
            return false;
        }
        i += 1;
    }
    assert(a@ =~= b@);
    true
}

/// A copy of an optional string.
pub fn clone_opt(o: &Option<String>) -> (r: Option<String>)
    ensures
        r == *o,
{
    match o {
        Some(s) => Some(s.clone()),
        None => None,
    }
}

/// The texts of a list of strings.
pub open spec fn views_of(v: Seq<String>) -> Seq<Seq<char>> {
    v.map_values(|x: String| x@)
}

} // verus!
