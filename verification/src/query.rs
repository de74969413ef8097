//! Query parameters of playlist requests: `codecs`, `tracks`, `interleave`.

use vstd::prelude::*;
use crate::text::{chars_of, dec_value, is_digit, parse_digits, str_eq, string_from_chars};
use crate::subtitle::{trimmed, trim_string};

verus! {

/// The pieces of `s` between commas (one piece when there is no comma).
pub open spec fn split_commas(s: Seq<char>) -> Seq<Seq<char>>
    decreases s.len(),
{
    if s.len() == 0 {
        seq![Seq::empty()]
    } else {
        let r = split_commas(s.drop_last());
        if s.last() == ',' {
            r.push(Seq::empty())
        } else {
            r.update(r.len() - 1, r.last().push(s.last()))
        }
    }
}

proof fn lemma_split_nonempty(s: Seq<char>)
    ensures
        split_commas(s).len() >= 1,
    decreases s.len(),
{
    if s.len() > 0 {
        lemma_split_nonempty(s.drop_last());
    }
}

/// The pieces of `s` between commas, as strings.
pub fn split_on_commas(s: &str) -> (r: Vec<Vec<char>>)
    ensures
        r@.len() == split_commas(s@).len(),
        forall|k: int| 0 <= k < r@.len() ==> (#[trigger] r@[k])@ == split_commas(s@)[k],
{
    let v = chars_of(s);
    let n = v.len();
    let mut out: Vec<Vec<char>> = Vec::new();
    let mut cur: Vec<char> = Vec::new();
    let mut i: usize = 0;
    assert(s@.subrange(0, 0) =~= Seq::<char>::empty());
    while i < n
        invariant
            v@ == s@,
            n == v@.len(),
            i <= n,
            out@.len() + 1 == split_commas(s@.subrange(0, i as int)).len(),
            forall|k: int| 0 <= k < out@.len() ==> (#[trigger] out@[k])@ == split_commas(s@.subrange(0, i as int))[k],
            cur@ == split_commas(s@.subrange(0, i as int)).last(),
        decreases n - i,
    {
        proof {
            lemma_split_nonempty(s@.subrange(0, i as int));
            assert(s@.subrange(0, i + 1).drop_last() =~= s@.subrange(0, i as int));
        }
        let c = v[i];
        if c == ',' {
            out.push(cur);
            cur = Vec::new();
        } else {
            cur.push(c);
        }
        i += 1;
    }
    out.push(cur);
    proof {
        assert(s@.subrange(0, n as int) =~= s@);
        lemma_split_nonempty(s@);
    }
    out
}

/// The text after an optional leading `+`.
pub open spec fn unsigned_digits(s: Seq<char>) -> Seq<char> {
    if s.len() > 0 && s[0] == '+' {
        s.drop_first()
    } else {
        s
    }
}

pub open spec fn all_digits(d: Seq<char>) -> bool {
    forall|i: int| 0 <= i < d.len() ==> is_digit(#[trigger] d[i])
}

/// What `usize::from_str` gives: an optional `+`, then one or more ASCII
/// digits whose value fits.
pub open spec fn parse_usize(s: Seq<char>) -> Option<usize> {
    let d = unsigned_digits(s);
    if d.len() == 0 || !all_digits(d) {
        None
    } else if dec_value(d) > usize::MAX {
        None
    } else {
        Some(dec_value(d) as usize)
    }
}

pub fn parse_usize_text(s: &Vec<char>) -> (r: Option<usize>)
    ensures
        r == parse_usize(s@),
{
    let n = s.len();
    let start: usize = if n > 0 && s[0] == '+' { 1 } else { 0 };
    let ghost d = if s@.len() > 0 && s@[0] == '+' { s@.drop_first() } else { s@ };
    assert(d =~= s@.subrange(start as int, n as int));
    if start == n {
        return None;
    }
    let mut k = start;
    while k < n
        invariant
            n == s@.len(),
            start <= k <= n,
            d == s@.subrange(start as int, n as int),
            d == unsigned_digits(s@),
            d.len() > 0,
            forall|j: int| start <= j < k ==> is_digit(#[trigger] s@[j]),
        decreases n - k,
    {
        if !(s[k] >= '0' && s[k] <= '9') {
            assert(!is_digit(d[k - start]));
            assert(!all_digits(d));
            return None;
        }
        k += 1;
    }
    assert forall|i: int| 0 <= i < d.len() implies is_digit(#[trigger] d[i]) by {
        assert(d[i] == s@[start + i]);
    }
    parse_digits(s, start, n)
}

/// The numbers among the comma-separated pieces of a `tracks` parameter;
/// pieces that are not numbers are skipped.
pub open spec fn tracks_of(pieces: Seq<Seq<char>>, n: nat) -> Seq<usize>
    decreases n,
{
    if n == 0 {
        Seq::empty()
    } else {
        tracks_of(pieces, (n - 1) as nat) + match parse_usize(pieces[n - 1]) {
            Some(x) => seq![x],
            None => Seq::empty(),
        }
    }
}

pub fn parse_tracks_param(s: &str) -> (r: Vec<usize>)
    ensures
        r@ == tracks_of(split_commas(s@), split_commas(s@).len()),
{
    let pieces = split_on_commas(s);
    let m = pieces.len();
    let mut out: Vec<usize> = Vec::new();
    let mut k: usize = 0;
    while k < m
        invariant
            m == pieces@.len(),
            m == split_commas(s@).len(),
            forall|j: int| 0 <= j < m ==> (#[trigger] pieces@[j])@ == split_commas(s@)[j],
            k <= m,
            out@ == tracks_of(split_commas(s@), k as nat),
        decreases m - k,
    {
        match parse_usize_text(&pieces[k]) {
            Some(x) => {
                out.push(x);
            },
            None => {},
        }
        assert(out@ =~= tracks_of(split_commas(s@), (k + 1) as nat));
        k += 1;
    }
    out
}

/// The comma-separated codec names of a `codecs` parameter, each trimmed.
pub fn parse_codecs_param(s: &str) -> (r: Vec<String>)
    ensures
        r@.len() == split_commas(s@).len(),
        forall|k: int| 0 <= k < r@.len() ==> (#[trigger] r@[k])@ == trimmed(split_commas(s@)[k]),
{
    let pieces = split_on_commas(s);
    let m = pieces.len();
    let mut out: Vec<String> = Vec::new();
    let mut k: usize = 0;
    while k < m
        invariant
            m == pieces@.len(),
            m == split_commas(s@).len(),
            forall|j: int| 0 <= j < m ==> (#[trigger] pieces@[j])@ == split_commas(s@)[j],
            k <= m,
            out@.len() == k,
            forall|j: int| 0 <= j < k ==> (#[trigger] out@[j])@ == trimmed(split_commas(s@)[j]),
        decreases m - k,
    {
        let piece = string_from_chars(&pieces[k], 0, pieces[k].len());
        assert(pieces@[k as int]@.subrange(0, pieces@[k as int]@.len() as int) =~= pieces@[k as int]@);
        out.push(trim_string(piece.as_str()));
        k += 1;
    }
    out
}

/// Whether an `interleave` parameter asks for interleaving: `true` or `1`.
pub fn interleave_requested(v: Option<&str>) -> (r: bool)
    ensures
        r == match v {
            Some(x) => x@ == "true"@ || x@ == "1"@,
            None => false,
        },
{
    match v {
        Some(x) => str_eq(x, "true") || str_eq(x, "1"),
        None => false,
    }
}

/// A request path with a leading `/` (added when missing).
pub fn rooted_path(path: &str) -> (r: String)
    ensures
        r@ == if path@.len() > 0 && path@[0] == '/' { path@ } else { seq!['/'] + path@ },
{
    let n = path.unicode_len();
    if n > 0 && path.get_char(0) == '/' {
        String::from_str(path)
    } else {
        let mut out = String::new();
        crate::text::string_push(&mut out, '/');
        crate::text::push_str(&mut out, path);
        assert(out@ =~= seq!['/'] + path@);
        out
    }
}

} // verus!
