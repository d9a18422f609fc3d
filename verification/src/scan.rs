//! Text scanning: splitting source text into lines, whitespace-delimited
//! tokens, trimming, and single-quoted string literals.
//!
//! All byte values are ASCII codes: 9 is tab, 10 is line feed, 13 is carriage
//! return, 32 is space, 39 is the single quote.

use vstd::prelude::*;

verus! {

/// True of the ASCII whitespace bytes (tab through carriage return, space).
pub open spec fn is_ws(b: u8) -> bool {
    9 <= b <= 13 || b == 32
}

/// `s` without its leading whitespace bytes.
pub open spec fn drop_ws(s: Seq<u8>) -> Seq<u8>
    decreases s.len(),
{
    if s.len() > 0 && is_ws(s[0]) {
        drop_ws(s.skip(1))
    } else {
        s
    }
}

/// The longest non-whitespace prefix of `s`.
pub open spec fn tok_rec(s: Seq<u8>) -> Seq<u8>
    decreases s.len(),
{
    if s.len() > 0 && !is_ws(s[0]) {
        seq![s[0]] + tok_rec(s.skip(1))
    } else {
        Seq::empty()
    }
}

/// `s` without its longest non-whitespace prefix.
pub open spec fn rest_rec(s: Seq<u8>) -> Seq<u8>
    decreases s.len(),
{
    if s.len() > 0 && !is_ws(s[0]) {
        rest_rec(s.skip(1))
    } else {
        s
    }
}

/// The first whitespace-delimited token of `s` (empty if there is none).
pub open spec fn tok_of(s: Seq<u8>) -> Seq<u8> {
    tok_rec(drop_ws(s))
}

/// What follows the first token of `s`, starting at the whitespace after it.
pub open spec fn rest_of(s: Seq<u8>) -> Seq<u8> {
    rest_rec(drop_ws(s))
}

/// The second whitespace-delimited token of `s` (empty if there is none).
pub open spec fn tok2_of(s: Seq<u8>) -> Seq<u8> {
    tok_of(rest_of(s))
}

/// `s` without its trailing whitespace bytes.
pub open spec fn trim_end_rec(s: Seq<u8>) -> Seq<u8>
    decreases s.len(),
{
    if s.len() > 0 && is_ws(s.last()) {
        trim_end_rec(s.drop_last())
    } else {
        s
    }
}

/// `s` without leading and trailing whitespace.
pub open spec fn spec_trim(s: Seq<u8>) -> Seq<u8> {
    trim_end_rec(drop_ws(s))
}

/// A line before a line feed, with one carriage return dropped from its end.
pub open spec fn strip_cr(l: Seq<u8>) -> Seq<u8> {
    if l.len() > 0 && l.last() == 13 {
        l.drop_last()
    } else {
        l
    }
}

/// The lines of `src`: `cur` is the part of the current line read so far.
/// Lines end at a line feed (a carriage return just before it is dropped);
/// a final line without a terminating line feed still counts, so a trailing
/// line feed adds no empty last line.
pub open spec fn lines_rec(src: Seq<u8>, cur: Seq<u8>) -> Seq<Seq<u8>>
    decreases src.len(),
{
    if src.len() == 0 {
        if cur.len() == 0 {
            Seq::empty()
        } else {
            seq![cur]
        }
    } else if src[0] == 10 {
        seq![strip_cr(cur)] + lines_rec(src.skip(1), Seq::empty())
    } else {
        lines_rec(src.skip(1), cur.push(src[0]))
    }
}

/// The lines of a whole source text.
pub open spec fn spec_lines(src: Seq<u8>) -> Seq<Seq<u8>> {
    lines_rec(src, Seq::empty())
}

/// The views of a vector of byte vectors.
pub open spec fn views_of(l: Seq<Vec<u8>>) -> Seq<Seq<u8>> {
    l.map_values(|v: Vec<u8>| v@)
}

/// Looks for the opening quote of a string literal; the bytes between it and
/// the closing quote, or `None` if either quote is missing.
pub open spec fn scan_open(s: Seq<u8>) -> Option<Seq<u8>>
    decreases s.len(),
{
    if s.len() == 0 {
        None
    } else if s[0] == 39 {
        scan_content(s.skip(1))
    } else {
        scan_open(s.skip(1))
    }
}

/// The bytes of `s` before its first quote, or `None` if `s` has no quote.
pub open spec fn scan_content(s: Seq<u8>) -> Option<Seq<u8>>
    decreases s.len(),
{
    if s.len() == 0 {
        None
    } else if s[0] == 39 {
        Some(Seq::empty())
    } else {
        match scan_content(s.skip(1)) {
            Some(t) => Some(seq![s[0]] + t),
            None => None,
        }
    }
}

/// Splits source text into lines, as `spec_lines` describes.
pub fn split_lines(src: &[u8]) -> (lines: Vec<Vec<u8>>)
    ensures
        views_of(lines@) == spec_lines(src@),
{
    let mut lines: Vec<Vec<u8>> = Vec::new();
    let mut cur: Vec<u8> = Vec::new();
    let mut i: usize = 0;
    proof {
        assert(src@.skip(0) =~= src@);
        assert(spec_lines(src@) =~= views_of(lines@) + lines_rec(src@.skip(0), cur@));
    }
    while i < src.len()
        invariant
            i <= src@.len(),
            spec_lines(src@) == views_of(lines@) + lines_rec(src@.skip(i as int), cur@),
        decreases src@.len() - i,
    {
        let ghost prev_lines = lines@;
        let ghost prev_cur = cur@;
        let b = src[i];
        proof {
            assert(src@.skip(i as int)[0] == src@[i as int]);
            assert(src@.skip(i as int).skip(1) =~= src@.skip(i as int + 1));
        }
        if b == 10 {
            if cur.len() > 0 && cur[cur.len() - 1] == 13 {
                cur.pop();
                proof {
                    assert(cur@ =~= strip_cr(prev_cur));
                }
            }
            proof {
                assert(cur@ == strip_cr(prev_cur));
            }
            lines.push(cur);
            cur = Vec::new();
            proof {
                assert(views_of(lines@) =~= views_of(prev_lines).push(strip_cr(prev_cur)));
                assert(views_of(prev_lines) + (seq![strip_cr(prev_cur)] + lines_rec(
                    src@.skip(i as int + 1),
                    Seq::empty(),
                )) =~= views_of(lines@) + lines_rec(src@.skip(i as int + 1), cur@));
            }
        } else {
            cur.push(b);
        }
        i = i + 1;
    }
    proof {
        assert(src@.skip(i as int) =~= Seq::<u8>::empty());
    }
    if cur.len() > 0 {
        let ghost prev_lines = lines@;
        let ghost prev_cur = cur@;
        lines.push(cur);
        proof {
            assert(views_of(lines@) =~= views_of(prev_lines).push(prev_cur));
            assert(views_of(prev_lines) + seq![prev_cur] =~= views_of(lines@));
        }
    } else {
        proof {
            assert(views_of(lines@) + Seq::<Seq<u8>>::empty() =~= views_of(lines@));
        }
    }
    lines
}

/// Finds the first token of `l` at or after position `from`: returns the
/// bounds `(s, e)` of that token, with `s == e` when there is none.
pub fn first_token(l: &[u8], from: usize) -> (r: (usize, usize))
    requires
        from <= l@.len(),
    ensures
        from <= r.0 <= r.1 <= l@.len(),
        drop_ws(l@.skip(from as int)) == l@.skip(r.0 as int),
        tok_rec(l@.skip(r.0 as int)) == l@.subrange(r.0 as int, r.1 as int),
        rest_rec(l@.skip(r.0 as int)) == l@.skip(r.1 as int),
{
    let mut j: usize = from;
    while j < l.len() && is_ws_byte(l[j])
        invariant
            from <= j <= l@.len(),
            drop_ws(l@.skip(from as int)) == drop_ws(l@.skip(j as int)),
        decreases l@.len() - j,
    {
        proof {
            assert(l@.skip(j as int)[0] == l@[j as int]);
            assert(l@.skip(j as int).skip(1) =~= l@.skip(j as int + 1));
        }
        j = j + 1;
    }
    proof {
        if j == l@.len() {
            assert(l@.skip(j as int) =~= Seq::<u8>::empty());
        }
        assert(drop_ws(l@.skip(j as int)) == l@.skip(j as int));
    }
    let s = j;
    let mut k: usize = s;
    while k < l.len() && !is_ws_byte(l[k])
        invariant
            s <= k <= l@.len(),
            drop_ws(l@.skip(from as int)) == l@.skip(s as int),
            tok_rec(l@.skip(s as int)) == l@.subrange(s as int, k as int) + tok_rec(
                l@.skip(k as int),
            ),
            rest_rec(l@.skip(s as int)) == rest_rec(l@.skip(k as int)),
        decreases l@.len() - k,
    {
        proof {
            assert(l@.skip(k as int)[0] == l@[k as int]);
            assert(l@.skip(k as int).skip(1) =~= l@.skip(k as int + 1));
            assert(l@.subrange(s as int, k as int) + seq![l@[k as int]] =~= l@.subrange(
                s as int,
                k as int + 1,
            ));
        }
        k = k + 1;
    }
    proof {
        if k == l@.len() {
            assert(l@.skip(k as int) =~= Seq::<u8>::empty());
        }
        assert(tok_rec(l@.skip(k as int)) == Seq::<u8>::empty());
        assert(rest_rec(l@.skip(k as int)) == l@.skip(k as int));
        assert(l@.subrange(s as int, k as int) + Seq::<u8>::empty() =~= l@.subrange(
            s as int,
            k as int,
        ));
    }
    (s, k)
}

/// Executable test for `is_ws`.
pub fn is_ws_byte(b: u8) -> (r: bool)
    ensures
        r == is_ws(b),
{
    9 <= b && b <= 13 || b == 32
}

/// Finds the bounds `(a, b)` of `l` with leading and trailing whitespace
/// dropped, so that the trimmed text is `l[a..b]`.
pub fn trim_bounds(l: &[u8]) -> (r: (usize, usize))
    ensures
        r.0 <= r.1 <= l@.len(),
        spec_trim(l@) == l@.subrange(r.0 as int, r.1 as int),
{
    let mut j: usize = 0;
    proof {
        assert(l@.skip(0) =~= l@);
    }
    while j < l.len() && is_ws_byte(l[j])
        invariant
            j <= l@.len(),
            drop_ws(l@) == drop_ws(l@.skip(j as int)),
        decreases l@.len() - j,
    {
        proof {
            assert(l@.skip(j as int)[0] == l@[j as int]);
            assert(l@.skip(j as int).skip(1) =~= l@.skip(j as int + 1));
        }
        j = j + 1;
    }
    proof {
        if j == l@.len() {
            assert(l@.skip(j as int) =~= Seq::<u8>::empty());
        }
        assert(drop_ws(l@) == l@.skip(j as int));
    }
    let a = j;
    let ghost u = l@.skip(a as int);
    let mut b: usize = l.len();
    proof {
        assert(u.len() == l@.len() - a);
        assert(u.take(l@.len() - a) =~= u);
    }
    while b > a && is_ws_byte(l[b - 1])
        invariant
            a <= b <= l@.len(),
            u == l@.skip(a as int),
            trim_end_rec(u) == trim_end_rec(u.take(b - a)),
        decreases b,
    {
        proof {
            let t = u.take(b - a);
            assert(t.len() == b - a);
            assert(t.last() == u[b - a - 1]);
            assert(u[b - a - 1] == l@[b - 1]);
            assert(t.drop_last() =~= u.take(b - a - 1));
        }
        b = b - 1;
    }
    proof {
        if b == a {
            assert(u.take(0) =~= Seq::<u8>::empty());
        } else {
            assert(u.take(b - a).last() == l@[b - 1]);
        }
        assert(trim_end_rec(u.take(b - a)) == u.take(b - a));
        assert(u.take(b - a) =~= l@.subrange(a as int, b as int));
    }
    (a, b)
}

/// Copies the bytes `l[a..b]` into a fresh vector.
pub fn copy_range(l: &[u8], a: usize, b: usize) -> (v: Vec<u8>)
    requires
        a <= b <= l@.len(),
    ensures
        v@ == l@.subrange(a as int, b as int),
{
    let mut v: Vec<u8> = Vec::new();
    let mut m: usize = a;
    while m < b
        invariant
            a <= m <= b <= l@.len(),
            v@ == l@.subrange(a as int, m as int),
        decreases b - m,
    {
        v.push(l[m]);
        proof {
            assert(l@.subrange(a as int, m as int).push(l@[m as int]) =~= l@.subrange(
                a as int,
                m as int + 1,
            ));
        }
        m = m + 1;
    }
    proof {
        assert(v@ =~= l@.subrange(a as int, b as int));
    }
    v
}

/// True iff the two byte slices hold the same bytes.
pub fn bytes_eq(x: &[u8], y: &[u8]) -> (r: bool)
    ensures
        r == (x@ == y@),
{
    if x.len() != y.len() {
        return false;
    }
    let mut i: usize = 0;
    while i < x.len()
        invariant
            i <= x@.len(),
            x@.len() == y@.len(),
            forall|j: int| 0 <= j < i ==> x@[j] == y@[j],
        decreases x@.len() - i,
    {
        if x[i] != y[i] {
            return false;
        }
        i = i + 1;
    }
    proof {
        assert(x@ =~= y@);
    }
    true
}

/// Index of the first quote byte of `l`, if any; relates `scan_open` on the
/// whole of `l` to `scan_content` on what follows the quote.
pub fn find_open(l: &[u8]) -> (r: Option<usize>)
    ensures
        match r {
            Some(i) => i < l@.len() && l@[i as int] == 39 && scan_open(l@) == scan_content(
                l@.skip(i as int + 1),
            ),
            None => scan_open(l@) is None,
        },
{
    let mut j: usize = 0;
    proof {
        assert(l@.skip(0) =~= l@);
    }
    while j < l.len()
        invariant
            j <= l@.len(),
            scan_open(l@) == scan_open(l@.skip(j as int)),
        decreases l@.len() - j,
    {
        proof {
            assert(l@.skip(j as int)[0] == l@[j as int]);
            assert(l@.skip(j as int).skip(1) =~= l@.skip(j as int + 1));
        }
        if l[j] == 39 {
            return Some(j);
        }
        j = j + 1;
    }
    proof {
        assert(l@.skip(j as int) =~= Seq::<u8>::empty());
    }
    None
}

/// Index of the first quote byte of `l` at or after `from`, if any; the bytes
/// between `from` and that quote are the content `scan_content` yields.
pub fn find_close(l: &[u8], from: usize) -> (r: Option<usize>)
    requires
        from <= l@.len(),
    ensures
        match r {
            Some(j) => from <= j < l@.len() && l@[j as int] == 39 && scan_content(
                l@.skip(from as int),
            ) == Some(l@.subrange(from as int, j as int)),
            None => scan_content(l@.skip(from as int)) is None,
        },
{
    let mut k: usize = from;
    while k < l.len()
        invariant
            from <= k <= l@.len(),
            scan_content(l@.skip(from as int)) == (match scan_content(l@.skip(k as int)) {
                Some(t) => Some(l@.subrange(from as int, k as int) + t),
                None => None::<Seq<u8>>,
            }),
        decreases l@.len() - k,
    {
        proof {
            assert(l@.skip(k as int)[0] == l@[k as int]);
            assert(l@.skip(k as int).skip(1) =~= l@.skip(k as int + 1));
        }
        if l[k] == 39 {
            proof {
                assert(l@.subrange(from as int, k as int) + Seq::<u8>::empty() =~= l@.subrange(
                    from as int,
                    k as int,
                ));
            }
            return Some(k);
        }
        proof {
            if scan_content(l@.skip(k as int + 1)) is Some {
                let t = scan_content(l@.skip(k as int + 1)).unwrap();
                assert(l@.subrange(from as int, k as int) + (seq![l@[k as int]] + t)
                    =~= l@.subrange(from as int, k as int + 1) + t);
            }
        }
        k = k + 1;
    }
    proof {
        assert(l@.skip(k as int) =~= Seq::<u8>::empty());
    }
    None
}

} // verus!
