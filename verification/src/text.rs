//! Character-level text utilities: Unicode white space, trimming,
//! white-space collapsing, substring search and UTF-8 widths.
//!
//! Text is handled as `Vec<char>`; its view is the `Seq<char>` of a
//! `String` holding the same characters.
use vstd::prelude::*;

verus! {

/// The Unicode `White_Space` property, which is what `char::is_whitespace`,
/// `str::trim` and `str::split_whitespace` test.
pub open spec fn is_white_space(c: char) -> bool {
    let u = c as u32;
    ||| 0x9 <= u <= 0xd
    ||| u == 0x20
    ||| u == 0x85
    ||| u == 0xa0
    ||| u == 0x1680
    ||| 0x2000 <= u <= 0x200a
    ||| u == 0x2028
    ||| u == 0x2029
    ||| u == 0x202f
    ||| u == 0x205f
    ||| u == 0x3000
}

pub fn white_space(c: char) -> (r: bool)
    ensures
        r == is_white_space(c),
{
    let u = c as u32;
    (0x9 <= u && u <= 0xd) || u == 0x20 || u == 0x85 || u == 0xa0 || u == 0x1680 || (0x2000
        <= u && u <= 0x200a) || u == 0x2028 || u == 0x2029 || u == 0x202f || u == 0x205f || u
        == 0x3000
}

/// `s` with its leading white space removed.
pub open spec fn trim_start(s: Seq<char>) -> Seq<char>
    decreases s.len(),
{
    if s.len() > 0 && is_white_space(s[0]) {
        trim_start(s.drop_first())
    } else {
        s
    }
}

/// `s` with its trailing white space removed.
pub open spec fn trim_end(s: Seq<char>) -> Seq<char>
    decreases s.len(),
{
    if s.len() > 0 && is_white_space(s.last()) {
        trim_end(s.drop_last())
    } else {
        s
    }
}

/// `s` with white space removed at both ends, as `str::trim` does.
pub open spec fn trim(s: Seq<char>) -> Seq<char> {
    trim_end(trim_start(s))
}

/// Every maximal run of white space in `s` replaced by one space.
pub open spec fn squeeze(s: Seq<char>) -> Seq<char>
    decreases s.len(),
{
    if s.len() == 0 {
        seq![]
    } else if is_white_space(s[0]) {
        proof {
            lemma_trim_start_len(s.drop_first());
        }
        seq![' '] + squeeze(trim_start(s.drop_first()))
    } else {
        seq![s[0]] + squeeze(s.drop_first())
    }
}

/// The words of `s` (its white-space separated pieces) joined by single
/// spaces: what `s.split_whitespace().collect::<Vec<_>>().join(" ")` gives.
pub open spec fn collapse_white_space(s: Seq<char>) -> Seq<char> {
    squeeze(trim(s))
}

/// `needle` occurs in `hay` as a contiguous piece (`str::contains`).
pub open spec fn contains_seq(hay: Seq<char>, needle: Seq<char>) -> bool {
    exists|i: int|
        0 <= i && i + needle.len() <= hay.len() && #[trigger] hay.subrange(i, i + needle.len())
            == needle
}

/// Some word of `words` occurs in `s`.
pub open spec fn contains_any(s: Seq<char>, words: Seq<Seq<char>>) -> bool {
    exists|k: int| 0 <= k < words.len() && contains_seq(s, #[trigger] words[k])
}

/// The number of bytes of the UTF-8 encoding of `c` (`char::len_utf8`).
pub open spec fn utf8_width(c: char) -> nat {
    let u = c as u32;
    if u < 0x80 {
        1
    } else if u < 0x800 {
        2
    } else if u < 0x10000 {
        3
    } else {
        4
    }
}

/// The number of bytes of the UTF-8 encoding of `s` (`str::len`).
pub open spec fn utf8_len(s: Seq<char>) -> nat
    decreases s.len(),
{
    if s.len() == 0 {
        0
    } else {
        utf8_width(s[0]) + utf8_len(s.drop_first())
    }
}

pub proof fn lemma_trim_start_len(s: Seq<char>)
    ensures
        trim_start(s).len() <= s.len(),
    decreases s.len(),
{
    if s.len() > 0 && is_white_space(s[0]) {
        lemma_trim_start_len(s.drop_first());
    }
}

/// Skipping a run of white space does not change `trim_start`.
proof fn lemma_trim_start_skip(s: Seq<char>, i: int)
    requires
        0 <= i <= s.len(),
        forall|k: int| 0 <= k < i ==> is_white_space(#[trigger] s[k]),
    ensures
        trim_start(s) == trim_start(s.subrange(i, s.len() as int)),
    decreases i,
{
    if i > 0 {
        assert(s.drop_first().subrange(i - 1, s.len() - 1) =~= s.subrange(i, s.len() as int));
        lemma_trim_start_skip(s.drop_first(), i - 1);
    } else {
        assert(s.subrange(0, s.len() as int) =~= s);
    }
}

/// Dropping a run of trailing white space does not change `trim_end`.
proof fn lemma_trim_end_take(s: Seq<char>, j: int)
    requires
        0 <= j <= s.len(),
        forall|k: int| j <= k < s.len() ==> is_white_space(#[trigger] s[k]),
    ensures
        trim_end(s) == trim_end(s.subrange(0, j)),
    decreases s.len() - j,
{
    if j < s.len() {
        assert(s.drop_last().subrange(0, j) =~= s.subrange(0, j));
        lemma_trim_end_take(s.drop_last(), j);
    } else {
        assert(s.subrange(0, j) =~= s);
    }
}

/// Index of the first character of `s[from..]` that is not white space, or
/// `s.len()` if there is none.
fn skip_white_space(s: &Vec<char>, from: usize) -> (r: usize)
    requires
        from <= s.len(),
    ensures
        from <= r <= s.len(),
        forall|k: int| from <= k < r ==> is_white_space(#[trigger] s@[k]),
        r < s.len() ==> !is_white_space(s@[r as int]),
{
    let mut i = from;
    while i < s.len()
        invariant
            from <= i <= s.len(),
            forall|k: int| from <= k < i ==> is_white_space(#[trigger] s@[k]),
        decreases s.len() - i,
    {
        if !white_space(s[i]) {
            return i;
        }
        i = i + 1;
    }
    i
}

/// One past the last character of `s[lo..]` that is not white space, or
/// `lo` if there is none.
fn last_non_white_space_end(s: &Vec<char>, lo: usize) -> (r: usize)
    requires
        lo <= s.len(),
    ensures
        lo <= r <= s.len(),
        forall|k: int| r <= k < s.len() ==> is_white_space(#[trigger] s@[k]),
        r > lo ==> !is_white_space(s@[r - 1]),
{
    let mut b = s.len();
    while b > lo
        invariant
            lo <= b <= s.len(),
            forall|k: int| b <= k < s.len() ==> is_white_space(#[trigger] s@[k]),
        decreases b,
    {
        if !white_space(s[b - 1]) {
            return b;
        }
        b = b - 1;
    }
    b
}

/// The characters `s[lo..hi]`.
pub fn slice_chars(s: &Vec<char>, lo: usize, hi: usize) -> (r: Vec<char>)
    requires
        lo <= hi <= s.len(),
    ensures
        r@ == s@.subrange(lo as int, hi as int),
{
    let mut out: Vec<char> = Vec::new();
    let mut i = lo;
    while i < hi
        invariant
            lo <= i <= hi <= s.len(),
            out@ == s@.subrange(lo as int, i as int),
        decreases hi - i,
    {
        out.push(s[i]);
        i = i + 1;
        assert(out@ =~= s@.subrange(lo as int, i as int));
    }
    out
}

/// `str::trim` on characters.
pub fn trim_chars(s: &Vec<char>) -> (r: Vec<char>)
    ensures
        r@ == trim(s@),
{
    let a = skip_white_space(s, 0);
    proof {
        lemma_trim_start_skip(s@, a as int);
    }
    let ghost t = s@.subrange(a as int, s.len() as int);
    assert(trim_start(t) == t) by {
        if t.len() > 0 {
            assert(t[0] == s@[a as int]);
        }
    }
    let b = last_non_white_space_end(s, a);
    proof {
        assert forall|k: int| b - a <= k < t.len() implies is_white_space(#[trigger] t[k]) by {
            assert(t[k] == s@[a + k]);
        }
        lemma_trim_end_take(t, b - a);
        let u = t.subrange(0, b - a);
        assert(u =~= s@.subrange(a as int, b as int));
        if u.len() > 0 {
            assert(u.last() == s@[b - 1]);
        }
        assert(trim_end(u) == u);
    }
    slice_chars(s, a, b)
}

/// `s.split_whitespace().collect::<Vec<_>>().join(" ")` on characters.
pub fn collapse_white_space_chars(s: &Vec<char>) -> (r: Vec<char>)
    ensures
        r@ == collapse_white_space(s@),
{
    let t = trim_chars(s);
    let mut out: Vec<char> = Vec::new();
    let mut i: usize = 0;
    assert(t@.subrange(0, t.len() as int) =~= t@);
    assert(out@ + squeeze(t@) =~= squeeze(t@));
    while i < t.len()
        invariant
            i <= t.len(),
            squeeze(t@) == out@ + squeeze(t@.subrange(i as int, t.len() as int)),
        decreases t.len() - i,
    {
        let ghost rest = t@.subrange(i as int, t.len() as int);
        assert(rest[0] == t@[i as int]);
        assert(rest.drop_first() =~= t@.subrange(i + 1, t.len() as int));
        if white_space(t[i]) {
            let j = skip_white_space(&t, i + 1);
            proof {
                let d = rest.drop_first();
                assert forall|k: int| 0 <= k < j - (i + 1) implies is_white_space(#[trigger] d[k]) by {
                    assert(d[k] == t@[i + 1 + k]);
                }
                lemma_trim_start_skip(d, j - (i + 1));
                assert(d.subrange(j - (i + 1), d.len() as int) =~= t@.subrange(
                    j as int,
                    t.len() as int,
                ));
                let e = t@.subrange(j as int, t.len() as int);
                if e.len() > 0 {
                    assert(e[0] == t@[j as int]);
                }
                assert(trim_start(e) == e);
            }
            let ghost prev = out@;
            out.push(' ');
            assert(prev + squeeze(rest) =~= out@ + squeeze(t@.subrange(j as int, t.len() as int)));
            i = j;
        } else {
            let ghost prev = out@;
            out.push(t[i]);
            i = i + 1;
            assert(prev + squeeze(rest) =~= out@ + squeeze(t@.subrange(i as int, t.len() as int)));
        }
    }
    assert(t@.subrange(t.len() as int, t.len() as int) =~= Seq::<char>::empty());
    assert(out@ + Seq::<char>::empty() =~= out@);
    out
}

/// Does `needle` occur in `hay` starting at `at`?
fn occurs_at(hay: &Vec<char>, needle: &Vec<char>, at: usize) -> (r: bool)
    requires
        at + needle.len() <= hay.len(),
    ensures
        r == (hay@.subrange(at as int, at + needle.len()) == needle@),
{
    let mut k: usize = 0;
    while k < needle.len()
        invariant
            k <= needle.len(),
            at + needle.len() <= hay.len(),
            forall|m: int| 0 <= m < k ==> hay@[at + m] == needle@[m],
        decreases needle.len() - k,
    {
        if hay[at + k] != needle[k] {
            assert(hay@.subrange(at as int, at + needle.len())[k as int] != needle@[k as int]);
            return false;
        }
        k = k + 1;
    }
    assert(hay@.subrange(at as int, at + needle.len()) =~= needle@);
    true
}

/// `str::contains` with a string pattern, on characters.
pub fn contains_chars(hay: &Vec<char>, needle: &Vec<char>) -> (r: bool)
    ensures
        r == contains_seq(hay@, needle@),
{
    if needle.len() > hay.len() {
        return false;
    }
    let last = hay.len() - needle.len();
    let mut i: usize = 0;
    while i <= last
        invariant
            last + needle.len() == hay.len(),
            forall|m: int|
                0 <= m < i ==> #[trigger] hay@.subrange(m, m + needle.len()) != needle@,
        decreases last + 1 - i,
    {
        if occurs_at(hay, needle, i) {
            return true;
        }
        if i == last {
            return false;
        }
        i = i + 1;
    }
    false
}

/// Does some word of `words` occur in `s`?
pub fn contains_any_chars(s: &Vec<char>, words: &Vec<Vec<char>>) -> (r: bool)
    ensures
        r == contains_any(s@, words@.map_values(|w: Vec<char>| w@)),
{
    let ghost ws = words@.map_values(|w: Vec<char>| w@);
    let mut k: usize = 0;
    while k < words.len()
        invariant
            k <= words.len(),
            ws == words@.map_values(|w: Vec<char>| w@),
            forall|m: int| 0 <= m < k ==> !contains_seq(s@, #[trigger] ws[m]),
        decreases words.len() - k,
    {
        if contains_chars(s, &words[k]) {
            assert(ws[k as int] == words@[k as int]@);
            return true;
        }
        k = k + 1;
    }
    false
}

/// `char::len_utf8`.
pub fn char_utf8_width(c: char) -> (r: usize)
    ensures
        r == utf8_width(c),
{
    let u = c as u32;
    if u < 0x80 {
        1
    } else if u < 0x800 {
        2
    } else if u < 0x10000 {
        3
    } else {
        4
    }
}

/// The characters of `s`.
pub fn chars_of(s: &str) -> (r: Vec<char>)
    ensures
        r@ == s@,
{
    let mut out: Vec<char> = Vec::new();
    for c in it: s.chars()
        invariant
            out@ == it.seq().take(it.index() as int),
            it.seq() == s@,
    {
        out.push(c);
    }
    out
}

/// Collects characters into a `String` (`FromIterator<&char> for String`).
#[verifier::external_body]
pub(crate) fn string_from_chars(chars: &Vec<char>) -> (r: String)
    ensures
        r@ == chars@,
{
    chars.iter().collect()
}

/// Do `a` and `b` hold the same characters?
pub fn chars_equal(a: &Vec<char>, b: &Vec<char>) -> (r: bool)
    ensures
        r == (a@ == b@),
{
    if a.len() != b.len() {
        return false;
    }
    let mut i: usize = 0;
    while i < a.len()
        invariant
            i <= a.len(),
            a.len() == b.len(),
            forall|k: int| 0 <= k < i ==> a@[k] == b@[k],
        decreases a.len() - i,
    {
        if a[i] != b[i] {
            return false;
        }
        i = i + 1;
    }
    assert(a@ =~= b@);
    true
}

proof fn lemma_trim_start_shape(x: Seq<char>)
    ensures
        trim_start(x).len() > 0 ==> trim_start(x).last() == x.last() && !is_white_space(
            trim_start(x)[0],
        ),
        trim_start(x).len() == 0 ==> forall|i: int| 0 <= i < x.len() ==> is_white_space(#[trigger] x[i]),
    decreases x.len(),
{
    if x.len() > 0 && is_white_space(x[0]) {
        lemma_trim_start_shape(x.drop_first());
        if trim_start(x).len() == 0 {
            assert forall|i: int| 0 <= i < x.len() implies is_white_space(#[trigger] x[i]) by {
                if i > 0 {
                    assert(x[i] == x.drop_first()[i - 1]);
                }
            }
        }
    }
}

proof fn lemma_trim_end_shape(x: Seq<char>)
    ensures
        trim_end(x).len() > 0 ==> trim_end(x)[0] == x[0] && !is_white_space(trim_end(x).last()),
    decreases x.len(),
{
    if x.len() > 0 && is_white_space(x.last()) {
        lemma_trim_end_shape(x.drop_last());
    }
}

/// Trimming a trimmed text changes nothing.
pub proof fn lemma_trim_idempotent(s: Seq<char>)
    ensures
        trim(trim(s)) == trim(s),
{
    let t = trim(s);
    lemma_trim_start_shape(s);
    lemma_trim_end_shape(trim_start(s));
    if t.len() > 0 {
        assert(trim_start(t) == t);
        assert(trim_end(t) == t);
    } else {
        assert(trim_start(t) == t);
        assert(trim_end(t) == t);
    }
}

/// White space in `x` is single spaces, each followed by a character that
/// is not white space.
pub open spec fn single_spaced(x: Seq<char>) -> bool {
    forall|i: int|
        0 <= i < x.len() && is_white_space(#[trigger] x[i]) ==> x[i] == ' ' && (i + 1 < x.len()
            ==> !is_white_space(x[i + 1]))
}

proof fn lemma_squeeze_shape(s: Seq<char>)
    ensures
        single_spaced(squeeze(s)),
        squeeze(s).len() == 0 <==> s.len() == 0,
        squeeze(s).len() > 0 ==> (is_white_space(squeeze(s)[0]) <==> is_white_space(s[0])),
        squeeze(s).len() > 0 ==> (is_white_space(squeeze(s).last()) <==> is_white_space(s.last())),
    decreases s.len(),
{
    if s.len() > 0 {
        if is_white_space(s[0]) {
            let u = trim_start(s.drop_first());
            lemma_trim_start_len(s.drop_first());
            lemma_trim_start_shape(s.drop_first());
            lemma_squeeze_shape(u);
            let r = squeeze(s);
            let t = squeeze(u);
            assert(r == seq![' '] + t);
            assert forall|i: int| 0 <= i < r.len() && is_white_space(#[trigger] r[i]) implies r[i] == ' ' && (i + 1 < r.len() ==> !is_white_space(r[i + 1])) by {
                if i == 0 {
                    if r.len() > 1 {
                        assert(r[1] == t[0]);
                    }
                } else {
                    assert(r[i] == t[i - 1]);
                    if i + 1 < r.len() {
                        assert(r[i + 1] == t[i]);
                    }
                }
            }
            if t.len() > 0 {
                assert(r.last() == t.last());
            } else if s.len() > 1 {
                assert(is_white_space(s.drop_first()[s.len() - 2]));
            }
        } else {
            let u = s.drop_first();
            lemma_squeeze_shape(u);
            let r = squeeze(s);
            let t = squeeze(u);
            assert(r == seq![s[0]] + t);
            assert forall|i: int| 0 <= i < r.len() && is_white_space(#[trigger] r[i]) implies r[i] == ' ' && (i + 1 < r.len() ==> !is_white_space(r[i + 1])) by {
                assert(i > 0);
                assert(r[i] == t[i - 1]);
                if i + 1 < r.len() {
                    assert(r[i + 1] == t[i]);
                }
            }
            if t.len() > 0 {
                assert(r.last() == t.last());
                assert(u.last() == s.last());
            }
        }
    }
}

/// Collapsed text has no white space at either end, and inside it only
/// single spaces, each followed by a character that is not white space.
pub proof fn law_collapsed_text_is_single_spaced(s: Seq<char>)
    ensures
        single_spaced(collapse_white_space(s)),
        collapse_white_space(s).len() > 0 ==> !is_white_space(collapse_white_space(s)[0])
            && !is_white_space(collapse_white_space(s).last()),
{
    let t = trim(s);
    lemma_trim_start_shape(s);
    lemma_trim_end_shape(trim_start(s));
    lemma_squeeze_shape(t);
}

} // verus!
