//! Character-level text operations on `Seq<char>`: whitespace and quote
//! trimming, line splitting, ASCII case folding, substring and subsequence
//! search, each with an executable counterpart that works on a `Vec<char>`
//! of the text.
use vstd::prelude::*;

verus! {

/// A class of characters that a trimming operation strips from both ends.
#[derive(Clone, Copy, PartialEq, Eq, Structural)]
pub enum Strip {
    /// Unicode `White_Space` characters, as `str::trim` strips them.
    Whitespace,
    /// The double quote `"`, as `str::trim_matches('"')` strips it.
    Quote,
}

/// Unicode `White_Space` (PropList.txt), the property that `char::is_whitespace`,
/// `str::trim` and `str::split_whitespace` go by.
pub open spec fn is_whitespace(c: char) -> bool {
    ||| ('\u{9}' <= c && c <= '\u{d}')
    ||| c == ' '
    ||| c == '\u{85}'
    ||| c == '\u{a0}'
    ||| c == '\u{1680}'
    ||| ('\u{2000}' <= c && c <= '\u{200a}')
    ||| c == '\u{2028}'
    ||| c == '\u{2029}'
    ||| c == '\u{202f}'
    ||| c == '\u{205f}'
    ||| c == '\u{3000}'
}

pub open spec fn strips(cls: Strip, c: char) -> bool {
    match cls {
        Strip::Whitespace => is_whitespace(c),
        Strip::Quote => c == '"',
    }
}

/// `s` without its leading characters of class `cls`.
pub open spec fn trim_start(s: Seq<char>, cls: Strip) -> Seq<char>
    decreases s.len(),
{
    if s.len() > 0 && strips(cls, s[0]) {
        trim_start(s.drop_first(), cls)
    } else {
        s
    }
}

/// `s` without its trailing characters of class `cls`.
pub open spec fn trim_end(s: Seq<char>, cls: Strip) -> Seq<char>
    decreases s.len(),
{
    if s.len() > 0 && strips(cls, s.last()) {
        trim_end(s.drop_last(), cls)
    } else {
        s
    }
}

/// `s` without its leading and trailing characters of class `cls`.
pub open spec fn trim_both(s: Seq<char>, cls: Strip) -> Seq<char> {
    trim_end(trim_start(s, cls), cls)
}

/// What `str::trim` gives back.
pub open spec fn trim(s: Seq<char>) -> Seq<char> {
    trim_both(s, Strip::Whitespace)
}

/// What `str::trim_matches('"')` gives back.
pub open spec fn trim_quotes(s: Seq<char>) -> Seq<char> {
    trim_both(s, Strip::Quote)
}

pub open spec fn starts_with(s: Seq<char>, p: Seq<char>) -> bool {
    p.len() <= s.len() && s.subrange(0, p.len() as int) == p
}

/// `n` occurs in `h` at position `i`.
pub open spec fn occurs_at(h: Seq<char>, n: Seq<char>, i: int) -> bool {
    0 <= i && i + n.len() <= h.len() && h.subrange(i, i + n.len()) == n
}

/// `n` is a substring of `h`, as `str::contains` decides it.
pub open spec fn contains(h: Seq<char>, n: Seq<char>) -> bool {
    exists|i: int| occurs_at(h, n, i)
}

/// `a` is a subsequence of `b`: the items of `a` occur in `b` in order, not
/// necessarily next to each other.
pub open spec fn is_subsequence<A>(a: Seq<A>, b: Seq<A>) -> bool
    decreases b.len(),
{
    if a.len() == 0 {
        true
    } else if b.len() == 0 {
        false
    } else {
        (a[0] == b[0] && is_subsequence(a.drop_first(), b.drop_first())) || is_subsequence(
            a,
            b.drop_first(),
        )
    }
}

/// Dropping the first item of a subsequence leaves a subsequence.
pub proof fn lemma_subsequence_drop_first<A>(a: Seq<A>, b: Seq<A>)
    requires
        a.len() > 0,
        is_subsequence(a, b),
    ensures
        is_subsequence(a.drop_first(), b),
    decreases b.len(),
{
    if a.drop_first().len() > 0 && b.len() > 0 {
        if !(a[0] == b[0] && is_subsequence(a.drop_first(), b.drop_first())) {
            lemma_subsequence_drop_first(a, b.drop_first());
        }
    }
}

/// Where `a` and `b` start alike, `a` is a subsequence of `b` exactly when
/// the rest of `a` is one of the rest of `b`: matching greedily loses nothing.
pub proof fn lemma_subsequence_greedy<A>(a: Seq<A>, b: Seq<A>)
    requires
        a.len() > 0,
        b.len() > 0,
        a[0] == b[0],
    ensures
        is_subsequence(a, b) == is_subsequence(a.drop_first(), b.drop_first()),
{
    if is_subsequence(a, b) && !is_subsequence(a.drop_first(), b.drop_first()) {
        lemma_subsequence_drop_first(a, b.drop_first());
    }
}

/// A subsequence of a subsequence of `c` is a subsequence of `c`.
pub proof fn lemma_subsequence_transitive<A>(a: Seq<A>, b: Seq<A>, c: Seq<A>)
    requires
        is_subsequence(a, b),
        is_subsequence(b, c),
    ensures
        is_subsequence(a, c),
    decreases c.len(),
{
    if a.len() > 0 {
        if b[0] == c[0] && is_subsequence(b.drop_first(), c.drop_first()) {
            if a[0] == b[0] && is_subsequence(a.drop_first(), b.drop_first()) {
                lemma_subsequence_transitive(a.drop_first(), b.drop_first(), c.drop_first());
            } else {
                lemma_subsequence_transitive(a, b.drop_first(), c.drop_first());
            }
        } else {
            lemma_subsequence_transitive(a, b, c.drop_first());
        }
    }
}

/// A subsequence stays one when an item is appended to the longer sequence.
pub proof fn lemma_subsequence_push_right<A>(a: Seq<A>, b: Seq<A>, x: A)
    requires
        is_subsequence(a, b),
    ensures
        is_subsequence(a, b.push(x)),
    decreases b.len(),
{
    if a.len() > 0 {
        let c = b.push(x);
        assert(c[0] == b[0]);
        assert(c.drop_first() =~= b.drop_first().push(x));
        if a[0] == b[0] && is_subsequence(a.drop_first(), b.drop_first()) {
            lemma_subsequence_push_right(a.drop_first(), b.drop_first(), x);
        } else {
            lemma_subsequence_push_right(a, b.drop_first(), x);
        }
    }
}

/// A subsequence stays one when the same item is appended to both.
pub proof fn lemma_subsequence_push_both<A>(a: Seq<A>, b: Seq<A>, x: A)
    requires
        is_subsequence(a, b),
    ensures
        is_subsequence(a.push(x), b.push(x)),
    decreases b.len(),
{
    let ax = a.push(x);
    let bx = b.push(x);
    if b.len() == 0 {
        assert(a.len() == 0);
        assert(ax[0] == bx[0]);
        assert(ax.drop_first().len() == 0);
        assert(is_subsequence(ax.drop_first(), bx.drop_first()));
    } else if a.len() == 0 {
        assert(bx.drop_first() =~= b.drop_first().push(x));
        lemma_subsequence_push_both(a, b.drop_first(), x);
        assert(is_subsequence(ax, bx.drop_first()));
        assert(ax.len() > 0 && bx.len() > 0);
    } else {
        assert(ax[0] == a[0]);
        assert(bx[0] == b[0]);
        assert(ax.drop_first() =~= a.drop_first().push(x));
        assert(bx.drop_first() =~= b.drop_first().push(x));
        if a[0] == b[0] && is_subsequence(a.drop_first(), b.drop_first()) {
            lemma_subsequence_push_both(a.drop_first(), b.drop_first(), x);
            assert(is_subsequence(ax.drop_first(), bx.drop_first()));
        } else {
            lemma_subsequence_push_both(a, b.drop_first(), x);
            assert(is_subsequence(ax, bx.drop_first()));
        }
    }
}

pub open spec fn lower_char(c: char) -> char {
    if 'A' <= c && c <= 'Z' {
        ((c as u32) + 32) as char
    } else {
        c
    }
}

/// ASCII case folding turns each capital letter `A` to `Z` into the small
/// letter at the same place of the alphabet, and leaves every other
/// character as it is.
pub proof fn lemma_lower_char_folds_capitals(c: char)
    ensures
        'A' <= c && c <= 'Z' ==> 'a' <= lower_char(c) && lower_char(c) <= 'z' && (lower_char(
            c,
        ) as u32) - ('a' as u32) == (c as u32) - ('A' as u32),
        !('A' <= c && c <= 'Z') ==> lower_char(c) == c,
        lower_char(c) != c ==> 'A' <= c && c <= 'Z',
{
}

/// Every sequence is a subsequence of itself.
pub proof fn lemma_subsequence_reflexive<A>(a: Seq<A>)
    ensures
        is_subsequence(a, a),
    decreases a.len(),
{
    if a.len() > 0 {
        lemma_subsequence_reflexive(a.drop_first());
    }
}

/// What `str::to_ascii_lowercase` gives back.
pub open spec fn ascii_lower(s: Seq<char>) -> Seq<char> {
    s.map_values(|c: char| lower_char(c))
}

/// Index of the first `c` in `s`, or `s.len()` where there is none.
pub open spec fn index_of_char(s: Seq<char>, c: char) -> nat
    decreases s.len(),
{
    if s.len() == 0 || s[0] == c {
        0
    } else {
        1 + index_of_char(s.drop_first(), c)
    }
}

/// Index of the first `'\n'` in `s`, or `s.len()` where there is none.
pub open spec fn newline_index(s: Seq<char>) -> nat {
    index_of_char(s, '\n')
}

pub open spec fn strip_cr(s: Seq<char>) -> Seq<char> {
    if s.len() > 0 && s.last() == '\r' {
        s.drop_last()
    } else {
        s
    }
}

/// What `str::lines` yields: the text split at each `'\n'`, a `'\r'` just
/// before a `'\n'` removed, and no empty line after a final `'\n'`.
pub open spec fn lines(s: Seq<char>) -> Seq<Seq<char>>
    decreases s.len(),
{
    if s.len() == 0 {
        seq![]
    } else {
        let k = newline_index(s);
        if k < s.len() {
            seq![strip_cr(s.subrange(0, k as int))] + lines(s.subrange(k + 1 as int, s.len() as int))
        } else {
            seq![s]
        }
    }
}

/// The abstract values of a list of strings.
pub open spec fn strings_view(v: Seq<String>) -> Seq<Seq<char>> {
    v.map_values(|s: String| s@)
}

/// The text of `text[from..to]`, counted in characters.
pub fn slice_string(text: &str, from: usize, to: usize) -> (r: String)
    requires
        from <= to <= text@.len(),
    ensures
        r@ == text@.subrange(from as int, to as int),
{
    text.substring_char(from, to).to_owned()
}

/// The characters of a string, in order.
pub fn to_chars(s: &str) -> (v: Vec<char>)
    ensures
        v@ == s@,
{
    let mut v: Vec<char> = Vec::new();
    for c in it: s.chars()
        invariant
            it.seq() == s@,
            v@ == it.seq().take(it.index() as int),
    {
        v.push(c);
    }
    v
}

pub fn is_whitespace_char(c: char) -> (r: bool)
    ensures
        r == is_whitespace(c),
{
    ('\u{9}' <= c && c <= '\u{d}') || c == ' ' || c == '\u{85}' || c == '\u{a0}' || c
        == '\u{1680}' || ('\u{2000}' <= c && c <= '\u{200a}') || c == '\u{2028}' || c
        == '\u{2029}' || c == '\u{202f}' || c == '\u{205f}' || c == '\u{3000}'
}

pub fn strips_char(cls: Strip, c: char) -> (r: bool)
    ensures
        r == strips(cls, c),
{
    match cls {
        Strip::Whitespace => is_whitespace_char(c),
        Strip::Quote => c == '"',
    }
}

pub fn lower_char_exec(c: char) -> (r: char)
    ensures
        r == lower_char(c),
{
    if 'A' <= c && c <= 'Z' {
        ((c as u8) + 32) as char
    } else {
        c
    }
}

pub fn ascii_lower_chars(v: &Vec<char>) -> (r: Vec<char>)
    ensures
        r@ == ascii_lower(v@),
{
    let mut r: Vec<char> = Vec::new();
    for i in 0..v.len()
        invariant
            r@ == ascii_lower(v@.take(i as int)),
    {
        let c = lower_char_exec(v[i]);
        proof {
            assert(ascii_lower(v@.take(i + 1)) =~= ascii_lower(v@.take(i as int)).push(
                lower_char(v@[i as int]),
            ));
        }
        r.push(c);
    }
    proof {
        assert(v@.take(v.len() as int) =~= v@);
    }
    r
}

proof fn lemma_trim_start_at(s: Seq<char>, cls: Strip, k: int)
    requires
        0 <= k <= s.len(),
        forall|i: int| 0 <= i < k ==> strips(cls, #[trigger] s[i]),
        k < s.len() ==> !strips(cls, s[k]),
    ensures
        trim_start(s, cls) == s.subrange(k, s.len() as int),
    decreases k,
{
    if k == 0 {
        assert(s.subrange(0, s.len() as int) =~= s);
    } else {
        let t = s.drop_first();
        assert forall|i: int| 0 <= i < k - 1 implies strips(cls, #[trigger] t[i]) by {
            assert(t[i] == s[i + 1]);
        }
        if k - 1 < t.len() {
            assert(t[k - 1] == s[k]);
        }
        lemma_trim_start_at(t, cls, k - 1);
        assert(t.subrange(k - 1, t.len() as int) =~= s.subrange(k, s.len() as int));
        assert(strips(cls, s[0]));
    }
}

proof fn lemma_trim_end_at(s: Seq<char>, cls: Strip, k: int)
    requires
        0 <= k <= s.len(),
        forall|i: int| k <= i < s.len() ==> strips(cls, #[trigger] s[i]),
        k > 0 ==> !strips(cls, s[k - 1]),
    ensures
        trim_end(s, cls) == s.subrange(0, k),
    decreases s.len() - k,
{
    if k == s.len() {
        assert(s.subrange(0, k) =~= s);
    } else {
        let t = s.drop_last();
        assert(strips(cls, s[s.len() - 1]));
        assert forall|i: int| k <= i < t.len() implies strips(cls, #[trigger] t[i]) by {
            assert(t[i] == s[i]);
        }
        if k > 0 {
            assert(t[k - 1] == s[k - 1]);
        }
        lemma_trim_end_at(t, cls, k);
        assert(t.subrange(0, k) =~= s.subrange(0, k));
    }
}

/// Bounds of `v[lo..hi]` with the characters of class `cls` stripped from
/// both ends.
pub fn trim_range(v: &Vec<char>, lo: usize, hi: usize, cls: Strip) -> (r: (usize, usize))
    requires
        lo <= hi <= v.len(),
    ensures
        lo <= r.0 <= r.1 <= hi,
        v@.subrange(r.0 as int, r.1 as int) == trim_both(v@.subrange(lo as int, hi as int), cls),
{
    let mut a = lo;
    while a < hi && strips_char(cls, v[a])
        invariant
            lo <= a <= hi <= v.len(),
            forall|i: int| lo <= i < a ==> strips(cls, #[trigger] v@[i]),
        decreases hi - a,
    {
        a = a + 1;
    }
    let mut b = hi;
    while b > a && strips_char(cls, v[b - 1])
        invariant
            lo <= a <= b <= hi <= v.len(),
            forall|i: int| b <= i < hi ==> strips(cls, #[trigger] v@[i]),
        decreases b - a,
    {
        b = b - 1;
    }
    proof {
        let s = v@.subrange(lo as int, hi as int);
        assert forall|i: int| 0 <= i < a - lo implies strips(cls, #[trigger] s[i]) by {
            assert(s[i] == v@[lo + i]);
        }
        if a - lo < s.len() {
            assert(s[a - lo] == v@[a as int]);
        }
        lemma_trim_start_at(s, cls, a - lo);
        let t = v@.subrange(a as int, hi as int);
        assert(s.subrange(a - lo, s.len() as int) =~= t);
        assert forall|i: int| b - a <= i < t.len() implies strips(cls, #[trigger] t[i]) by {
            assert(t[i] == v@[a + i]);
        }
        if b > a {
            assert(t[b - a - 1] == v@[b - 1]);
        }
        lemma_trim_end_at(t, cls, b - a);
        assert(t.subrange(0, b - a) =~= v@.subrange(a as int, b as int));
    }
    (a, b)
}

/// Whether `v[lo..hi]` equals `p`.
pub fn range_equals(v: &Vec<char>, lo: usize, hi: usize, p: &Vec<char>) -> (r: bool)
    requires
        lo <= hi <= v.len(),
    ensures
        r == (v@.subrange(lo as int, hi as int) == p@),
{
    if hi - lo != p.len() {
        return false;
    }
    let mut i: usize = 0;
    while i < p.len()
        invariant
            hi - lo == p.len(),
            lo <= hi <= v.len(),
            i <= p.len(),
            forall|j: int| 0 <= j < i ==> v@[lo + j] == p@[j],
        decreases p.len() - i,
    {
        if v[lo + i] != p[i] {
            proof {
                assert(v@.subrange(lo as int, hi as int)[i as int] != p@[i as int]);
            }
            return false;
        }
        i = i + 1;
    }
    proof {
        assert(v@.subrange(lo as int, hi as int) =~= p@);
    }
    true
}

/// Whether `v[lo..hi]` starts with `p`.
pub fn range_starts_with(v: &Vec<char>, lo: usize, hi: usize, p: &Vec<char>) -> (r: bool)
    requires
        lo <= hi <= v.len(),
    ensures
        r == starts_with(v@.subrange(lo as int, hi as int), p@),
{
    if p.len() > hi - lo {
        return false;
    }
    let r = range_equals(v, lo, lo + p.len(), p);
    proof {
        assert(v@.subrange(lo as int, hi as int).subrange(0, p@.len() as int) =~= v@.subrange(
            lo as int,
            lo + p@.len(),
        ));
    }
    r
}

/// Whether `n` is a substring of `h`.
pub fn contains_chars(h: &Vec<char>, n: &Vec<char>) -> (r: bool)
    ensures
        r == contains(h@, n@),
{
    if n.len() > h.len() {
        proof {
            assert forall|i: int| !occurs_at(h@, n@, i) by {}
        }
        return false;
    }
    let last = h.len() - n.len();
    let mut i: usize = 0;
    while i < last
        invariant
            last == h.len() - n.len(),
            n.len() <= h.len(),
            i <= last,
            forall|j: int| 0 <= j < i ==> !occurs_at(h@, n@, j),
        decreases last - i,
    {
        if range_equals(h, i, i + n.len(), n) {
            proof {
                assert(occurs_at(h@, n@, i as int));
            }
            return true;
        }
        i = i + 1;
    }
    if range_equals(h, last, h.len(), n) {
        proof {
            assert(occurs_at(h@, n@, last as int));
        }
        return true;
    }
    proof {
        assert forall|j: int| !occurs_at(h@, n@, j) by {
            if 0 <= j < last {
            }
        }
    }
    false
}

/// Whether `a` is a subsequence of `b`.
pub fn is_subsequence_chars(a: &Vec<char>, b: &Vec<char>) -> (r: bool)
    ensures
        r == is_subsequence(a@, b@),
{
    let mut i: usize = 0;
    let mut j: usize = 0;
    proof {
        assert(a@.skip(0) =~= a@);
        assert(b@.skip(0) =~= b@);
    }
    while i < b.len()
        invariant
            i <= b.len(),
            j <= a.len(),
            is_subsequence(a@, b@) == is_subsequence(a@.skip(j as int), b@.skip(i as int)),
        decreases b.len() - i,
    {
        let ghost s = a@.skip(j as int);
        let ghost t = b@.skip(i as int);
        proof {
            assert(t[0] == b@[i as int]);
            assert(t.drop_first() =~= b@.skip(i + 1));
        }
        if j < a.len() && a[j] == b[i] {
            proof {
                assert(s[0] == a@[j as int]);
                assert(s.drop_first() =~= a@.skip(j + 1));
                lemma_subsequence_greedy(s, t);
            }
            j = j + 1;
        }
        i = i + 1;
    }
    j == a.len()
}

/// Index of the first `c` in `v[from..]`, or `v.len()` where there is none.
pub fn find_char(v: &Vec<char>, from: usize, c: char) -> (k: usize)
    requires
        from <= v.len(),
    ensures
        from <= k <= v.len(),
        k < v.len() ==> v@[k as int] == c,
        forall|i: int| from <= i < k ==> v@[i] != c,
{
    let mut k = from;
    while k < v.len() && v[k] != c
        invariant
            from <= k <= v.len(),
            forall|i: int| from <= i < k ==> v@[i] != c,
        decreases v.len() - k,
    {
        k = k + 1;
    }
    k
}

/// The first `c` of `s` is at `m` when none comes before `m` and `s[m]`
/// is `c` (or `m` is the end of `s`).
pub proof fn lemma_index_of_char(s: Seq<char>, c: char, m: int)
    requires
        0 <= m <= s.len(),
        forall|i: int| 0 <= i < m ==> s[i] != c,
        m < s.len() ==> s[m] == c,
    ensures
        index_of_char(s, c) == m,
    decreases m,
{
    if m > 0 {
        let t = s.drop_first();
        assert forall|i: int| 0 <= i < m - 1 implies t[i] != c by {
            assert(t[i] == s[i + 1]);
        }
        if m - 1 < t.len() {
            assert(t[m - 1] == s[m]);
        }
        lemma_index_of_char(t, c, m - 1);
        assert(s[0] != c);
    }
}

/// One step of `lines`: for a text whose next newline after `p` is at `k`,
/// the lines of `v[p..]` are the line `v[p..k]` (less a final `'\r'` where a
/// newline ends it) followed by the lines after the newline.
pub proof fn lemma_lines_step(v: Seq<char>, p: int, k: int)
    requires
        0 <= p < k <= v.len() || (0 <= p == k < v.len()),
        k < v.len() ==> v[k] == '\n',
        forall|i: int| p <= i < k ==> v[i] != '\n',
    ensures
        k < v.len() ==> lines(v.subrange(p, v.len() as int)) == seq![
            strip_cr(v.subrange(p, k)),
        ] + lines(v.subrange(k + 1, v.len() as int)),
        k == v.len() ==> lines(v.subrange(p, v.len() as int)) == seq![v.subrange(p, k)],
{
    let s = v.subrange(p, v.len() as int);
    assert forall|i: int| 0 <= i < k - p implies s[i] != '\n' by {
        assert(s[i] == v[p + i]);
    }
    if k - p < s.len() {
        assert(s[k - p] == v[k]);
    }
    lemma_index_of_char(s, '\n', k - p);
    assert(s.subrange(0, k - p) =~= v.subrange(p, k));
    if k < v.len() {
        assert(s.subrange(k - p + 1, s.len() as int) =~= v.subrange(k + 1, v.len() as int));
    }
}

} // verus!
