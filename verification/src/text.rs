//! Character-level text helpers shared by the parsers and formatters.

use vstd::prelude::*;

verus! {

/// The Unicode `White_Space` property, which `char::is_whitespace` tests and
/// `str::trim` strips.
pub open spec fn is_white_space(c: char) -> bool {
    let u = c as u32;
    ||| 0x09 <= u <= 0x0D
    ||| u == 0x20
    ||| u == 0x85
    ||| u == 0xA0
    ||| u == 0x1680
    ||| 0x2000 <= u <= 0x200A
    ||| u == 0x2028
    ||| u == 0x2029
    ||| u == 0x202F
    ||| u == 0x205F
    ||| u == 0x3000
}

pub fn is_white_space_exec(c: char) -> (r: bool)
    ensures
        r == is_white_space(c),
{
    let u = c as u32;
    (0x09 <= u && u <= 0x0D) || u == 0x20 || u == 0x85 || u == 0xA0 || u == 0x1680 || (0x2000
        <= u && u <= 0x200A) || u == 0x2028 || u == 0x2029 || u == 0x202F || u == 0x205F || u
        == 0x3000
}

/// Number of leading characters of `s` that satisfy `p`.
pub open spec fn leading_count(s: Seq<char>, p: spec_fn(char) -> bool) -> nat
    decreases s.len(),
{
    if s.len() > 0 && p(s[0]) {
        1 + leading_count(s.drop_first(), p)
    } else {
        0
    }
}

/// Number of trailing characters of `s` that satisfy `p`.
pub open spec fn trailing_count(s: Seq<char>, p: spec_fn(char) -> bool) -> nat
    decreases s.len(),
{
    if s.len() > 0 && p(s.last()) {
        1 + trailing_count(s.drop_last(), p)
    } else {
        0
    }
}

pub proof fn lemma_leading_count(s: Seq<char>, p: spec_fn(char) -> bool, i: int)
    requires
        0 <= i <= s.len(),
        forall|j: int| 0 <= j < i ==> p(#[trigger] s[j]),
        i == s.len() || !p(s[i]),
    ensures
        leading_count(s, p) == i,
    decreases i,
{
    if i > 0 {
        let t = s.drop_first();
        assert forall|j: int| 0 <= j < i - 1 implies p(#[trigger] t[j]) by {
            assert(t[j] == s[j + 1]);
        }
        if i < s.len() {
            assert(t[i - 1] == s[i]);
        }
        lemma_leading_count(t, p, i - 1);
    }
}

pub proof fn lemma_trailing_count(s: Seq<char>, p: spec_fn(char) -> bool, k: int)
    requires
        0 <= k <= s.len(),
        forall|j: int| s.len() - k <= j < s.len() ==> p(#[trigger] s[j]),
        k == s.len() || !p(s[s.len() - k - 1]),
    ensures
        trailing_count(s, p) == k,
    decreases k,
{
    if k > 0 {
        let t = s.drop_last();
        assert forall|j: int| t.len() - (k - 1) <= j < t.len() implies p(#[trigger] t[j]) by {
            assert(t[j] == s[j]);
        }
        if k < s.len() {
            assert(t[t.len() - (k - 1) - 1] == s[s.len() - k - 1]);
        }
        assert(p(s[s.len() - 1]));
        lemma_trailing_count(t, p, k - 1);
    }
}

pub open spec fn not_white_space() -> spec_fn(char) -> bool {
    |c: char| !is_white_space(c)
}

pub open spec fn white_space() -> spec_fn(char) -> bool {
    |c: char| is_white_space(c)
}

/// `str::trim`: the text without leading and trailing white space.
pub open spec fn trim(s: Seq<char>) -> Seq<char> {
    let t = s.skip(leading_count(s, white_space()) as int);
    t.take(t.len() - trailing_count(t, white_space()))
}

/// The characters of a string slice, in order.
pub fn chars_of(s: &str) -> (v: Vec<char>)
    ensures
        v@ == s@,
{
    let n = s.unicode_len();
    let mut v: Vec<char> = Vec::new();
    for i in 0..n
        invariant
            n == s@.len(),
            v@ == s@.take(i as int),
    {
        let c = s.get_char(i);
        v.push(c);
        assert(s@.take(i + 1) =~= s@.take(i as int).push(c));
    }
    assert(s@.take(n as int) =~= s@);
    v
}

/// Bounds `(a, b)` of the trimmed part of `v`.
pub fn trim_bounds(v: &Vec<char>) -> (r: (usize, usize))
    ensures
        r.0 <= r.1 <= v.len(),
        v@.subrange(r.0 as int, r.1 as int) == trim(v@),
{
    let n = v.len();
    let mut a: usize = 0;
    while a < n && is_white_space_exec(v[a])
        invariant
            n == v.len(),
            a <= n,
            forall|j: int| 0 <= j < a ==> is_white_space(#[trigger] v@[j]),
        decreases n - a,
    {
        a = a + 1;
    }
    proof {
        lemma_leading_count(v@, white_space(), a as int);
    }
    let mut b: usize = n;
    while b > a && is_white_space_exec(v[b - 1])
        invariant
            n == v.len(),
            a <= b <= n,
            forall|j: int| b <= j < n ==> is_white_space(#[trigger] v@[j]),
        decreases b - a,
    {
        b = b - 1;
    }
    proof {
        let t = v@.skip(a as int);
        assert forall|j: int| t.len() - (n - b) <= j < t.len() implies white_space()(
            #[trigger] t[j],
        ) by {
            assert(t[j] == v@[a + j]);
        }
        if b > a {
            assert(t[t.len() - (n - b) - 1] == v@[b - 1]);
        }
        lemma_trailing_count(t, white_space(), (n - b) as int);
        assert(v@.subrange(a as int, b as int) =~= t.take(t.len() - (n - b)));
    }
    (a, b)
}

/// Appends one character (`String::push`).
#[verifier::external_body]
pub(crate) fn push_char(s: &mut String, c: char)
    ensures
        final(s)@ == old(s)@.push(c),
{
    s.push(c);
}

/// A string holding exactly the given characters.
pub fn string_from_chars(v: &Vec<char>, start: usize, end: usize) -> (s: String)
    requires
        start <= end <= v.len(),
    ensures
        s@ == v@.subrange(start as int, end as int),
{
    let mut s = String::new();
    let mut i = start;
    while i < end
        invariant
            start <= i <= end <= v.len(),
            s@ == v@.subrange(start as int, i as int),
        decreases end - i,
    {
        push_char(&mut s, v[i]);
        assert(v@.subrange(start as int, i + 1) =~= v@.subrange(start as int, i as int).push(
            v@[i as int],
        ));
        i = i + 1;
    }
    s
}

/// `leading_count` of a slice `v[start..end]`, from a scan that stopped at `i`.
pub proof fn lemma_leading_count_sub(
    v: Seq<char>,
    start: int,
    end: int,
    i: int,
    p: spec_fn(char) -> bool,
)
    requires
        0 <= start <= i <= end <= v.len(),
        forall|j: int| start <= j < i ==> p(#[trigger] v[j]),
        i == end || !p(v[i]),
    ensures
        leading_count(v.subrange(start, end), p) == i - start,
{
    let s = v.subrange(start, end);
    assert forall|j: int| 0 <= j < i - start implies p(#[trigger] s[j]) by {
        assert(s[j] == v[start + j]);
    }
    if i < end {
        assert(s[i - start] == v[i]);
    }
    lemma_leading_count(s, p, i - start);
}

pub open spec fn eq_char(c: char) -> spec_fn(char) -> bool {
    |x: char| x == c
}

pub open spec fn neither_char(c1: char, c2: char) -> spec_fn(char) -> bool {
    |x: char| x != c1 && x != c2
}

/// First index from `start` whose character is not `c` (or `end`).
pub fn skip_char(v: &Vec<char>, start: usize, end: usize, c: char) -> (i: usize)
    requires
        start <= end <= v.len(),
    ensures
        start <= i <= end,
        i - start == leading_count(v@.subrange(start as int, end as int), eq_char(c)),
{
    let mut i = start;
    while i < end && v[i] == c
        invariant
            start <= i <= end <= v.len(),
            forall|j: int| start <= j < i ==> eq_char(c)(#[trigger] v@[j]),
        decreases end - i,
    {
        i = i + 1;
    }
    proof {
        lemma_leading_count_sub(v@, start as int, end as int, i as int, eq_char(c));
    }
    i
}

/// First index from `start` whose character is `c1` or `c2` (or `end`).
pub fn find_either(v: &Vec<char>, start: usize, end: usize, c1: char, c2: char) -> (i: usize)
    requires
        start <= end <= v.len(),
    ensures
        start <= i <= end,
        i - start == leading_count(v@.subrange(start as int, end as int), neither_char(c1, c2)),
        i < end ==> (v@[i as int] == c1 || v@[i as int] == c2),
{
    let mut i = start;
    while i < end && v[i] != c1 && v[i] != c2
        invariant
            start <= i <= end <= v.len(),
            forall|j: int| start <= j < i ==> neither_char(c1, c2)(#[trigger] v@[j]),
        decreases end - i,
    {
        i = i + 1;
    }
    proof {
        lemma_leading_count_sub(v@, start as int, end as int, i as int, neither_char(c1, c2));
    }
    i
}

/// `char::to_ascii_lowercase`.
pub open spec fn ascii_lower(c: char) -> char {
    if 'A' <= c && c <= 'Z' {
        ((c as u32) + 32) as char
    } else {
        c
    }
}

pub fn ascii_lower_exec(c: char) -> (r: char)
    ensures
        r == ascii_lower(c),
{
    if 'A' <= c && c <= 'Z' {
        ((c as u8) + 32u8) as char
    } else {
        c
    }
}

/// The text with ASCII capitals lowered.
pub open spec fn lowered(s: Seq<char>) -> Seq<char> {
    s.map_values(|c: char| ascii_lower(c))
}

/// `str::contains` for a string pattern.
pub open spec fn contains(h: Seq<char>, n: Seq<char>) -> bool {
    exists|i: int| 0 <= i && i + n.len() <= h.len() && #[trigger] h.subrange(i, i + n.len()) == n
}

pub fn lowered_chars(s: &str) -> (v: Vec<char>)
    ensures
        v@ == lowered(s@),
{
    let c = chars_of(s);
    let mut v: Vec<char> = Vec::new();
    for i in 0..c.len()
        invariant
            c@ == s@,
            v@ == lowered(s@).take(i as int),
    {
        v.push(ascii_lower_exec(c[i]));
        assert(lowered(s@).take(i + 1) =~= lowered(s@).take(i as int).push(ascii_lower(c@[i as int])));
    }
    assert(lowered(s@).take(c.len() as int) =~= lowered(s@));
    v
}

/// Whether `h` contains the text `needle`.
pub fn contains_exec(h: &Vec<char>, needle: &str) -> (r: bool)
    ensures
        r == contains(h@, needle@),
{
    let k = chars_of(needle);
    if k.len() > h.len() {
        return false;
    }
    let last = h.len() - k.len();
    let mut i: usize = 0;
    while i <= last
        invariant
            k@ == needle@,
            last == h.len() - k.len(),
            i <= last + 1,
            forall|j: int| 0 <= j < i ==> #[trigger] h@.subrange(j, j + k.len()) != k@,
        decreases last + 1 - i,
    {
        let mut j: usize = 0;
        let mut same = true;
        while j < k.len()
            invariant
                i <= last,
                last == h.len() - k.len(),
                j <= k.len(),
                same == (forall|m: int| 0 <= m < j ==> h@[i + m] == k@[m]),
            decreases k.len() - j,
        {
            if h[i + j] != k[j] {
                same = false;
            }
            j = j + 1;
        }
        if same {
            assert(h@.subrange(i as int, i + k.len()) =~= k@);
            return true;
        }
        assert(h@.subrange(i as int, i + k.len()) != k@) by {
            let m = choose|m: int| 0 <= m < k.len() && h@[i + m] != k@[m];
            assert(h@.subrange(i as int, i + k.len())[m] == h@[i + m]);
        }
        i = i + 1;
    }
    proof {
        if contains(h@, needle@) {
            let w = choose|w: int|
                0 <= w && w + k@.len() <= h@.len() && #[trigger] h@.subrange(w, w + k@.len())
                    == k@;
            assert(h@.subrange(w, w + k.len()) != k@);
        }
    }
    false
}

/// Whether `v[start..end]` is exactly the text `lit`.
pub fn slice_is(v: &Vec<char>, start: usize, end: usize, lit: &str) -> (r: bool)
    requires
        start <= end <= v.len(),
    ensures
        r == (v@.subrange(start as int, end as int) == lit@),
{
    let k = chars_of(lit);
    if end - start != k.len() {
        return false;
    }
    let n = k.len();
    let mut i: usize = 0;
    while i < n
        invariant
            k@ == lit@,
            n == k.len() == end - start,
            start <= end <= v.len(),
            i <= n,
            forall|j: int| 0 <= j < i ==> v@[start + j] == k@[j],
        decreases n - i,
    {
        if v[start + i] != k[i] {
            assert(v@.subrange(start as int, end as int)[i as int] == v@[start + i]);
            return false;
        }
        i = i + 1;
    }
    assert(v@.subrange(start as int, end as int) =~= k@);
    true
}

/// Whether `s` is exactly the text `lit`.
pub fn string_is(s: &str, lit: &str) -> (r: bool)
    ensures
        r == (s@ == lit@),
{
    let v = chars_of(s);
    assert(v@.subrange(0, v.len() as int) =~= v@);
    slice_is(&v, 0, v.len(), lit)
}

/// What `leading_count` counts: a run of characters satisfying `p`, ended
/// by the end of the text or by one that does not.
pub proof fn lemma_leading_count_props(s: Seq<char>, p: spec_fn(char) -> bool)
    ensures
        leading_count(s, p) <= s.len(),
        forall|j: int| 0 <= j < leading_count(s, p) ==> p(#[trigger] s[j]),
        leading_count(s, p) == s.len() || !p(s[leading_count(s, p) as int]),
    decreases s.len(),
{
    if s.len() > 0 && p(s[0]) {
        let t = s.drop_first();
        lemma_leading_count_props(t, p);
        assert forall|j: int| 0 <= j < leading_count(s, p) implies p(#[trigger] s[j]) by {
            if j > 0 {
                assert(s[j] == t[j - 1]);
            }
        }
        if leading_count(t, p) < t.len() {
            assert(s[leading_count(s, p) as int] == t[leading_count(t, p) as int]);
        }
    }
}

/// What `trailing_count` counts: a run at the end of characters satisfying
/// `p`, preceded by the start of the text or by one that does not.
pub proof fn lemma_trailing_count_props(s: Seq<char>, p: spec_fn(char) -> bool)
    ensures
        trailing_count(s, p) <= s.len(),
        forall|j: int| s.len() - trailing_count(s, p) <= j < s.len() ==> p(#[trigger] s[j]),
        trailing_count(s, p) == s.len() || !p(s[s.len() - trailing_count(s, p) - 1]),
    decreases s.len(),
{
    if s.len() > 0 && p(s.last()) {
        let t = s.drop_last();
        lemma_trailing_count_props(t, p);
        assert forall|j: int| s.len() - trailing_count(s, p) <= j < s.len() implies p(
            #[trigger] s[j],
        ) by {
            if j < s.len() - 1 {
                assert(s[j] == t[j]);
            }
        }
        if trailing_count(t, p) < t.len() {
            assert(s[s.len() - trailing_count(s, p) - 1] == t[t.len() - trailing_count(t, p) - 1]);
        }
    }
}

/// Appending text after a run that already ended leaves its count alone.
pub proof fn lemma_leading_count_append(a: Seq<char>, w: Seq<char>, p: spec_fn(char) -> bool)
    requires
        leading_count(a, p) < a.len() || w.len() == 0 || !p(w[0]),
    ensures
        leading_count(a + w, p) == leading_count(a, p),
{
    lemma_leading_count_props(a, p);
    let i = leading_count(a, p) as int;
    assert forall|j: int| 0 <= j < i implies p(#[trigger] (a + w)[j]) by {
        assert((a + w)[j] == a[j]);
    }
    if i < a.len() {
        assert((a + w)[i] == a[i]);
    } else if w.len() > 0 {
        assert((a + w)[i] == w[0]);
    } else {
        assert(a + w =~= a);
    }
    lemma_leading_count(a + w, p, i);
}

/// Prepending text before a run that already started leaves its count
/// alone.
pub proof fn lemma_trailing_count_prepend(v: Seq<char>, s: Seq<char>, p: spec_fn(char) -> bool)
    requires
        trailing_count(s, p) < s.len() || v.len() == 0 || !p(v.last()),
    ensures
        trailing_count(v + s, p) == trailing_count(s, p),
{
    lemma_trailing_count_props(s, p);
    let k = trailing_count(s, p) as int;
    let vs = v + s;
    assert forall|j: int| vs.len() - k <= j < vs.len() implies p(#[trigger] vs[j]) by {
        assert(vs[j] == s[j - v.len()]);
    }
    if k < s.len() {
        assert(vs[vs.len() - k - 1] == s[s.len() - k - 1]);
    } else if v.len() > 0 {
        assert(vs[vs.len() - k - 1] == v.last());
    } else {
        assert(vs =~= s);
    }
    lemma_trailing_count(vs, p, k);
}

} // verus!
