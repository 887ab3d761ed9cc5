//! Character-level text operations: whitespace, trimming, searching, splitting
//! and comparing, each stated over `Seq<char>`.
use vstd::prelude::*;

verus! {

/// The Unicode `White_Space` property, which `char::is_whitespace` tests.
pub open spec fn is_ws(c: char) -> bool {
    ||| ('\u{9}' <= c && c <= '\u{d}')
    ||| c == ' '
    ||| c == '\u{85}'
    ||| c == '\u{a0}'
    ||| c == '\u{1680}'
    ||| ('\u{2000}' <= c && c <= '\u{200a}')
    ||| c == '\u{2028}'
    ||| c == '\u{2029}'
    ||| c == '\u{202f}'
    ||| c == '\u{205f}'
    ||| c == '\u{3000}'
}

/// Executable whitespace test.
pub fn is_whitespace(c: char) -> (r: bool)
    ensures
        r == is_ws(c),
{
    ('\u{9}' <= c && c <= '\u{d}') || c == ' ' || c == '\u{85}' || c == '\u{a0}' || c == '\u{1680}'
        || ('\u{2000}' <= c && c <= '\u{200a}') || c == '\u{2028}' || c == '\u{2029}'
        || c == '\u{202f}' || c == '\u{205f}' || c == '\u{3000}'
}

/// Number of whitespace characters at the start of `s`.
pub open spec fn lead_ws(s: Seq<char>) -> nat
    decreases s.len(),
{
    if s.len() > 0 && is_ws(s[0]) {
        1 + lead_ws(s.drop_first())
    } else {
        0
    }
}

/// Number of whitespace characters at the end of `s`.
pub open spec fn trail_ws(s: Seq<char>) -> nat
    decreases s.len(),
{
    if s.len() > 0 && is_ws(s.last()) {
        1 + trail_ws(s.drop_last())
    } else {
        0
    }
}

/// `s` without its leading whitespace (`str::trim_start`).
pub open spec fn trim_start(s: Seq<char>) -> Seq<char> {
    s.skip(lead_ws(s) as int)
}

/// `s` without its trailing whitespace (`str::trim_end`).
pub open spec fn trim_end(s: Seq<char>) -> Seq<char> {
    s.take(s.len() - trail_ws(s))
}

/// `s` without leading and trailing whitespace (`str::trim`).
pub open spec fn trim(s: Seq<char>) -> Seq<char> {
    trim_end(trim_start(s))
}

/// The leading whitespace of `s` is whitespace and is followed by a character
/// that is not.
pub proof fn lemma_lead_ws(s: Seq<char>)
    ensures
        lead_ws(s) <= s.len(),
        forall|k: int| 0 <= k < lead_ws(s) ==> is_ws(#[trigger] s[k]),
        lead_ws(s) < s.len() ==> !is_ws(s[lead_ws(s) as int]),
    decreases s.len(),
{
    if s.len() > 0 && is_ws(s[0]) {
        lemma_lead_ws(s.drop_first());
        assert forall|k: int| 0 <= k < lead_ws(s) implies is_ws(#[trigger] s[k]) by {
            if k > 0 {
                assert(s[k] == s.drop_first()[k - 1]);
            }
        }
    }
}

/// The trailing whitespace of `s` is whitespace and is preceded by a character
/// that is not.
pub proof fn lemma_trail_ws(s: Seq<char>)
    ensures
        trail_ws(s) <= s.len(),
        forall|k: int| s.len() - trail_ws(s) <= k < s.len() ==> is_ws(#[trigger] s[k]),
        trail_ws(s) < s.len() ==> !is_ws(s[s.len() - trail_ws(s) - 1]),
    decreases s.len(),
{
    if s.len() > 0 && is_ws(s.last()) {
        lemma_trail_ws(s.drop_last());
        assert forall|k: int| s.len() - trail_ws(s) <= k < s.len() implies is_ws(#[trigger] s[k]) by {
            if k < s.len() - 1 {
                assert(s[k] == s.drop_last()[k]);
            }
        }
    }
}

/// The leading whitespace of `s` ends at the first position not holding whitespace.
pub proof fn lemma_lead_ws_unique(s: Seq<char>, i: int)
    requires
        0 <= i <= s.len(),
        forall|k: int| 0 <= k < i ==> is_ws(#[trigger] s[k]),
        i < s.len() ==> !is_ws(s[i]),
    ensures
        lead_ws(s) == i,
{
    lemma_lead_ws(s);
}

/// The trailing whitespace of `s` starts after the last position not holding whitespace.
pub proof fn lemma_trail_ws_unique(s: Seq<char>, i: int)
    requires
        0 <= i <= s.len(),
        forall|k: int| i <= k < s.len() ==> is_ws(#[trigger] s[k]),
        i > 0 ==> !is_ws(s[i - 1]),
    ensures
        trail_ws(s) == s.len() - i,
{
    lemma_trail_ws(s);
}

/// Bounds `(lo, hi)` such that `s[lo..hi]` is `trim(s)`.
pub fn trim_bounds(s: &[char]) -> (r: (usize, usize))
    ensures
        r.0 <= r.1 <= s@.len(),
        r.0 == lead_ws(s@),
        s@.subrange(r.0 as int, r.1 as int) == trim(s@),
        s@.subrange(r.0 as int, s@.len() as int) == trim_start(s@),
{
    let n = s.len();
    let mut lo: usize = 0;
    while lo < n && is_whitespace(s[lo])
        invariant
            lo <= n == s@.len(),
            forall|k: int| 0 <= k < lo ==> is_ws(#[trigger] s@[k]),
        decreases n - lo,
    {
        lo = lo + 1;
    }
    proof {
        lemma_lead_ws_unique(s@, lo as int);
    }
    let ghost t = trim_start(s@);
    let mut hi: usize = n;
    while hi > lo && is_whitespace(s[hi - 1])
        invariant
            lo <= hi <= n == s@.len(),
            t == s@.subrange(lo as int, n as int),
            forall|k: int| hi <= k < n ==> is_ws(#[trigger] s@[k]),
        decreases hi,
    {
        hi = hi - 1;
    }
    proof {
        assert forall|k: int| (hi - lo) <= k < t.len() implies is_ws(#[trigger] t[k]) by {}
        lemma_trail_ws_unique(t, (hi - lo) as int);
    }
    (lo, hi)
}

/// `String::push`: appends one character.
#[verifier::external_body]
pub(crate) fn push_char(s: &mut String, c: char)
    ensures
        final(s)@ == old(s)@.push(c),
{
    s.push(c);
}

/// The characters of `s`, in order.
pub fn to_chars(s: &str) -> (v: Vec<char>)
    ensures
        v@ == s@,
{
    let mut v: Vec<char> = Vec::new();
    for c in it: s.chars()
        invariant
            v@ == it.seq().take(it.index() as int),
            it.seq() == s@,
    {
        v.push(c);
    }
    v
}

/// A `String` holding exactly the characters of `v`.
pub fn from_chars(v: &[char]) -> (s: String)
    ensures
        s@ == v@,
{
    let mut s = String::new();
    let n = v.len();
    let mut i: usize = 0;
    while i < n
        invariant
            i <= n == v@.len(),
            s@ == v@.take(i as int),
        decreases n - i,
    {
        push_char(&mut s, v[i]);
        i = i + 1;
    }
    s
}

/// `pat` occurs in `s` starting at position `i`.
pub open spec fn occurs_at(s: Seq<char>, pat: Seq<char>, i: int) -> bool {
    0 <= i && i + pat.len() <= s.len() && s.subrange(i, i + pat.len()) == pat
}

/// The first position at or after `from` where `pat` occurs in `s`.
pub open spec fn find_from(s: Seq<char>, pat: Seq<char>, from: int) -> Option<int>
    decreases s.len() + 1 - from,
{
    if from < 0 || from + pat.len() > s.len() {
        None
    } else if occurs_at(s, pat, from) {
        Some(from)
    } else {
        find_from(s, pat, from + 1)
    }
}

/// `s` holds `pat` somewhere at or after position `from`.
pub open spec fn occurs_from(s: Seq<char>, pat: Seq<char>, from: int) -> bool {
    exists|j: int| from <= j && occurs_at(s, pat, j)
}

/// `find_from` gives the first occurrence at or after `from`, and gives none
/// exactly when there is none.
pub proof fn lemma_find_from(s: Seq<char>, pat: Seq<char>, from: int)
    requires
        0 <= from,
    ensures
        match find_from(s, pat, from) {
            Some(k) => from <= k && occurs_at(s, pat, k) && forall|j: int|
                from <= j < k ==> !occurs_at(s, pat, j),
            None => forall|j: int| from <= j ==> !occurs_at(s, pat, j),
        },
        find_from(s, pat, from) is Some <==> occurs_from(s, pat, from),
    decreases s.len() + 1 - from,
{
    if from + pat.len() <= s.len() && !occurs_at(s, pat, from) {
        lemma_find_from(s, pat, from + 1);
        assert forall|j: int| from <= j && occurs_at(s, pat, j) implies j >= from + 1 by {}
    }
}

/// Searching `x + s` from `x.len() + i` on is searching `s` from `i` on, moved by
/// `x.len()`.
pub proof fn lemma_find_shift(x: Seq<char>, s: Seq<char>, pat: Seq<char>, i: int)
    requires
        0 <= i,
    ensures
        find_from(x + s, pat, x.len() + i) == match find_from(s, pat, i) {
            Some(k) => Some(k + x.len()),
            None => None,
        },
    decreases s.len() + 1 - i,
{
    let xs = x + s;
    if i + pat.len() <= s.len() {
        assert(xs.subrange(x.len() + i, x.len() + i + pat.len()) =~= s.subrange(i, i + pat.len()));
        lemma_find_shift(x, s, pat, i + 1);
    }
}

/// An occurrence found in `a` is also the first one found in any extension `a + b`.
pub proof fn lemma_find_extend(a: Seq<char>, b: Seq<char>, pat: Seq<char>, i: int)
    requires
        0 <= i,
        find_from(a, pat, i) is Some,
    ensures
        find_from(a + b, pat, i) == find_from(a, pat, i),
    decreases a.len() + 1 - i,
{
    lemma_find_from(a, pat, i);
    let ab = a + b;
    if i + pat.len() <= a.len() {
        assert(ab.subrange(i, i + pat.len()) =~= a.subrange(i, i + pat.len()));
        if !occurs_at(a, pat, i) {
            lemma_find_extend(a, b, pat, i + 1);
        }
    }
}

/// Whether `pat` occurs in `s` at position `i`.
pub fn matches_at(s: &[char], pat: &[char], i: usize) -> (r: bool)
    ensures
        r == occurs_at(s@, pat@, i as int),
{
    let n = s.len();
    let m = pat.len();
    if i > n || m > n - i {
        return false;
    }
    let mut k: usize = 0;
    while k < m
        invariant
            k <= m == pat@.len(),
            i + m <= n == s@.len(),
            forall|t: int| 0 <= t < k ==> s@[i + t] == pat@[t],
        decreases m - k,
    {
        if s[i + k] != pat[k] {
            return false;
        }
        k = k + 1;
    }
    assert(s@.subrange(i as int, i + m) =~= pat@);
    true
}

/// The first position at or after `from` where `pat` occurs in `s`.
pub fn find(s: &[char], pat: &[char], from: usize) -> (r: Option<usize>)
    ensures
        match r {
            Some(k) => find_from(s@, pat@, from as int) == Some(k as int),
            None => find_from(s@, pat@, from as int) is None,
        },
{
    let n = s.len();
    let m = pat.len();
    let mut i = from;
    while i <= n && m <= n - i
        invariant
            from <= i,
            n == s@.len(),
            m == pat@.len(),
            find_from(s@, pat@, from as int) == find_from(s@, pat@, i as int),
        decreases n + 1 - i,
    {
        if matches_at(s, pat, i) {
            return Some(i);
        }
        if i == n {
            assert(s@.subrange(i as int, i as int) =~= pat@);
            return None;
        }
        i = i + 1;
    }
    None
}

/// A line without the carriage return of a `\r\n` line ending.
pub open spec fn strip_cr(l: Seq<char>) -> Seq<char> {
    if l.len() > 0 && l.last() == '\r' {
        l.drop_last()
    } else {
        l
    }
}

/// `str::lines` from position `i` on, with the lines `done` already split off and
/// the current line `cur` begun: lines end at `\n` (a `\r` before it is dropped),
/// and a final line without a line ending is kept when it is not empty.
pub open spec fn lines_from(s: Seq<char>, i: int, done: Seq<Seq<char>>, cur: Seq<char>) -> Seq<
    Seq<char>,
>
    decreases s.len() - i,
{
    if i >= s.len() || i < 0 {
        if cur.len() > 0 {
            done.push(cur)
        } else {
            done
        }
    } else if s[i] == '\n' {
        lines_from(s, i + 1, done.push(strip_cr(cur)), seq![])
    } else {
        lines_from(s, i + 1, done, cur.push(s[i]))
    }
}

/// The lines of `s`, as `str::lines` yields them.
pub open spec fn lines(s: Seq<char>) -> Seq<Seq<char>> {
    lines_from(s, 0, seq![], seq![])
}

fn strip_cr_vec(cur: Vec<char>) -> (r: Vec<char>)
    ensures
        r@ == strip_cr(cur@),
{
    let mut cur = cur;
    let n = cur.len();
    if n > 0 && cur[n - 1] == '\r' {
        cur.pop();
    }
    cur
}

/// Splits `s` into its lines (`str::lines`).
pub fn split_lines(s: &[char]) -> (r: Vec<Vec<char>>)
    ensures
        r@.map_values(|l: Vec<char>| l@) == lines(s@),
{
    let n = s.len();
    let mut done: Vec<Vec<char>> = Vec::new();
    let mut cur: Vec<char> = Vec::new();
    let mut i: usize = 0;
    assert(done@.map_values(|l: Vec<char>| l@) =~= Seq::<Seq<char>>::empty());
    while i < n
        invariant
            i <= n == s@.len(),
            lines_from(s@, i as int, done@.map_values(|l: Vec<char>| l@), cur@) == lines(s@),
        decreases n - i,
    {
        let c = s[i];
        if c == '\n' {
            let line = strip_cr_vec(cur);
            let ghost prev = done@.map_values(|l: Vec<char>| l@);
            done.push(line);
            assert(done@.map_values(|l: Vec<char>| l@) =~= prev.push(line@));
            cur = Vec::new();
        } else {
            cur.push(c);
        }
        i = i + 1;
    }
    if cur.len() > 0 {
        done.push(cur);
    }
    done
}

/// `str::split` on one character from position `i` on, with pieces `done` already
/// split off and the current piece `cur` begun; the last piece is always kept.
pub open spec fn split_from(s: Seq<char>, sep: char, i: int, done: Seq<Seq<char>>, cur: Seq<char>) -> Seq<
    Seq<char>,
>
    decreases s.len() - i,
{
    if i >= s.len() || i < 0 {
        done.push(cur)
    } else if s[i] == sep {
        split_from(s, sep, i + 1, done.push(cur), seq![])
    } else {
        split_from(s, sep, i + 1, done, cur.push(s[i]))
    }
}

/// The pieces of `s` between occurrences of `sep` (`str::split`).
pub open spec fn split_on(s: Seq<char>, sep: char) -> Seq<Seq<char>> {
    split_from(s, sep, 0, seq![], seq![])
}

/// Pieces already split off stay in front of all that follow.
pub proof fn lemma_split_done(s: Seq<char>, sep: char, i: int, done: Seq<Seq<char>>, cur: Seq<char>)
    ensures
        split_from(s, sep, i, done, cur) == done + split_from(s, sep, i, seq![], cur),
    decreases s.len() - i,
{
    if i >= s.len() || i < 0 {
        assert(done.push(cur) =~= done + Seq::<Seq<char>>::empty().push(cur));
    } else if s[i] == sep {
        lemma_split_done(s, sep, i + 1, done.push(cur), seq![]);
        lemma_split_done(s, sep, i + 1, seq![cur], seq![]);
        assert(Seq::<Seq<char>>::empty().push(cur) =~= seq![cur]);
        assert(done.push(cur) =~= done + seq![cur]);
        assert(done + seq![cur] + split_from(s, sep, i + 1, seq![], seq![]) =~= done + (seq![cur]
            + split_from(s, sep, i + 1, seq![], seq![])));
    } else {
        lemma_split_done(s, sep, i + 1, done, cur.push(s[i]));
        lemma_split_done(s, sep, i + 1, seq![], cur.push(s[i]));
    }
}

/// Splitting `x + b` from `x.len() + i` on is splitting `b` from `i` on.
pub proof fn lemma_split_shift(
    x: Seq<char>,
    b: Seq<char>,
    sep: char,
    i: int,
    done: Seq<Seq<char>>,
    cur: Seq<char>,
)
    requires
        0 <= i,
    ensures
        split_from(x + b, sep, x.len() + i, done, cur) == split_from(b, sep, i, done, cur),
    decreases b.len() - i,
{
    if i < b.len() {
        assert((x + b)[x.len() + i] == b[i]);
        lemma_split_shift(x, b, sep, i + 1, done.push(cur), seq![]);
        lemma_split_shift(x, b, sep, i + 1, done, cur.push(b[i]));
    }
}

proof fn lemma_split_at_sep(
    a: Seq<char>,
    b: Seq<char>,
    sep: char,
    i: int,
    done: Seq<Seq<char>>,
    cur: Seq<char>,
)
    requires
        0 <= i <= a.len(),
    ensures
        split_from(a + seq![sep] + b, sep, i, done, cur) == split_from(a, sep, i, done, cur)
            + split_on(b, sep),
    decreases a.len() - i,
{
    let s = a + seq![sep] + b;
    if i == a.len() {
        assert(s[i] == sep);
        let x = a + seq![sep];
        assert(s =~= x + b);
        lemma_split_shift(x, b, sep, 0, done.push(cur), seq![]);
        lemma_split_done(b, sep, 0, done.push(cur), seq![]);
    } else {
        assert(s[i] == a[i]);
        lemma_split_at_sep(a, b, sep, i + 1, done.push(cur), seq![]);
        lemma_split_at_sep(a, b, sep, i + 1, done, cur.push(a[i]));
    }
}

/// Splitting at a separator: the pieces of `a`, the separator and `b` are the
/// pieces of `a` followed by those of `b`.
pub proof fn lemma_split_on_concat(a: Seq<char>, b: Seq<char>, sep: char)
    ensures
        split_on(a + seq![sep] + b, sep) == split_on(a, sep) + split_on(b, sep),
{
    lemma_split_at_sep(a, b, sep, 0, seq![], seq![]);
}

/// A text without the separator is a single piece.
pub proof fn lemma_split_on_single(a: Seq<char>, sep: char, i: int, cur: Seq<char>)
    requires
        0 <= i <= a.len(),
        forall|k: int| 0 <= k < a.len() ==> a[k] != sep,
        cur + a.skip(i) == a,
    ensures
        split_from(a, sep, i, seq![], cur) == seq![a],
    decreases a.len() - i,
{
    if i < a.len() {
        assert(cur.push(a[i]) + a.skip(i + 1) =~= cur + a.skip(i));
        lemma_split_on_single(a, sep, i + 1, cur.push(a[i]));
    } else {
        assert(cur =~= a);
        assert(Seq::<Seq<char>>::empty().push(a) =~= seq![a]);
    }
}

/// Splits `s` at each `sep` (`str::split`).
pub fn split_char(s: &[char], sep: char) -> (r: Vec<Vec<char>>)
    ensures
        r@.map_values(|l: Vec<char>| l@) == split_on(s@, sep),
{
    let n = s.len();
    let mut done: Vec<Vec<char>> = Vec::new();
    let mut cur: Vec<char> = Vec::new();
    let mut i: usize = 0;
    assert(done@.map_values(|l: Vec<char>| l@) =~= Seq::<Seq<char>>::empty());
    while i < n
        invariant
            i <= n == s@.len(),
            split_from(s@, sep, i as int, done@.map_values(|l: Vec<char>| l@), cur@) == split_on(
                s@,
                sep,
            ),
        decreases n - i,
    {
        let c = s[i];
        if c == sep {
            let ghost prev = done@.map_values(|l: Vec<char>| l@);
            let ghost cv = cur@;
            done.push(cur);
            assert(done@.map_values(|l: Vec<char>| l@) =~= prev.push(cv));
            cur = Vec::new();
        } else {
            cur.push(c);
        }
        i = i + 1;
    }
    done.push(cur);
    done
}

/// The copy of `s[lo..hi]`.
pub fn slice_to_vec(s: &[char], lo: usize, hi: usize) -> (r: Vec<char>)
    requires
        lo <= hi <= s@.len(),
    ensures
        r@ == s@.subrange(lo as int, hi as int),
{
    let mut r: Vec<char> = Vec::new();
    let mut i = lo;
    while i < hi
        invariant
            lo <= i <= hi <= s@.len(),
            r@ == s@.subrange(lo as int, i as int),
        decreases hi - i,
    {
        r.push(s[i]);
        i = i + 1;
    }
    r
}

/// The characters of `trim(s)`.
pub fn trimmed(s: &[char]) -> (r: Vec<char>)
    ensures
        r@ == trim(s@),
{
    let (lo, hi) = trim_bounds(s);
    slice_to_vec(s, lo, hi)
}

/// Whether `a` and `b` hold the same characters.
pub fn chars_eq(a: &[char], b: &[char]) -> (r: bool)
    ensures
        r == (a@ == b@),
{
    if a.len() != b.len() {
        return false;
    }
    let n = a.len();
    let mut i: usize = 0;
    while i < n
        invariant
            i <= n == a@.len() == b@.len(),
            forall|k: int| 0 <= k < i ==> a@[k] == b@[k],
        decreases n - i,
    {
        if a[i] != b[i] {
            return false;
        }
        i = i + 1;
    }
    assert(a@ =~= b@);
    true
}

/// Whether the string `a` holds the characters of the literal `b`.
pub fn str_eq(a: &str, b: &str) -> (r: bool)
    ensures
        r == (a@ == b@),
{
    let av = to_chars(a);
    let bv = to_chars(b);
    chars_eq(av.as_slice(), bv.as_slice())
}

/// The code of `c` after ASCII lower-casing (`char::to_ascii_lowercase`).
pub open spec fn ascii_lower_code(c: char) -> u32 {
    if 'A' <= c && c <= 'Z' {
        (c as u32 + 32) as u32
    } else {
        c as u32
    }
}

/// `str::eq_ignore_ascii_case`: equal up to ASCII case.
pub open spec fn eq_ignore_ascii_case(a: Seq<char>, b: Seq<char>) -> bool {
    a.len() == b.len() && forall|i: int| 0 <= i < a.len() ==> ascii_lower_code(a[i]) == ascii_lower_code(b[i])
}

fn lower_code(c: char) -> (r: u32)
    ensures
        r == ascii_lower_code(c),
{
    if 'A' <= c && c <= 'Z' {
        c as u32 + 32
    } else {
        c as u32
    }
}

/// Whether `a` equals `b` up to ASCII case.
pub fn chars_eq_ignore_ascii_case(a: &[char], b: &[char]) -> (r: bool)
    ensures
        r == eq_ignore_ascii_case(a@, b@),
{
    if a.len() != b.len() {
        return false;
    }
    let n = a.len();
    let mut i: usize = 0;
    while i < n
        invariant
            i <= n == a@.len() == b@.len(),
            forall|k: int| 0 <= k < i ==> ascii_lower_code(a@[k]) == ascii_lower_code(b@[k]),
        decreases n - i,
    {
        if lower_code(a[i]) != lower_code(b[i]) {
            return false;
        }
        i = i + 1;
    }
    true
}

/// What `str::to_lowercase` returns for a string: its lowercase form under the
/// Unicode `Lowercase` mapping. It depends on the string alone.
pub uninterp spec fn unicode_lowercase(s: Seq<char>) -> Seq<char>;

/// Calls `str::to_lowercase`. The contract claims only that the result is the
/// string's Unicode lowercase form, named `unicode_lowercase`; the mapping
/// itself is left to std.
#[verifier::external_body]
pub(crate) fn to_lowercase(s: &str) -> (r: String)
    ensures
        r@ == unicode_lowercase(s@),
{
    s.to_lowercase()
}

/// The first position at or after `from` holding `c`.
pub fn find_char(s: &[char], c: char, from: usize) -> (r: Option<usize>)
    ensures
        match r {
            Some(k) => find_from(s@, seq![c], from as int) == Some(k as int),
            None => find_from(s@, seq![c], from as int) is None,
        },
{
    let n = s.len();
    let mut i = from;
    while i < n
        invariant
            from <= i,
            n == s@.len(),
            find_from(s@, seq![c], from as int) == find_from(s@, seq![c], i as int),
        decreases n - i,
    {
        assert(occurs_at(s@, seq![c], i as int) <==> s@[i as int] == c) by {
            if s@[i as int] == c {
                assert(s@.subrange(i as int, i + 1) =~= seq![c]);
            } else {
                assert(s@.subrange(i as int, i + 1)[0] != seq![c][0]);
            }
        }
        if s[i] == c {
            return Some(i);
        }
        i = i + 1;
    }
    None
}

} // verus!
