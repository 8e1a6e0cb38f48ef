//! Character-level helpers shared by the other modules: decimal digits,
//! Unicode whitespace as `char::is_whitespace` defines it, and string building.

use vstd::prelude::*;

verus! {

/// The ASCII digit character for `d` (`0 <= d < 10`).
pub open spec fn digit_char(d: int) -> char {
    (d + 48) as char
}

/// `n` written in decimal with exactly two digits (`n < 100`), as `{:02}` prints it.
pub open spec fn two_digits(n: int) -> Seq<char> {
    seq![digit_char(n / 10), digit_char(n % 10)]
}

/// `n` written in decimal with no leading zeros (`0` is written `0`).
pub open spec fn decimal(n: nat) -> Seq<char>
    decreases n,
{
    if n < 10 {
        seq![digit_char(n as int)]
    } else {
        decimal(n / 10).push(digit_char((n % 10) as int))
    }
}

/// `String::push`, which std documents as appending the character to the end
/// of the string: the contract claims that the string's characters afterwards
/// are the ones before, followed by `c`.
#[verifier::external_body]
pub(crate) fn push_char(s: &mut String, c: char)
    ensures
        final(s)@ == old(s)@.push(c),
{
    s.push(c);
}

/// The character for a single decimal digit.
pub fn digit(d: u64) -> (c: char)
    requires
        d < 10,
    ensures
        c == digit_char(d as int),
{
    let b: u8 = (d as u8) + 48u8;
    b as char
}

/// Appends `n` as two decimal digits.
pub fn push_two_digits(s: &mut String, n: u64)
    requires
        n < 100,
    ensures
        final(s)@ == old(s)@ + two_digits(n as int),
{
    push_char(s, digit(n / 10));
    push_char(s, digit(n % 10));
}

/// The characters of a string slice, in order.
pub fn chars_of(s: &str) -> (v: Vec<char>)
    ensures
        v@ == s@,
{
    broadcast use vstd::string::group_string_axioms;
    let mut v: Vec<char> = Vec::new();
    for c in it: s.chars()
        invariant
            v@ == it.seq().take(it.index() as int),
            it.seq() == s@,
    {
        v.push(c);
    }
    v
}

/// `char::is_whitespace`: the Unicode `White_Space` property.
pub open spec fn is_ws(c: char) -> bool {
    let u = c as u32;
    ||| 0x09 <= u <= 0x0D
    ||| u == 0x20
    ||| u == 0x85
    ||| u == 0xA0
    ||| u == 0x1680
    ||| 0x2000 <= u <= 0x200A
    ||| u == 0x2028
    ||| u == 0x2029
    ||| u == 0x202F
    ||| u == 0x205F
    ||| u == 0x3000
}

/// Whether `c` is Unicode whitespace, as `char::is_whitespace` decides it.
pub fn is_whitespace(c: char) -> (b: bool)
    ensures
        b == is_ws(c),
{
    let u = c as u32;
    (0x09 <= u && u <= 0x0D) || u == 0x20 || u == 0x85 || u == 0xA0 || u == 0x1680 || (0x2000
        <= u && u <= 0x200A) || u == 0x2028 || u == 0x2029 || u == 0x202F || u == 0x205F || u
        == 0x3000
}

/// The number of whitespace characters at the start of `s`.
pub open spec fn leading_ws(s: Seq<char>) -> nat
    decreases s.len(),
{
    if s.len() > 0 && is_ws(s[0]) {
        1 + leading_ws(s.drop_first())
    } else {
        0
    }
}

/// The number of whitespace characters at the end of `s`.
pub open spec fn trailing_ws(s: Seq<char>) -> nat
    decreases s.len(),
{
    if s.len() > 0 && is_ws(s.last()) {
        1 + trailing_ws(s.drop_last())
    } else {
        0
    }
}

/// `str::trim_start`.
pub open spec fn trim_start(s: Seq<char>) -> Seq<char> {
    s.skip(leading_ws(s) as int)
}

/// `str::trim_end`.
pub open spec fn trim_end(s: Seq<char>) -> Seq<char> {
    s.take(s.len() - trailing_ws(s))
}

/// `str::trim`.
pub open spec fn trim(s: Seq<char>) -> Seq<char> {
    trim_end(trim_start(s))
}

/// The leading whitespace run lies within `s`, is whitespace, and ends at a
/// non-whitespace character (or the end).
pub proof fn lemma_leading_ws(s: Seq<char>)
    ensures
        leading_ws(s) <= s.len(),
        forall|i: int| 0 <= i < leading_ws(s) ==> is_ws(#[trigger] s[i]),
        leading_ws(s) < s.len() ==> !is_ws(s[leading_ws(s) as int]),
    decreases s.len(),
{
    if s.len() > 0 && is_ws(s[0]) {
        lemma_leading_ws(s.drop_first());
        assert forall|i: int| 0 <= i < leading_ws(s) implies is_ws(#[trigger] s[i]) by {
            if i > 0 {
                assert(s[i] == s.drop_first()[i - 1]);
            }
        }
    }
}

/// The trailing whitespace run lies within `s`, is whitespace, and starts
/// after a non-whitespace character (or at the start).
pub proof fn lemma_trailing_ws(s: Seq<char>)
    ensures
        trailing_ws(s) <= s.len(),
        forall|i: int| s.len() - trailing_ws(s) <= i < s.len() ==> is_ws(#[trigger] s[i]),
        trailing_ws(s) < s.len() ==> !is_ws(s[s.len() - trailing_ws(s) - 1]),
    decreases s.len(),
{
    if s.len() > 0 && is_ws(s.last()) {
        lemma_trailing_ws(s.drop_last());
        assert forall|i: int| s.len() - trailing_ws(s) <= i < s.len() implies is_ws(
            #[trigger] s[i],
        ) by {
            if i < s.len() - 1 {
                assert(s[i] == s.drop_last()[i]);
            }
        }
    }
}

/// The count of leading whitespace characters of `s[from..]`.
pub fn count_leading_ws(s: &[char], from: usize) -> (n: usize)
    requires
        from <= s@.len(),
    ensures
        n == leading_ws(s@.skip(from as int)),
        from + n <= s@.len(),
{
    let mut i = from;
    proof {
        lemma_leading_ws(s@.skip(from as int));
    }
    while i < s.len() && is_whitespace(s[i])
        invariant
            from <= i <= s@.len(),
            forall|k: int| from <= k < i ==> is_ws(#[trigger] s@[k]),
            leading_ws(s@.skip(from as int)) == (i - from) + leading_ws(s@.skip(i as int)),
        decreases s@.len() - i,
    {
        assert(s@.skip(i as int).drop_first() =~= s@.skip(i + 1));
        i = i + 1;
    }
    i - from
}

/// The number of non-whitespace characters at the start of `s`.
pub open spec fn leading_non_ws(s: Seq<char>) -> nat
    decreases s.len(),
{
    if s.len() > 0 && !is_ws(s[0]) {
        1 + leading_non_ws(s.drop_first())
    } else {
        0
    }
}

/// The leading non-whitespace run lies within `s`, and is not empty when `s`
/// starts with a non-whitespace character.
pub proof fn lemma_leading_non_ws(s: Seq<char>)
    ensures
        leading_non_ws(s) <= s.len(),
        s.len() > 0 && !is_ws(s[0]) ==> leading_non_ws(s) >= 1,
    decreases s.len(),
{
    if s.len() > 0 && !is_ws(s[0]) {
        lemma_leading_non_ws(s.drop_first());
    }
}

/// The count of leading non-whitespace characters of `s[from..]`.
pub fn count_leading_non_ws(s: &[char], from: usize) -> (n: usize)
    requires
        from <= s@.len(),
    ensures
        n == leading_non_ws(s@.skip(from as int)),
        from + n <= s@.len(),
{
    let mut i = from;
    proof {
        lemma_leading_non_ws(s@.skip(from as int));
    }
    while i < s.len() && !is_whitespace(s[i])
        invariant
            from <= i <= s@.len(),
            leading_non_ws(s@.skip(from as int)) == (i - from) + leading_non_ws(s@.skip(i as int)),
        decreases s@.len() - i,
    {
        assert(s@.skip(i as int).drop_first() =~= s@.skip(i + 1));
        i = i + 1;
    }
    i - from
}

/// Whether a string holds exactly the characters of `lit`.
pub fn same_text(s: &str, lit: &str) -> (b: bool)
    ensures
        b == (s@ == lit@),
{
    let a = chars_of(s);
    let c = chars_of(lit);
    if a.len() != c.len() {
        return false;
    }
    let mut i: usize = 0;
    while i < a.len()
        invariant
            a@ == s@,
            c@ == lit@,
            a@.len() == c@.len(),
            i <= a@.len(),
            forall|k: int| 0 <= k < i ==> a@[k] == c@[k],
        decreases a@.len() - i,
    {
        if a[i] != c[i] {
            assert(a@[i as int] != c@[i as int]);
            return false;
        }
        i = i + 1;
    }
    assert(a@ =~= c@);
    true
}

/// The count of trailing whitespace characters of `s[..to]`.
pub fn count_trailing_ws(s: &[char], to: usize) -> (n: usize)
    requires
        to <= s@.len(),
    ensures
        n == trailing_ws(s@.take(to as int)),
        n <= to,
{
    let mut i = to;
    while i > 0 && is_whitespace(s[i - 1])
        invariant
            i <= to <= s@.len(),
            trailing_ws(s@.take(to as int)) == (to - i) + trailing_ws(s@.take(i as int)),
        decreases i,
    {
        assert(s@.take(i as int).drop_last() =~= s@.take(i - 1));
        i = i - 1;
    }
    to - i
}

/// The string made of `s[from..to]`.
pub fn string_of(s: &[char], from: usize, to: usize) -> (res: String)
    requires
        from <= to <= s@.len(),
    ensures
        res@ == s@.subrange(from as int, to as int),
{
    let mut res = String::new();
    let mut i = from;
    while i < to
        invariant
            from <= i <= to <= s@.len(),
            res@ == s@.subrange(from as int, i as int),
        decreases to - i,
    {
        push_char(&mut res, s[i]);
        assert(s@.subrange(from as int, i + 1) =~= s@.subrange(from as int, i as int).push(s@[i as int]));
        i = i + 1;
    }
    res
}

/// Whether `pat` occurs in `s` at position `i`.
pub open spec fn matches_at<A>(s: Seq<A>, pat: Seq<A>, i: int) -> bool {
    0 <= i && i + pat.len() <= s.len() && s.subrange(i, i + pat.len()) == pat
}

/// The first position at or after `k` where `pat` occurs in `s`.
pub open spec fn find_from<A>(s: Seq<A>, pat: Seq<A>, k: int) -> Option<int>
    decreases s.len() + 1 - k,
{
    if k < 0 || k + pat.len() > s.len() {
        None
    } else if matches_at(s, pat, k) {
        Some(k)
    } else {
        find_from(s, pat, k + 1)
    }
}

/// The first position where `pat` occurs in `s` (`str::find`).
pub open spec fn find<A>(s: Seq<A>, pat: Seq<A>) -> Option<int> {
    find_from(s, pat, 0)
}

/// What `find_from` finds is a match with none before it; when it finds
/// nothing, there is no match at all.
pub proof fn lemma_find_from<A>(s: Seq<A>, pat: Seq<A>, k: int)
    requires
        0 <= k,
    ensures
        match find_from(s, pat, k) {
            Some(i) => k <= i && matches_at(s, pat, i) && forall|j: int|
                k <= j < i ==> !matches_at(s, pat, j),
            None => forall|j: int| k <= j ==> !matches_at(s, pat, j),
        },
    decreases s.len() + 1 - k,
{
    if k + pat.len() > s.len() {
    } else if matches_at(s, pat, k) {
    } else {
        lemma_find_from(s, pat, k + 1);
    }
}

/// A match at `k` with none before it (from `start`) is what `find_from` finds.
pub proof fn lemma_find_from_is<A>(s: Seq<A>, pat: Seq<A>, start: int, k: int)
    requires
        0 <= start <= k,
        matches_at(s, pat, k),
        forall|j: int| start <= j < k ==> !matches_at(s, pat, j),
    ensures
        find_from(s, pat, start) == Some(k),
    decreases k - start,
{
    if start < k {
        lemma_find_from_is(s, pat, start + 1, k);
    }
}

/// With no match at or after `start`, `find_from` finds nothing.
pub proof fn lemma_find_from_none<A>(s: Seq<A>, pat: Seq<A>, start: int)
    requires
        0 <= start,
        forall|j: int| start <= j ==> !matches_at(s, pat, j),
    ensures
        find_from(s, pat, start) is None,
    decreases s.len() + 1 - start,
{
    if start + pat.len() <= s.len() {
        lemma_find_from_none(s, pat, start + 1);
    }
}

/// `leading_ws` is the length of the whitespace run at the start.
pub proof fn lemma_leading_ws_is(x: Seq<char>, n: int)
    requires
        0 <= n <= x.len(),
        forall|i: int| 0 <= i < n ==> is_ws(#[trigger] x[i]),
        n < x.len() ==> !is_ws(x[n]),
    ensures
        leading_ws(x) == n,
    decreases n,
{
    if n > 0 {
        assert(is_ws(x[0]));
        let y = x.drop_first();
        assert forall|i: int| 0 <= i < n - 1 implies is_ws(#[trigger] y[i]) by {
            assert(y[i] == x[i + 1]);
        }
        if n - 1 < y.len() {
            assert(y[n - 1] == x[n]);
        }
        lemma_leading_ws_is(y, n - 1);
    }
}

/// `trailing_ws` is the length of the whitespace run at the end.
pub proof fn lemma_trailing_ws_is(x: Seq<char>, n: int)
    requires
        0 <= n <= x.len(),
        forall|i: int| x.len() - n <= i < x.len() ==> is_ws(#[trigger] x[i]),
        n < x.len() ==> !is_ws(x[x.len() - n - 1]),
    ensures
        trailing_ws(x) == n,
    decreases n,
{
    if n > 0 {
        assert(is_ws(x[x.len() - 1]));
        let y = x.drop_last();
        assert forall|i: int| y.len() - (n - 1) <= i < y.len() implies is_ws(#[trigger] y[i]) by {
            assert(y[i] == x[i]);
        }
        if n - 1 < y.len() {
            assert(y[y.len() - (n - 1) - 1] == x[x.len() - n - 1]);
        }
        lemma_trailing_ws_is(y, n - 1);
    }
}

/// Trimming `s[a..b]`, given the whitespace runs counted from `a` forward
/// (over all of `s[a..]`) and from `b` backward (over all of `s[..b]`).
pub proof fn lemma_trim_range(s: Seq<char>, a: int, b: int, lead: int, trail: int)
    requires
        0 <= a <= b <= s.len(),
        lead == leading_ws(s.skip(a)),
        trail == trailing_ws(s.take(b)),
    ensures
        ({
            let ns = if a + lead <= b { a + lead } else { b };
            let ne = if b - trail >= ns { b - trail } else { ns };
            &&& trim(s.subrange(a, b)) == s.subrange(ns, ne)
            &&& trim_start(s.subrange(a, b)) == s.subrange(ns, b)
            &&& trim_end(s.subrange(a, b)) == s.subrange(a, if b - trail >= a { b - trail } else { a })
        }),
{
    let ns = if a + lead <= b { a + lead } else { b };
    let ne = if b - trail >= ns { b - trail } else { ns };
    let sub = s.subrange(a, b);
    lemma_leading_ws(s.skip(a));
    lemma_trailing_ws(s.take(b));
    assert forall|i: int| 0 <= i < ns - a implies is_ws(#[trigger] sub[i]) by {
        assert(sub[i] == s.skip(a)[i]);
    }
    if ns - a < sub.len() {
        assert(sub[ns - a] == s.skip(a)[lead]);
    }
    lemma_leading_ws_is(sub, ns - a);
    assert(trim_start(sub) =~= s.subrange(ns, b));
    let t = s.subrange(ns, b);
    assert forall|i: int| t.len() - (b - ne) <= i < t.len() implies is_ws(#[trigger] t[i]) by {
        assert(t[i] == s.take(b)[ns + i]);
    }
    if b - ne < t.len() {
        assert(t[t.len() - (b - ne) - 1] == s.take(b)[b - trail - 1]);
    }
    lemma_trailing_ws_is(t, b - ne);
    assert(trim(sub) =~= s.subrange(ns, ne));
    let te = if b - trail >= a { b - trail } else { a };
    assert forall|i: int| sub.len() - (b - te) <= i < sub.len() implies is_ws(#[trigger] sub[i]) by {
        assert(sub[i] == s.take(b)[a + i]);
    }
    if b - te < sub.len() {
        assert(sub[sub.len() - (b - te) - 1] == s.take(b)[b - trail - 1]);
    }
    lemma_trailing_ws_is(sub, b - te);
    assert(trim_end(sub) =~= s.subrange(a, te));
}

/// The first position at or after `from` where the characters of `pat` occur in `s`.
pub fn find_chars(s: &[char], pat: &[char], from: usize) -> (res: Option<usize>)
    requires
        from <= s@.len(),
    ensures
        match res {
            Some(i) => find_from(s@, pat@, from as int) == Some(i as int),
            None => find_from(s@, pat@, from as int) is None,
        },
{
    let mut k = from;
    while k <= s.len() && pat.len() <= s.len() - k
        invariant
            from <= k,
            find_from(s@, pat@, from as int) == find_from(s@, pat@, k as int),
        decreases s@.len() + 1 - k,
    {
        let mut j: usize = 0;
        while j < pat.len() && s[k + j] == pat[j]
            invariant
                j <= pat@.len(),
                k + pat@.len() <= s@.len(),
                s@.len() == s.len(),
                pat@.len() == pat.len(),
                forall|t: int| 0 <= t < j ==> s@[k + t] == pat@[t],
            decreases pat@.len() - j,
        {
            j = j + 1;
        }
        if j == pat.len() {
            assert(s@.subrange(k as int, k + pat@.len()) =~= pat@);
            return Some(k);
        }
        assert(!(s@.subrange(k as int, k + pat@.len()) =~= pat@)) by {
            assert(s@.subrange(k as int, k + pat@.len())[j as int] == s@[k + j]);
        }
        k = k + 1;
    }
    None
}

/// The first position at or after `from` where the bytes of `pat` occur in `s`.
pub fn find_bytes(s: &[u8], pat: &[u8], from: usize) -> (res: Option<usize>)
    requires
        from <= s@.len(),
    ensures
        match res {
            Some(i) => find_from(s@, pat@, from as int) == Some(i as int),
            None => find_from(s@, pat@, from as int) is None,
        },
{
    let mut k = from;
    while k <= s.len() && pat.len() <= s.len() - k
        invariant
            from <= k,
            find_from(s@, pat@, from as int) == find_from(s@, pat@, k as int),
        decreases s@.len() + 1 - k,
    {
        let mut j: usize = 0;
        while j < pat.len() && s[k + j] == pat[j]
            invariant
                j <= pat@.len(),
                k + pat@.len() <= s@.len(),
                s@.len() == s.len(),
                pat@.len() == pat.len(),
                forall|t: int| 0 <= t < j ==> s@[k + t] == pat@[t],
            decreases pat@.len() - j,
        {
            j = j + 1;
        }
        if j == pat.len() {
            assert(s@.subrange(k as int, k + pat@.len()) =~= pat@);
            return Some(k);
        }
        assert(!(s@.subrange(k as int, k + pat@.len()) =~= pat@)) by {
            assert(s@.subrange(k as int, k + pat@.len())[j as int] == s@[k + j]);
        }
        k = k + 1;
    }
    None
}

/// Appends `n` in decimal.
pub fn push_decimal(s: &mut String, n: u64)
    ensures
        final(s)@ == old(s)@ + decimal(n as nat),
    decreases n,
{
    if n < 10 {
        push_char(s, digit(n));
    } else {
        push_decimal(s, n / 10);
        push_char(s, digit(n % 10));
    }
}

} // verus!
