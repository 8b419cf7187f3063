//! Character-level text operations with their mathematical meaning.
//!
//! Text is modelled as `Seq<char>`, the view of `String` and `&str`.
use vstd::prelude::*;

verus! {

/// The texts of a list of strings.
pub open spec fn texts(v: Seq<String>) -> Seq<Seq<char>> {
    Seq::new(v.len(), |i: int| v[i]@)
}

/// Unicode `White_Space`, the set that `char::is_whitespace` tests for.
pub open spec fn is_ws(c: char) -> bool {
    ||| c == ' '
    ||| ('\u{9}' <= c && c <= '\u{d}')
    ||| c == '\u{85}'
    ||| c == '\u{a0}'
    ||| c == '\u{1680}'
    ||| ('\u{2000}' <= c && c <= '\u{200a}')
    ||| c == '\u{2028}'
    ||| c == '\u{2029}'
    ||| c == '\u{202f}'
    ||| c == '\u{205f}'
    ||| c == '\u{3000}'
}

/// Unicode general category `Cc`, the set that `char::is_control` tests for.
pub open spec fn is_control(c: char) -> bool {
    c <= '\u{1f}' || ('\u{7f}' <= c && c <= '\u{9f}')
}

/// `char::is_ascii_alphanumeric`.
pub open spec fn is_ascii_alnum(c: char) -> bool {
    ('0' <= c && c <= '9') || ('a' <= c && c <= 'z') || ('A' <= c && c <= 'Z')
}

/// `char::to_ascii_lowercase`.
pub open spec fn ascii_lower(c: char) -> char {
    if 'A' <= c && c <= 'Z' {
        ((c as u32) + 32) as char
    } else {
        c
    }
}

/// The text without its leading whitespace (`str::trim_start`).
pub open spec fn trim_start(s: Seq<char>) -> Seq<char>
    decreases s.len(),
{
    if s.len() > 0 && is_ws(s[0]) {
        trim_start(s.drop_first())
    } else {
        s
    }
}

/// The text without its trailing whitespace (`str::trim_end`).
pub open spec fn trim_end(s: Seq<char>) -> Seq<char>
    decreases s.len(),
{
    if s.len() > 0 && is_ws(s.last()) {
        trim_end(s.drop_last())
    } else {
        s
    }
}

/// The text without leading and trailing whitespace (`str::trim`).
pub open spec fn trim(s: Seq<char>) -> Seq<char> {
    trim_end(trim_start(s))
}

/// The text with every control character removed.
pub open spec fn without_controls(s: Seq<char>) -> Seq<char>
    decreases s.len(),
{
    if s.len() == 0 {
        s
    } else if is_control(s.last()) {
        without_controls(s.drop_last())
    } else {
        without_controls(s.drop_last()).push(s.last())
    }
}

/// `p` is a prefix of `s`.
pub open spec fn has_prefix(s: Seq<char>, p: Seq<char>) -> bool {
    p.len() <= s.len() && s.subrange(0, p.len() as int) == p
}

/// The text without every leading occurrence of `c` (`str::trim_start_matches(c)`).
pub open spec fn strip_leading(s: Seq<char>, c: char) -> Seq<char>
    decreases s.len(),
{
    if s.len() > 0 && s[0] == c {
        strip_leading(s.drop_first(), c)
    } else {
        s
    }
}

/// The text without every trailing occurrence of `c` (`str::trim_end_matches(c)`).
pub open spec fn strip_trailing(s: Seq<char>, c: char) -> Seq<char>
    decreases s.len(),
{
    if s.len() > 0 && s.last() == c {
        strip_trailing(s.drop_last(), c)
    } else {
        s
    }
}

/// Every non-overlapping occurrence of `pat`, scanning from the left, replaced
/// by `rep` (`str::replace`).
pub open spec fn replace_all(t: Seq<char>, pat: Seq<char>, rep: Seq<char>) -> Seq<char>
    recommends
        pat.len() > 0,
    decreases t.len(),
{
    if t.len() == 0 || pat.len() == 0 {
        t
    } else if has_prefix(t, pat) {
        rep + replace_all(t.subrange(pat.len() as int, t.len() as int), pat, rep)
    } else {
        seq![t[0]] + replace_all(t.drop_first(), pat, rep)
    }
}

/// The decimal digit for `d < 10`.
pub open spec fn digit(d: nat) -> char {
    ((d + 48) as u32) as char
}

/// The decimal representation of `n` without leading zeros (`n.to_string()`).
pub open spec fn decimal(n: nat) -> Seq<char>
    decreases n,
{
    if n < 10 {
        seq![digit(n)]
    } else {
        decimal(n / 10).push(digit(n % 10))
    }
}

/// Texts equal up to ASCII case (`str::eq_ignore_ascii_case`).
pub open spec fn eq_ignore_ascii_case(a: Seq<char>, b: Seq<char>) -> bool {
    a.len() == b.len() && forall|i: int| 0 <= i < a.len() ==> ascii_lower(a[i]) == ascii_lower(b[i])
}

pub fn is_whitespace(c: char) -> (b: bool)
    ensures
        b == is_ws(c),
{
    c == ' ' || ('\u{9}' <= c && c <= '\u{d}') || c == '\u{85}' || c == '\u{a0}' || c == '\u{1680}'
        || ('\u{2000}' <= c && c <= '\u{200a}') || c == '\u{2028}' || c == '\u{2029}' || c
        == '\u{202f}' || c == '\u{205f}' || c == '\u{3000}'
}

pub fn is_control_char(c: char) -> (b: bool)
    ensures
        b == is_control(c),
{
    c <= '\u{1f}' || ('\u{7f}' <= c && c <= '\u{9f}')
}

pub fn is_ascii_alnum_char(c: char) -> (b: bool)
    ensures
        b == is_ascii_alnum(c),
{
    ('0' <= c && c <= '9') || ('a' <= c && c <= 'z') || ('A' <= c && c <= 'Z')
}

/// Two characters equal up to ASCII case.
pub fn char_eq_ignore_ascii_case(a: char, b: char) -> (r: bool)
    ensures
        r == (ascii_lower(a) == ascii_lower(b)),
{
    let x: u32 = if 'A' <= a && a <= 'Z' { (a as u32) + 32 } else { a as u32 };
    let y: u32 = if 'A' <= b && b <= 'Z' { (b as u32) + 32 } else { b as u32 };
    proof {
        assert(ascii_lower(a) as u32 == x);
        assert(ascii_lower(b) as u32 == y);
    }
    x == y
}

/// Texts equal up to ASCII case.
pub fn chars_eq_ignore_ascii_case(a: &Vec<char>, b: &Vec<char>) -> (r: bool)
    ensures
        r == eq_ignore_ascii_case(a@, b@),
{
    if a.len() != b.len() {
        return false;
    }
    let mut i: usize = 0;
    while i < a.len()
        invariant
            a@.len() == b@.len(),
            i <= a@.len(),
            forall|j: int| 0 <= j < i ==> ascii_lower(a@[j]) == ascii_lower(
                b@[j],
            ),
        decreases a@.len() - i,
    {
        if !char_eq_ignore_ascii_case(a[i], b[i]) {
            return false;
        }
        i = i + 1;
    }
    true
}

/// The characters of a string slice.
pub fn chars_of(s: &str) -> (v: Vec<char>)
    ensures
        v@ == s@,
{
    let mut v: Vec<char> = Vec::new();
    for c in it: s.chars()
        invariant
            v@ == it.seq().take(it.index() as int),
    {
        v.push(c);
    }
    v
}

/// A string made of the given characters (`String: FromIterator<char>`).
#[verifier::external_body]
pub(crate) fn string_of(chars: &Vec<char>) -> (s: String)
    ensures
        s@ == chars@,
{
    chars.iter().collect()
}

/// Character sequences compared for equality.
pub fn chars_eq(a: &Vec<char>, b: &Vec<char>) -> (r: bool)
    ensures
        r == (a@ == b@),
{
    if a.len() != b.len() {
        return false;
    }
    let mut i: usize = 0;
    while i < a.len()
        invariant
            a@.len() == b@.len(),
            i <= a@.len(),
            forall|j: int| 0 <= j < i ==> a@[j] == b@[j],
        decreases a@.len() - i,
    {
        if a[i] != b[i] {
            return false;
        }
        i = i + 1;
    }
    assert(a@ =~= b@);
    true
}

/// `pat` occurs in `t` at position `i`.
pub fn matches_at(t: &Vec<char>, i: usize, pat: &Vec<char>) -> (r: bool)
    requires
        i <= t@.len(),
    ensures
        r == has_prefix(t@.subrange(i as int, t@.len() as int), pat@),
{
    let ghost rest = t@.subrange(i as int, t@.len() as int);
    if pat.len() > t.len() - i {
        return false;
    }
    let m = t.len();
    let mut k: usize = 0;
    while k < pat.len()
        invariant
            m == t@.len(),
            i + pat@.len() <= t@.len(),
            k <= pat@.len(),
            rest == t@.subrange(i as int, t@.len() as int),
            forall|j: int| 0 <= j < k ==> t@[i + j] == pat@[j],
        decreases pat@.len() - k,
    {
        if t[i + k] != pat[k] {
            assert(rest.subrange(0, pat@.len() as int)[k as int] != pat@[k as int]);
            return false;
        }
        k = k + 1;
    }
    assert(rest.subrange(0, pat@.len() as int) =~= pat@);
    true
}

/// `p` is a prefix of `s`.
pub fn starts_with(s: &Vec<char>, p: &Vec<char>) -> (r: bool)
    ensures
        r == has_prefix(s@, p@),
{
    let r = matches_at(s, 0, p);
    assert(s@.subrange(0, s@.len() as int) =~= s@);
    r
}

proof fn lemma_trim_start_at(s: Seq<char>, i: int)
    requires
        0 <= i <= s.len(),
        forall|j: int| 0 <= j < i ==> is_ws(s[j]),
        i == s.len() || !is_ws(s[i]),
    ensures
        trim_start(s) == s.subrange(i, s.len() as int),
    decreases i,
{
    if i == 0 {
        assert(s.subrange(0, s.len() as int) =~= s);
    } else {
        let t = s.drop_first();
        assert forall|j: int| 0 <= j < i - 1 implies is_ws(t[j]) by {
            assert(t[j] == s[j + 1]);
        }
        lemma_trim_start_at(t, i - 1);
        assert(t.subrange(i - 1, t.len() as int) =~= s.subrange(i, s.len() as int));
    }
}

proof fn lemma_trim_end_at(s: Seq<char>, k: int)
    requires
        0 <= k <= s.len(),
        forall|j: int| k <= j < s.len() ==> is_ws(s[j]),
        k == 0 || !is_ws(s[k - 1]),
    ensures
        trim_end(s) == s.subrange(0, k),
    decreases s.len() - k,
{
    if k == s.len() {
        assert(s.subrange(0, k) =~= s);
    } else {
        let t = s.drop_last();
        lemma_trim_end_at(t, k);
        assert(t.subrange(0, k) =~= s.subrange(0, k));
    }
}

/// The characters without leading and trailing whitespace.
pub fn trimmed(v: &Vec<char>) -> (r: Vec<char>)
    ensures
        r@ == trim(v@),
{
    let n = v.len();
    let mut i: usize = 0;
    while i < n && is_whitespace(v[i])
        invariant
            n == v@.len(),
            i <= n,
            forall|j: int| 0 <= j < i ==> is_ws(v@[j]),
        decreases n - i,
    {
        i = i + 1;
    }
    proof {
        lemma_trim_start_at(v@, i as int);
    }
    let ghost t = v@.subrange(i as int, n as int);
    let mut k: usize = n;
    while k > i && is_whitespace(v[k - 1])
        invariant
            n == v@.len(),
            i <= k <= n,
            t == v@.subrange(i as int, n as int),
            forall|j: int| k <= j < n ==> is_ws(v@[j]),
        decreases k,
    {
        k = k - 1;
    }
    proof {
        assert forall|j: int| k - i <= j < t.len() implies is_ws(t[j]) by {
            assert(t[j] == v@[i + j]);
        }
        if k > i {
            assert(t[k - i - 1] == v@[k - 1]);
        }
        lemma_trim_end_at(t, k - i);
    }
    let mut r: Vec<char> = Vec::new();
    let mut p: usize = i;
    while p < k
        invariant
            n == v@.len(),
            i <= p <= k <= n,
            r@ == v@.subrange(i as int, p as int),
        decreases k - p,
    {
        r.push(v[p]);
        p = p + 1;
        assert(r@ =~= v@.subrange(i as int, p as int));
    }
    assert(r@ =~= t.subrange(0, k - i));
    r
}

proof fn lemma_trim_end_nonempty(t: Seq<char>)
    requires
        t.len() > 0,
        !is_ws(t[0]),
    ensures
        trim_end(t).len() > 0,
    decreases t.len(),
{
    if is_ws(t.last()) {
        lemma_trim_end_nonempty(t.drop_last());
    }
}

proof fn lemma_trim_start_ws(s: Seq<char>)
    ensures
        trim_start(s).len() == 0 <==> (forall|j: int| 0 <= j < s.len() ==> is_ws(s[j])),
        trim_start(s).len() > 0 ==> !is_ws(trim_start(s)[0]),
    decreases s.len(),
{
    if s.len() > 0 && is_ws(s[0]) {
        let t = s.drop_first();
        lemma_trim_start_ws(t);
        if forall|j: int| 0 <= j < t.len() ==> is_ws(t[j]) {
            assert forall|j: int| 0 <= j < s.len() implies is_ws(s[j]) by {
                if j > 0 {
                    assert(s[j] == t[j - 1]);
                }
            }
        } else {
            let j0 = choose|j: int| 0 <= j < t.len() && !is_ws(t[j]);
            assert(s[j0 + 1] == t[j0]);
        }
    }
}

/// A trimmed text is empty exactly when every character is whitespace.
pub proof fn lemma_blank(s: Seq<char>)
    ensures
        trim(s).len() == 0 <==> (forall|j: int| 0 <= j < s.len() ==> is_ws(s[j])),
{
    lemma_trim_start_ws(s);
    let t = trim_start(s);
    if t.len() > 0 {
        lemma_trim_end_nonempty(t);
    }
}

/// Whether the text is empty after trimming (`s.trim().is_empty()`).
pub fn is_blank(s: &str) -> (b: bool)
    ensures
        b == (trim(s@).len() == 0),
{
    let v = chars_of(s);
    let mut i: usize = 0;
    while i < v.len()
        invariant
            v@ == s@,
            i <= v@.len(),
            forall|j: int| 0 <= j < i ==> is_ws(v@[j]),
        decreases v@.len() - i,
    {
        if !is_whitespace(v[i]) {
            proof {
                lemma_blank(s@);
            }
            return false;
        }
        i = i + 1;
    }
    proof {
        lemma_blank(s@);
    }
    true
}

/// The characters with every control character removed.
pub fn remove_controls(v: &Vec<char>) -> (r: Vec<char>)
    ensures
        r@ == without_controls(v@),
{
    let mut r: Vec<char> = Vec::new();
    let mut i: usize = 0;
    while i < v.len()
        invariant
            i <= v@.len(),
            r@ == without_controls(v@.take(i as int)),
        decreases v@.len() - i,
    {
        assert(v@.take(i + 1).drop_last() =~= v@.take(i as int));
        if !is_control_char(v[i]) {
            r.push(v[i]);
        }
        i = i + 1;
    }
    assert(v@.take(v@.len() as int) =~= v@);
    r
}

/// The characters with every non-overlapping occurrence of `pat` replaced by `rep`.
pub fn replace_chars(t: &Vec<char>, pat: &Vec<char>, rep: &Vec<char>) -> (r: Vec<char>)
    requires
        pat@.len() > 0,
    ensures
        r@ == replace_all(t@, pat@, rep@),
{
    let mut r: Vec<char> = Vec::new();
    let mut i: usize = 0;
    let n = t.len();
    assert(r@ + replace_all(t@.subrange(0, n as int), pat@, rep@) =~= replace_all(t@, pat@, rep@))
        by {
        assert(t@.subrange(0, n as int) =~= t@);
    }
    while i < n
        invariant
            n == t@.len(),
            pat@.len() > 0,
            i <= n,
            replace_all(t@, pat@, rep@) == r@ + replace_all(
                t@.subrange(i as int, n as int),
                pat@,
                rep@,
            ),
        decreases n - i,
    {
        let ghost rest = t@.subrange(i as int, n as int);
        let ghost r0 = r@;
        if matches_at(t, i, pat) {
            let mut k: usize = 0;
            while k < rep.len()
                invariant
                    k <= rep@.len(),
                    r@ == r0 + rep@.take(k as int),
                decreases rep@.len() - k,
            {
                r.push(rep[k]);
                k = k + 1;
                assert(r@ =~= r0 + rep@.take(k as int));
            }
            assert(rep@.take(rep@.len() as int) =~= rep@);
            let ghost after = t@.subrange(i + pat@.len(), n as int);
            assert(rest.subrange(pat@.len() as int, rest.len() as int) =~= after);
            assert(replace_all(rest, pat@, rep@) == rep@ + replace_all(after, pat@, rep@));
            assert(r0 + (rep@ + replace_all(after, pat@, rep@)) =~= r@ + replace_all(after, pat@, rep@));
            i = i + pat.len();
        } else {
            r.push(t[i]);
            let ghost after = t@.subrange(i + 1, n as int);
            assert(rest.drop_first() =~= after);
            assert(rest[0] == t@[i as int]);
            assert(replace_all(rest, pat@, rep@) == seq![t@[i as int]] + replace_all(after, pat@, rep@));
            assert(r0 + (seq![t@[i as int]] + replace_all(after, pat@, rep@)) =~= r@ + replace_all(after, pat@, rep@));
            i = i + 1;
        }
    }
    assert(replace_all(t@.subrange(n as int, n as int), pat@, rep@) =~= Seq::<char>::empty());
    assert(r@ + Seq::<char>::empty() =~= r@);
    r
}

/// Appends the decimal representation of `n`.
pub fn push_decimal(out: &mut Vec<char>, n: u64)
    ensures
        final(out)@ == old(out)@ + decimal(n as nat),
    decreases n,
{
    if n >= 10 {
        push_decimal(out, n / 10);
    }
    let d: u64 = n % 10;
    let c: char = if d == 0 { '0' } else if d == 1 { '1' } else if d == 2 { '2' } else if d == 3 {
        '3'
    } else if d == 4 { '4' } else if d == 5 { '5' } else if d == 6 { '6' } else if d == 7 {
        '7'
    } else if d == 8 { '8' } else { '9' };
    assert(c == digit(d as nat));
    out.push(c);
    proof {
        if n >= 10 {
            assert(decimal(n as nat) == decimal((n / 10) as nat).push(digit((n % 10) as nat)));
        } else {
            assert(decimal(n as nat) == seq![digit(n as nat)]);
        }
        assert(out@ =~= old(out)@ + decimal(n as nat));
    }
}

/// Appends the characters of a string slice.
pub fn push_str(out: &mut Vec<char>, s: &str)
    ensures
        final(out)@ == old(out)@ + s@,
{
    let v = chars_of(s);
    let mut i: usize = 0;
    let ghost start = out@;
    while i < v.len()
        invariant
            v@ == s@,
            i <= v@.len(),
            out@ == start + v@.take(i as int),
            start == old(out)@,
        decreases v@.len() - i,
    {
        out.push(v[i]);
        i = i + 1;
        assert(out@ =~= start + v@.take(i as int));
    }
    assert(v@.take(v@.len() as int) =~= v@);
}

proof fn lemma_strip_leading_at(s: Seq<char>, c: char, i: int)
    requires
        0 <= i <= s.len(),
        forall|j: int| 0 <= j < i ==> s[j] == c,
        i == s.len() || s[i] != c,
    ensures
        strip_leading(s, c) == s.subrange(i, s.len() as int),
    decreases i,
{
    if i == 0 {
        assert(s.subrange(0, s.len() as int) =~= s);
    } else {
        let t = s.drop_first();
        assert forall|j: int| 0 <= j < i - 1 implies t[j] == c by {
            assert(t[j] == s[j + 1]);
        }
        lemma_strip_leading_at(t, c, i - 1);
        assert(t.subrange(i - 1, t.len() as int) =~= s.subrange(i, s.len() as int));
    }
}

proof fn lemma_strip_trailing_at(s: Seq<char>, c: char, k: int)
    requires
        0 <= k <= s.len(),
        forall|j: int| k <= j < s.len() ==> s[j] == c,
        k == 0 || s[k - 1] != c,
    ensures
        strip_trailing(s, c) == s.subrange(0, k),
    decreases s.len() - k,
{
    if k == s.len() {
        assert(s.subrange(0, k) =~= s);
    } else {
        let t = s.drop_last();
        lemma_strip_trailing_at(t, c, k);
        assert(t.subrange(0, k) =~= s.subrange(0, k));
    }
}

/// The characters from position `from` up to `to`.
pub fn slice_chars(v: &Vec<char>, from: usize, to: usize) -> (r: Vec<char>)
    requires
        from <= to <= v@.len(),
    ensures
        r@ == v@.subrange(from as int, to as int),
{
    let mut r: Vec<char> = Vec::new();
    let mut p: usize = from;
    while p < to
        invariant
            from <= p <= to <= v@.len(),
            r@ == v@.subrange(from as int, p as int),
        decreases to - p,
    {
        r.push(v[p]);
        p = p + 1;
        assert(r@ =~= v@.subrange(from as int, p as int));
    }
    r
}

/// The characters without every leading `c` (`str::trim_start_matches(c)`).
pub fn strip_leading_chars(v: &Vec<char>, c: char) -> (r: Vec<char>)
    ensures
        r@ == strip_leading(v@, c),
{
    let mut i: usize = 0;
    while i < v.len() && v[i] == c
        invariant
            i <= v@.len(),
            forall|j: int| 0 <= j < i ==> v@[j] == c,
        decreases v@.len() - i,
    {
        i = i + 1;
    }
    proof {
        lemma_strip_leading_at(v@, c, i as int);
    }
    slice_chars(v, i, v.len())
}

/// The characters without every trailing `c` (`str::trim_end_matches(c)`).
pub fn strip_trailing_chars(v: &Vec<char>, c: char) -> (r: Vec<char>)
    ensures
        r@ == strip_trailing(v@, c),
{
    let mut k: usize = v.len();
    while k > 0 && v[k - 1] == c
        invariant
            k <= v@.len(),
            forall|j: int| k <= j < v@.len() ==> v@[j] == c,
        decreases k,
    {
        k = k - 1;
    }
    proof {
        lemma_strip_trailing_at(v@, c, k as int);
    }
    slice_chars(v, 0, k)
}

/// The number of occurrences of `c`.
pub open spec fn count_char(s: Seq<char>, c: char) -> nat
    decreases s.len(),
{
    if s.len() == 0 {
        0
    } else {
        count_char(s.drop_last(), c) + if s.last() == c {
            1nat
        } else {
            0nat
        }
    }
}

/// Counts the occurrences of `c`.
pub fn count_chars(v: &Vec<char>, c: char) -> (n: usize)
    ensures
        n == count_char(v@, c),
{
    let mut n: usize = 0;
    let mut i: usize = 0;
    while i < v.len()
        invariant
            i <= v@.len(),
            n == count_char(v@.take(i as int), c),
            n <= i,
        decreases v@.len() - i,
    {
        assert(v@.take(i + 1).drop_last() =~= v@.take(i as int));
        if v[i] == c {
            n = n + 1;
        }
        i = i + 1;
    }
    assert(v@.take(v@.len() as int) =~= v@);
    n
}

/// `std::str::from_utf8`: the text when the bytes are valid UTF-8.
#[verifier::external_body]
pub(crate) fn utf8_str(bytes: &[u8]) -> (r: Option<&str>)
    ensures
        r is Some <==> vstd::utf8::valid_utf8(bytes@),
        r matches Some(s) ==> s@ == vstd::utf8::decode_utf8(bytes@),
{
    std::str::from_utf8(bytes).ok()
}

/// `s` occurs in `t` at position `i`.
pub open spec fn occurs_at(t: Seq<char>, s: Seq<char>, i: int) -> bool {
    0 <= i && i + s.len() <= t.len() && t.subrange(i, i + s.len()) == s
}

/// `s` occurs somewhere in `t` (`t.contains(s)`).
pub open spec fn occurs(t: Seq<char>, s: Seq<char>) -> bool {
    exists|i: int| occurs_at(t, s, i)
}

proof fn lemma_occurs_shift(t: Seq<char>, s: Seq<char>, i: int, k: int)
    requires
        0 <= k <= t.len(),
        occurs_at(t.subrange(k, t.len() as int), s, i),
    ensures
        occurs_at(t, s, i + k),
{
    assert(t.subrange(k, t.len() as int).subrange(i, i + s.len()) =~= t.subrange(
        i + k,
        i + k + s.len(),
    ));
}

/// A text in which a nonempty pattern does not occur is left as it is.
pub proof fn lemma_replace_absent(t: Seq<char>, pat: Seq<char>, rep: Seq<char>)
    requires
        pat.len() > 0,
        !occurs(t, pat),
    ensures
        replace_all(t, pat, rep) == t,
    decreases t.len(),
{
    if t.len() > 0 {
        if has_prefix(t, pat) {
            assert(occurs_at(t, pat, 0));
        }
        let u = t.drop_first();
        assert(u =~= t.subrange(1, t.len() as int));
        assert forall|i: int| !occurs_at(u, pat, i) by {
            if occurs_at(u, pat, i) {
                lemma_occurs_shift(t, pat, i, 1);
            }
        }
        lemma_replace_absent(u, pat, rep);
        assert(seq![t[0]] + u =~= t);
    }
}

/// The front of a replacement result that holds no `[` is the front of the
/// text that was replaced in, when the replacement text starts with `[`.
proof fn lemma_front_kept(t: Seq<char>, pat: Seq<char>, rep: Seq<char>, l: int)
    requires
        pat.len() > 0,
        rep.len() > 0,
        rep[0] == '[',
        0 <= l <= replace_all(t, pat, rep).len(),
        forall|j: int| 0 <= j < l ==> replace_all(t, pat, rep)[j] != '[',
    ensures
        l <= t.len(),
        replace_all(t, pat, rep).take(l) == t.take(l),
    decreases t.len(),
{
    let r = replace_all(t, pat, rep);
    if t.len() == 0 {
    } else if has_prefix(t, pat) {
        if l > 0 {
            assert(r[0] == rep[0]);
        }
    } else if l > 0 {
        let u = t.drop_first();
        let ru = replace_all(u, pat, rep);
        assert(r == seq![t[0]] + ru);
        assert forall|j: int| 0 <= j < l - 1 implies ru[j] != '[' by {
            assert(r[j + 1] == ru[j]);
        }
        lemma_front_kept(u, pat, rep, l - 1);
        assert(r.take(l) =~= seq![t[0]] + ru.take(l - 1));
        assert(t.take(l) =~= seq![t[0]] + u.take(l - 1));
    }
}

/// A text that a bracketed replacement cannot bring back: nonempty, not part
/// of the replacement text, and without brackets.
pub open spec fn maskable(s: Seq<char>, rep: Seq<char>) -> bool {
    &&& s.len() > 0
    &&& !occurs(rep, s)
    &&& forall|j: int| 0 <= j < s.len() ==> s[j] != '[' && s[j] != ']'
}

/// After replacing `pat` by a bracketed text, neither `pat` nor a text that
/// did not occur before occurs, when it cannot be brought back.
pub proof fn lemma_replace_removes(t: Seq<char>, pat: Seq<char>, rep: Seq<char>, s: Seq<char>)
    requires
        pat.len() > 0,
        rep.len() > 0,
        rep[0] == '[',
        rep.last() == ']',
        maskable(s, rep),
        s == pat || !occurs(t, s),
    ensures
        !occurs(replace_all(t, pat, rep), s),
    decreases t.len(),
{
    let r = replace_all(t, pat, rep);
    if t.len() == 0 {
        assert forall|i: int| !occurs_at(r, s, i) by {
            if occurs_at(r, s, i) {
                assert(s.len() == 0);
            }
        }
    } else if has_prefix(t, pat) {
        let rest = t.subrange(pat.len() as int, t.len() as int);
        if s != pat {
            assert forall|i: int| !occurs_at(rest, s, i) by {
                if occurs_at(rest, s, i) {
                    lemma_occurs_shift(t, s, i, pat.len() as int);
                }
            }
        }
        lemma_replace_removes(rest, pat, rep, s);
        let rr = replace_all(rest, pat, rep);
        assert(r == rep + rr);
        assert forall|i: int| !occurs_at(r, s, i) by {
            if occurs_at(r, s, i) {
                if i < rep.len() {
                    if i + s.len() <= rep.len() {
                        assert(r.subrange(i, i + s.len()) =~= rep.subrange(i, i + s.len()));
                        assert(occurs_at(rep, s, i));
                    } else {
                        let k = rep.len() - 1 - i;
                        assert(r.subrange(i, i + s.len())[k] == r[rep.len() - 1]);
                        assert(r[rep.len() - 1] == rep.last());
                    }
                } else {
                    assert(r.subrange(i, i + s.len()) =~= rr.subrange(
                        i - rep.len(),
                        i - rep.len() + s.len(),
                    ));
                    assert(occurs_at(rr, s, i - rep.len()));
                }
            }
        }
    } else {
        let u = t.drop_first();
        assert(u =~= t.subrange(1, t.len() as int));
        if s != pat {
            assert forall|i: int| !occurs_at(u, s, i) by {
                if occurs_at(u, s, i) {
                    lemma_occurs_shift(t, s, i, 1);
                }
            }
        }
        lemma_replace_removes(u, pat, rep, s);
        let ru = replace_all(u, pat, rep);
        assert(r == seq![t[0]] + ru);
        assert forall|i: int| !occurs_at(r, s, i) by {
            if occurs_at(r, s, i) {
                if i == 0 {
                    assert forall|j: int| 0 <= j < s.len() implies r[j] != '[' by {
                        assert(r.subrange(0, s.len() as int)[j] == r[j]);
                    }
                    lemma_front_kept(t, pat, rep, s.len() as int);
                    assert(r.take(s.len() as int) =~= r.subrange(0, s.len() as int));
                    assert(t.take(s.len() as int) =~= t.subrange(0, s.len() as int));
                    assert(occurs_at(t, s, 0));
                } else {
                    assert(r.subrange(i, i + s.len()) =~= ru.subrange(i - 1, i - 1 + s.len()));
                    assert(occurs_at(ru, s, i - 1));
                }
            }
        }
    }
}

} // verus!
