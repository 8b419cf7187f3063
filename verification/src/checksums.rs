//! Checksum manifests (`SHA256SUMS`): one `HASH  FILE` or `HASH *FILE` line
//! per file, read the way `str::lines` and `str::split_whitespace` read text.
use vstd::prelude::*;

use crate::text::{chars_eq, is_whitespace, is_ws, slice_chars, strip_leading, strip_leading_chars};

verus! {

/// The number of characters before the first line feed.
pub open spec fn line_len(s: Seq<char>) -> nat
    decreases s.len(),
{
    if s.len() == 0 || s[0] == '\n' {
        0
    } else {
        1 + line_len(s.drop_first())
    }
}

/// A line without the carriage return of a `\r\n` ending.
pub open spec fn strip_cr(l: Seq<char>) -> Seq<char> {
    if l.len() > 0 && l.last() == '\r' {
        l.drop_last()
    } else {
        l
    }
}

/// The lines of a text (`str::lines`): split at each `\n`, a `\r` before
/// the `\n` dropped, and no empty line after a final `\n`.
pub open spec fn lines(s: Seq<char>) -> Seq<Seq<char>>
    decreases s.len(),
{
    if s.len() == 0 {
        Seq::empty()
    } else {
        let n = line_len(s);
        if n < s.len() {
            seq![strip_cr(s.take(n as int))] + lines(s.skip(n + 1int))
        } else {
            seq![s]
        }
    }
}

/// The number of leading whitespace characters.
pub open spec fn ws_len(s: Seq<char>) -> nat
    decreases s.len(),
{
    if s.len() > 0 && is_ws(s[0]) {
        1 + ws_len(s.drop_first())
    } else {
        0
    }
}

/// The number of leading characters that are not whitespace.
pub open spec fn word_len(s: Seq<char>) -> nat
    decreases s.len(),
{
    if s.len() > 0 && !is_ws(s[0]) {
        1 + word_len(s.drop_first())
    } else {
        0
    }
}

/// The first whitespace-separated word and the text after it (one step of
/// `str::split_whitespace`).
pub open spec fn first_word(s: Seq<char>) -> Option<(Seq<char>, Seq<char>)> {
    let t = s.skip(ws_len(s) as int);
    if t.len() == 0 {
        None
    } else {
        let w = word_len(t);
        Some((t.take(w as int), t.skip(w as int)))
    }
}

/// The hash of a manifest line when its file is `name`: the first word is the
/// hash, the second, without leading `*`s, the file.
pub open spec fn checksum_entry(line: Seq<char>, name: Seq<char>) -> Option<Seq<char>> {
    match first_word(line) {
        None => None,
        Some((hash, rest)) => match first_word(rest) {
            None => None,
            Some((file, _)) => if strip_leading(file, '*') == name {
                Some(hash)
            } else {
                None
            },
        },
    }
}

/// The hash given on the first line for `name`.
pub open spec fn find_checksum(ls: Seq<Seq<char>>, name: Seq<char>) -> Option<Seq<char>>
    decreases ls.len(),
{
    if ls.len() == 0 {
        None
    } else {
        match checksum_entry(ls[0], name) {
            Some(h) => Some(h),
            None => find_checksum(ls.drop_first(), name),
        }
    }
}

proof fn lemma_line_len_at(s: Seq<char>, k: int)
    requires
        0 <= k <= s.len(),
        forall|j: int| 0 <= j < k ==> s[j] != '\n',
        k == s.len() || s[k] == '\n',
    ensures
        line_len(s) == k,
    decreases k,
{
    if k > 0 {
        let t = s.drop_first();
        assert forall|j: int| 0 <= j < k - 1 implies t[j] != '\n' by {
            assert(t[j] == s[j + 1]);
        }
        lemma_line_len_at(t, k - 1);
    }
}

proof fn lemma_ws_len_at(s: Seq<char>, k: int)
    requires
        0 <= k <= s.len(),
        forall|j: int| 0 <= j < k ==> is_ws(s[j]),
        k == s.len() || !is_ws(s[k]),
    ensures
        ws_len(s) == k,
    decreases k,
{
    if k > 0 {
        let t = s.drop_first();
        assert forall|j: int| 0 <= j < k - 1 implies is_ws(t[j]) by {
            assert(t[j] == s[j + 1]);
        }
        lemma_ws_len_at(t, k - 1);
    }
}

proof fn lemma_word_len_at(s: Seq<char>, k: int)
    requires
        0 <= k <= s.len(),
        forall|j: int| 0 <= j < k ==> !is_ws(s[j]),
        k == s.len() || is_ws(s[k]),
    ensures
        word_len(s) == k,
    decreases k,
{
    if k > 0 {
        let t = s.drop_first();
        assert forall|j: int| 0 <= j < k - 1 implies !is_ws(t[j]) by {
            assert(t[j] == s[j + 1]);
        }
        lemma_word_len_at(t, k - 1);
    }
}

/// The first word of the text and the text after it.
pub fn split_first_word(v: &Vec<char>) -> (r: Option<(Vec<char>, Vec<char>)>)
    ensures
        match first_word(v@) {
            None => r is None,
            Some((w, rest)) => r matches Some(p) && p.0@ == w && p.1@ == rest,
        },
{
    let n = v.len();
    let mut i: usize = 0;
    while i < n && is_whitespace(v[i])
        invariant
            n == v@.len(),
            i <= n,
            forall|j: int| 0 <= j < i ==> is_ws(v@[j]),
        decreases n - i,
    {
        i = i + 1;
    }
    proof {
        lemma_ws_len_at(v@, i as int);
    }
    if i == n {
        return None;
    }
    let mut j: usize = i;
    while j < n && !is_whitespace(v[j])
        invariant
            n == v@.len(),
            i <= j <= n,
            forall|k: int| i <= k < j ==> !is_ws(v@[k]),
        decreases n - j,
    {
        j = j + 1;
    }
    let ghost t = v@.skip(i as int);
    proof {
        assert forall|k: int| 0 <= k < j - i implies !is_ws(t[k]) by {
            assert(t[k] == v@[i + k]);
        }
        if j < n {
            assert(t[j - i] == v@[j as int]);
        }
        lemma_word_len_at(t, j - i);
        assert(t.take(j - i) =~= v@.subrange(i as int, j as int));
        assert(t.skip(j - i) =~= v@.subrange(j as int, n as int));
    }
    Some((slice_chars(v, i, j), slice_chars(v, j, n)))
}

/// The hash that a manifest line gives for `name`.
pub fn line_checksum(line: &Vec<char>, name: &Vec<char>) -> (r: Option<Vec<char>>)
    ensures
        match checksum_entry(line@, name@) {
            None => r is None,
            Some(h) => r matches Some(x) && x@ == h,
        },
{
    let (hash, rest) = match split_first_word(line) {
        Some(p) => p,
        None => {
            return None;
        },
    };
    let (file, _tail) = match split_first_word(&rest) {
        Some(p) => p,
        None => {
            return None;
        },
    };
    let file = strip_leading_chars(&file, '*');
    if chars_eq(&file, name) {
        Some(hash)
    } else {
        None
    }
}

/// The hash that a manifest gives, on its first matching line, for `name`.
pub fn manifest_checksum(manifest: &Vec<char>, name: &Vec<char>) -> (r: Option<Vec<char>>)
    ensures
        match find_checksum(lines(manifest@), name@) {
            None => r is None,
            Some(h) => r matches Some(x) && x@ == h,
        },
{
    let n = manifest.len();
    let mut pos: usize = 0;
    assert(manifest@.skip(0) =~= manifest@);
    while pos < n
        invariant
            n == manifest@.len(),
            pos <= n,
            find_checksum(lines(manifest@), name@) == find_checksum(
                lines(manifest@.skip(pos as int)),
                name@,
            ),
        decreases n - pos,
    {
        let ghost t = manifest@.skip(pos as int);
        let mut k: usize = pos;
        while k < n && manifest[k] != '\n'
            invariant
                n == manifest@.len(),
                pos <= k <= n,
                forall|j: int| pos <= j < k ==> manifest@[j] != '\n',
            decreases n - k,
        {
            k = k + 1;
        }
        proof {
            assert forall|j: int| 0 <= j < k - pos implies t[j] != '\n' by {
                assert(t[j] == manifest@[pos + j]);
            }
            if k < n {
                assert(t[k - pos] == manifest@[k as int]);
            }
            lemma_line_len_at(t, k - pos);
        }
        let raw = slice_chars(manifest, pos, k);
        let line = if k < n && raw.len() > 0 && raw[raw.len() - 1] == '\r' {
            slice_chars(&raw, 0, raw.len() - 1)
        } else {
            raw
        };
        proof {
            assert(raw@ =~= t.take(k - pos));
            if k < n {
                assert(t.skip(k - pos + 1) =~= manifest@.skip(k + 1));
                if raw@.len() > 0 && raw@.last() == '\r' {
                    assert(raw@.subrange(0, raw@.len() - 1) =~= raw@.drop_last());
                }
                assert(line@ == strip_cr(t.take(k - pos)));
                assert(lines(t) == seq![line@] + lines(manifest@.skip(k + 1)));
            } else {
                assert(t =~= raw@);
                assert(lines(t) == seq![line@]);
            }
        }
        match line_checksum(&line, name) {
            Some(h) => {
                return Some(h);
            },
            None => {},
        }
        proof {
            let ls = lines(t);
            assert(ls[0] == line@);
            if k < n {
                assert(ls.drop_first() =~= lines(manifest@.skip(k + 1)));
            } else {
                assert(ls.drop_first() =~= Seq::<Seq<char>>::empty());
                assert(manifest@.skip(n as int) =~= Seq::<char>::empty());
                assert(lines(manifest@.skip(n as int)) =~= Seq::<Seq<char>>::empty());
            }
        }
        if k < n {
            pos = k + 1;
        } else {
            pos = n;
        }
    }
    proof {
        assert(manifest@.skip(pos as int) =~= Seq::<char>::empty());
    }
    None
}

} // verus!
