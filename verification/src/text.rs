//! Whitespace, and trimming it from both ends of a text.

use vstd::prelude::*;

verus! {

/// Whether `c` is whitespace: one of the characters that Unicode gives the
/// property `White_Space`.
pub open spec fn is_whitespace(c: char) -> bool {
    ||| '\u{9}' <= c <= '\u{d}'
    ||| c == ' '
    ||| c == '\u{85}'
    ||| c == '\u{a0}'
    ||| c == '\u{1680}'
    ||| '\u{2000}' <= c <= '\u{200a}'
    ||| c == '\u{2028}'
    ||| c == '\u{2029}'
    ||| c == '\u{202f}'
    ||| c == '\u{205f}'
    ||| c == '\u{3000}'
}

/// Tells whether `c` is whitespace, as `char::is_whitespace` does.
pub fn char_is_whitespace(c: char) -> (r: bool)
    ensures
        r == is_whitespace(c),
{
    ('\u{9}' <= c && c <= '\u{d}') || c == ' ' || c == '\u{85}' || c == '\u{a0}' || c == '\u{1680}'
        || ('\u{2000}' <= c && c <= '\u{200a}') || c == '\u{2028}' || c == '\u{2029}' || c
        == '\u{202f}' || c == '\u{205f}' || c == '\u{3000}'
}

/// `s` without its leading whitespace characters.
pub open spec fn trim_start(s: Seq<char>) -> Seq<char>
    decreases s.len(),
{
    if s.len() > 0 && is_whitespace(s.first()) {
        trim_start(s.drop_first())
    } else {
        s
    }
}

/// `s` without its trailing whitespace characters.
pub open spec fn trim_end(s: Seq<char>) -> Seq<char>
    decreases s.len(),
{
    if s.len() > 0 && is_whitespace(s.last()) {
        trim_end(s.drop_last())
    } else {
        s
    }
}

/// `s` without its leading and trailing whitespace characters.
pub open spec fn trimmed(s: Seq<char>) -> Seq<char> {
    trim_end(trim_start(s))
}

/// Whether `s[from..to]` is exactly what trimming leaves of `s`: everything
/// outside the range is whitespace, and a non-empty range starts and ends
/// with a character that is not. Where `s` is all whitespace the range is
/// empty and may lie anywhere.
pub open spec fn is_trim_range(s: Seq<char>, from: int, to: int) -> bool {
    &&& 0 <= from <= to <= s.len()
    &&& from < to ==> {
        &&& forall|k: int| 0 <= k < from ==> is_whitespace(#[trigger] s[k])
        &&& forall|k: int| to <= k < s.len() ==> is_whitespace(#[trigger] s[k])
        &&& !is_whitespace(s[from])
        &&& !is_whitespace(s[to - 1])
    }
    &&& from == to ==> forall|k: int| 0 <= k < s.len() ==> is_whitespace(#[trigger] s[k])
}

/// Skipping `a` leading whitespace characters, up to the first character
/// that is not whitespace, is what `trim_start` does.
proof fn lemma_trim_start_at(s: Seq<char>, a: int)
    requires
        0 <= a <= s.len(),
        forall|k: int| 0 <= k < a ==> is_whitespace(#[trigger] s[k]),
        a < s.len() ==> !is_whitespace(s[a]),
    ensures
        trim_start(s) == s.subrange(a, s.len() as int),
    decreases a,
{
    if a == 0 {
        assert(s.subrange(0, s.len() as int) =~= s);
    } else {
        assert(is_whitespace(s[0]));
        let rest = s.drop_first();
        assert forall|k: int| 0 <= k < a - 1 implies is_whitespace(#[trigger] rest[k]) by {
            assert(rest[k] == s[k + 1]);
        }
        lemma_trim_start_at(rest, a - 1);
        assert(rest.subrange(a - 1, rest.len() as int) =~= s.subrange(a, s.len() as int));
    }
}

/// Dropping the trailing whitespace characters after position `b`, back to
/// the last character that is not whitespace, is what `trim_end` does.
proof fn lemma_trim_end_at(s: Seq<char>, b: int)
    requires
        0 <= b <= s.len(),
        forall|k: int| b <= k < s.len() ==> is_whitespace(#[trigger] s[k]),
        0 < b ==> !is_whitespace(s[b - 1]),
    ensures
        trim_end(s) == s.subrange(0, b),
    decreases s.len() - b,
{
    if b == s.len() {
        assert(s.subrange(0, b) =~= s);
    } else {
        assert(is_whitespace(s[s.len() - 1]));
        let rest = s.drop_last();
        lemma_trim_end_at(rest, b);
        assert(rest.subrange(0, b) =~= s.subrange(0, b));
    }
}

/// A range that meets [`is_trim_range`] holds the trimmed text.
pub proof fn lemma_trim_range(s: Seq<char>, from: int, to: int)
    requires
        is_trim_range(s, from, to),
    ensures
        trimmed(s) == s.subrange(from, to),
{
    if from < to {
        lemma_trim_start_at(s, from);
        let tail = s.subrange(from, s.len() as int);
        assert forall|k: int| to - from <= k < tail.len() implies is_whitespace(
            #[trigger] tail[k],
        ) by {
            assert(tail[k] == s[k + from]);
        }
        assert(tail[to - from - 1] == s[to - 1]);
        lemma_trim_end_at(tail, to - from);
        assert(tail.subrange(0, to - from) =~= s.subrange(from, to));
    } else {
        lemma_trim_start_at(s, s.len() as int);
        assert(s.subrange(s.len() as int, s.len() as int) =~= Seq::<char>::empty());
        assert(s.subrange(from, to) =~= Seq::<char>::empty());
    }
}

/// What trimming leaves of `s` is a range of `s` that meets [`is_trim_range`].
pub proof fn lemma_trimmed_is_range(s: Seq<char>) -> (r: (int, int))
    ensures
        is_trim_range(s, r.0, r.1),
        trimmed(s) == s.subrange(r.0, r.1),
    decreases s.len(),
{
    let r = if s.len() == 0 {
        (0int, 0int)
    } else if is_whitespace(s.first()) {
        let rest = s.drop_first();
        let (a, b) = lemma_trimmed_is_range(rest);
        assert forall|k: int| 0 <= k < s.len() && !(a + 1 <= k < b + 1) implies is_whitespace(
            #[trigger] s[k],
        ) by {
            if k > 0 {
                assert(s[k] == rest[k - 1]);
            }
        }
        if a < b {
            assert(rest[a] == s[a + 1]);
            assert(rest[b - 1] == s[b]);
        }
        (a + 1, b + 1)
    } else if is_whitespace(s.last()) {
        let rest = s.drop_last();
        let (a, b) = lemma_trimmed_is_range(rest);
        assert(rest[0] == s[0]);
        assert(a < b) by {
            if a == b {
                assert(is_whitespace(rest[0]));
            }
        }
        assert forall|k: int| 0 <= k < a implies is_whitespace(#[trigger] s[k]) by {
            assert(s[k] == rest[k]);
        }
        assert forall|k: int| b <= k < s.len() implies is_whitespace(#[trigger] s[k]) by {
            if k < rest.len() {
                assert(s[k] == rest[k]);
            }
        }
        assert(rest[a] == s[a]);
        assert(rest[b - 1] == s[b - 1]);
        (a, b)
    } else {
        (0int, s.len() as int)
    };
    lemma_trim_range(s, r.0, r.1);
    r
}

/// Trimming a text that is already trimmed changes nothing.
pub proof fn lemma_trimmed_idempotent(s: Seq<char>)
    ensures
        trimmed(trimmed(s)) == trimmed(s),
{
    let (a, b) = lemma_trimmed_is_range(s);
    let t = s.subrange(a, b);
    if a < b {
        assert(t[0] == s[a]);
        assert(t[t.len() - 1] == s[b - 1]);
    }
    assert(is_trim_range(t, 0, t.len() as int));
    lemma_trim_range(t, 0, t.len() as int);
    assert(t.subrange(0, t.len() as int) =~= t);
}

/// How the trimmed range of a text moves when one character is appended.
proof fn lemma_trim_range_push(s: Seq<char>, from: int, to: int, c: char)
    requires
        is_trim_range(s, from, to),
    ensures
        is_whitespace(c) ==> is_trim_range(s.push(c), from, to),
        !is_whitespace(c) && from < to ==> is_trim_range(s.push(c), from, s.len() as int + 1),
        !is_whitespace(c) && from == to ==> is_trim_range(
            s.push(c),
            s.len() as int,
            s.len() as int + 1,
        ),
{
    let longer = s.push(c);
    assert forall|k: int| 0 <= k < s.len() implies #[trigger] longer[k] == s[k] by {}
    assert(longer[s.len() as int] == c);
}

/// Returns `s` without its leading and trailing whitespace, as `str::trim` does.
pub fn trim(s: &str) -> (t: &str)
    ensures
        t@ == trimmed(s@),
{
    let len = s.unicode_len();
    let mut start: usize = 0;
    let mut end: usize = 0;
    let mut i: usize = 0;
    for c in it: s.chars()
        invariant
            i == it.index(),
            it.seq() == s@,
            s@.len() == len,
            is_trim_range(s@.subrange(0, i as int), start as int, end as int),
            end == 0 || start < end,
    {
        proof {
            lemma_trim_range_push(s@.subrange(0, i as int), start as int, end as int, c);
            assert(s@.subrange(0, i as int).push(c) =~= s@.subrange(0, i + 1));
        }
        if !char_is_whitespace(c) {
            if end == 0 {
                start = i;
            }
            end = i + 1;
        }
        i = i + 1;
    }
    proof {
        assert(s@.subrange(0, i as int) =~= s@);
        lemma_trim_range(s@, start as int, end as int);
    }
    s.substring_char(start, end)
}

} // verus!
