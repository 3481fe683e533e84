//! Glob-style matching of keys against patterns.
//!
//! A pattern is read from left to right and always has to cover the whole
//! text: `?` stands for one character, `*` for any run of characters,
//! `[...]` for one character out of a set, `[^...]` for one character not in
//! the set, and `\x` for the character `x` itself.  Every other character
//! stands for itself.

use crate::utils::text::to_chars;
use vstd::prelude::*;

verus! {

/// Where the members of a bracket set start, given that `p` starts with `[`:
/// behind the bracket, or behind the `^` that negates the set.
pub open spec fn class_start(p: Seq<char>) -> int {
    if p.len() > 1 && p[1] == '^' {
        2
    } else {
        1
    }
}

/// Whether the bracket set at the head of `p` is negated.
pub open spec fn class_negated(p: Seq<char>) -> bool {
    p.len() > 1 && p[1] == '^'
}

/// The position of the first `]` at or behind `from`, or the length of `p`
/// where there is none.
pub open spec fn class_close(p: Seq<char>, from: int) -> int
    decreases p.len() - from,
{
    if from < 0 || from >= p.len() {
        p.len() as int
    } else if p[from] == ']' {
        from
    } else {
        class_close(p, from + 1)
    }
}

/// Whether the bracket set at the head of `p`, which is closed at `close`,
/// admits the character `c`.
pub open spec fn class_accepts(p: Seq<char>, close: int, c: char) -> bool {
    p.subrange(class_start(p), close).contains(c) != class_negated(p)
}

/// Whether the pattern `p` matches the whole of the text `t`.
///
/// A bracket set runs up to the first `]` behind its opening; its members are
/// taken as they are, without ranges or escapes.  A `[` that is never closed
/// makes the rest of the pattern, bracket included, plain text, and so does a
/// `\` with nothing behind it.
pub open spec fn glob_matches(p: Seq<char>, t: Seq<char>) -> bool
    decreases p.len(),
{
    if p.len() == 0 {
        t.len() == 0
    } else if p[0] == '*' {
        exists|k: int| 0 <= k <= t.len() && glob_matches(p.skip(1), #[trigger] t.skip(k))
    } else if p[0] == '?' {
        t.len() > 0 && glob_matches(p.skip(1), t.skip(1))
    } else if p[0] == '[' {
        let close = class_close(p, class_start(p));
        if 0 < close < p.len() {
            t.len() > 0 && class_accepts(p, close, t[0]) && glob_matches(
                p.skip(close + 1),
                t.skip(1),
            )
        } else {
            t == p
        }
    } else if p[0] == '\\' {
        if p.len() > 1 {
            t.len() > 0 && t[0] == p[1] && glob_matches(p.skip(2), t.skip(1))
        } else {
            t == p
        }
    } else {
        t.len() > 0 && t[0] == p[0] && glob_matches(p.skip(1), t.skip(1))
    }
}

/// How an attempt to match a pattern against a tail of a text ended.
#[derive(Debug, Clone, Copy, PartialEq, Eq, Structural)]
enum Attempt {
    /// The pattern matches the tail.
    Matched,
    /// The pattern does not match the tail.
    Failed,
    /// The pattern matches neither the tail nor any shorter tail, so that no
    /// `*` before it can mend the failure by taking more.
    Hopeless,
}

/// Whether `c` is among `p[from..to]`.
fn class_has(p: &Vec<char>, from: usize, to: usize, c: char) -> (found: bool)
    requires
        from <= to <= p.len(),
    ensures
        found == p@.subrange(from as int, to as int).contains(c),
{
    let mut i: usize = from;
    while i < to
        invariant
            from <= i <= to <= p.len(),
            !p@.subrange(from as int, i as int).contains(c),
        decreases to - i,
    {
        if p[i] == c {
            assert(p@.subrange(from as int, to as int)[i - from] == c);
            return true;
        }
        proof {
            let before = p@.subrange(from as int, i as int);
            let after = p@.subrange(from as int, i + 1);
            assert forall|j: int| 0 <= j < after.len() implies after[j] != c by {
                if j < before.len() {
                    assert(before[j] == after[j]);
                }
            }
        }
        i += 1;
    }
    false
}

/// The position of the first `]` in `p[from..]`, or the length of `p`.
fn find_close(p: &Vec<char>, from: usize) -> (close: usize)
    requires
        from <= p.len(),
    ensures
        close == class_close(p@, from as int),
        from <= close <= p.len(),
{
    let mut i: usize = from;
    while i < p.len() && p[i] != ']'
        invariant
            from <= i <= p.len(),
            class_close(p@, from as int) == class_close(p@, i as int),
        decreases p.len() - i,
    {
        i += 1;
    }
    i
}

/// Whether `p[pi..]` and `t[ti..]` are the same text.
fn same_tail(p: &Vec<char>, pi: usize, t: &Vec<char>, ti: usize) -> (same: bool)
    requires
        pi <= p.len(),
        ti <= t.len(),
    ensures
        same == (t@.skip(ti as int) == p@.skip(pi as int)),
{
    if p.len() - pi != t.len() - ti {
        assert(t@.skip(ti as int).len() != p@.skip(pi as int).len());
        return false;
    }
    let n: usize = p.len() - pi;
    let mut k: usize = 0;
    while k < n
        invariant
            pi <= p.len(),
            ti <= t.len(),
            n == p.len() - pi,
            n == t.len() - ti,
            k <= n,
            forall|j: int| 0 <= j < k ==> p@.skip(pi as int)[j] == t@.skip(ti as int)[j],
        decreases n - k,
    {
        if p[pi + k] != t[ti + k] {
            assert(p@.skip(pi as int)[k as int] != t@.skip(ti as int)[k as int]);
            return false;
        }
        k += 1;
    }
    assert(t@.skip(ti as int) =~= p@.skip(pi as int));
    true
}

/// Whether the head of the pattern `p` is one unit of `width` characters
/// that stands for exactly one character of a text: whatever text `p`
/// matches, the rest of `p` matches the text without its first character.
spec fn takes_one(p: Seq<char>, width: int) -> bool {
    forall|u: Seq<char>| #[trigger]
        glob_matches(p, u) ==> u.len() > 0 && glob_matches(p.skip(width), u.skip(1))
}

/// Matches `p[pi..]` against `t[ti..]`.
///
/// What stands for one character is handled in a loop.  A `*` tries every
/// split of the remaining text, shortest first, and gives up for good as soon
/// as a later `*` finds that what follows it matches no tail of the text:
/// taking more for the earlier `*` only shortens the tail.
fn match_from(p: &Vec<char>, pi: usize, t: &Vec<char>, ti: usize) -> (end: Attempt)
    requires
        pi <= p.len(),
        ti <= t.len(),
    ensures
        (end == Attempt::Matched) == glob_matches(p@.skip(pi as int), t@.skip(ti as int)),
        end == Attempt::Hopeless ==> forall|k: int|
            ti <= k <= t.len() ==> !glob_matches(p@.skip(pi as int), #[trigger] t@.skip(k)),
    decreases p.len() - pi,
{
    let mut i: usize = pi;
    let mut j: usize = ti;
    assert forall|k: int|
        ti <= k <= t.len() && glob_matches(
            p@.skip(pi as int),
            #[trigger] t@.skip(k),
        ) implies k + (j - ti) <= t.len() && glob_matches(
        p@.skip(i as int),
        t@.skip(k + (j - ti)),
    ) by {
        assert(t@.skip(k + (j - ti)) == t@.skip(k));
    }
    loop
        invariant
            pi <= i <= p.len(),
            ti <= j <= t.len(),
            glob_matches(p@.skip(pi as int), t@.skip(ti as int)) == glob_matches(
                p@.skip(i as int),
                t@.skip(j as int),
            ),
            forall|k: int|
                ti <= k <= t.len() && glob_matches(p@.skip(pi as int), #[trigger] t@.skip(k))
                    ==> k + (j - ti) <= t.len() && glob_matches(
                    p@.skip(i as int),
                    t@.skip(k + (j - ti)),
                ),
        decreases p.len() - i,
    {
        let ghost ps = p@.skip(i as int);
        let ghost ts = t@.skip(j as int);
        if i == p.len() {
            return if j == t.len() {
                Attempt::Matched
            } else {
                Attempt::Failed
            };
        }
        let c: char = p[i];
        assert(ps[0] == c);
        if c == '*' {
            let ghost rest = p@.skip(i + 1);
            assert(ps.skip(1) =~= rest);
            let mut k: usize = j;
            loop
                invariant
                    pi <= i < p.len(),
                    ti <= j <= k <= t.len(),
                    ps == p@.skip(i as int),
                    ts == t@.skip(j as int),
                    rest == p@.skip(i + 1),
                    ps.skip(1) == rest,
                    ps[0] == '*',
                    glob_matches(p@.skip(pi as int), t@.skip(ti as int)) == glob_matches(ps, ts),
                    forall|m: int|
                        ti <= m <= t.len() && glob_matches(
                            p@.skip(pi as int),
                            #[trigger] t@.skip(m),
                        ) ==> m + (j - ti) <= t.len() && glob_matches(ps, t@.skip(m + (j - ti))),
                    forall|m: int| j <= m < k ==> !glob_matches(rest, #[trigger] t@.skip(m)),
                decreases t.len() - k,
            {
                let inner = match_from(p, i + 1, t, k);
                if inner == Attempt::Matched {
                    proof {
                        assert(ts.skip(k - j) =~= t@.skip(k as int));
                        lemma_star_matches(ps, ts, k - j);
                    }
                    return Attempt::Matched;
                }
                if inner == Attempt::Hopeless || k == t.len() {
                    proof {
                        assert forall|m: int| j <= m <= t.len() implies !glob_matches(
                            rest,
                            #[trigger] t@.skip(m),
                        ) by {}
                        assert forall|m: int| ti <= m <= t.len() implies !glob_matches(
                            p@.skip(pi as int),
                            #[trigger] t@.skip(m),
                        ) by {
                            if glob_matches(p@.skip(pi as int), t@.skip(m)) {
                                let u = t@.skip(m + (j - ti));
                                assert(glob_matches(ps, u));
                                let more = choose|more: int|
                                    0 <= more <= u.len() && glob_matches(
                                        ps.skip(1),
                                        #[trigger] u.skip(more),
                                    );
                                assert(u.skip(more) =~= t@.skip(m + (j - ti) + more));
                            }
                        }
                    }
                    return Attempt::Hopeless;
                }
                k += 1;
            }
        }
        // What stands at `i` stands for one character: find where it ends
        // and whether the character at `j` fits it.

        let next: usize;
        let fits: bool;
        if c == '[' {
            let negated: bool = i + 1 < p.len() && p[i + 1] == '^';
            let start: usize = if negated {
                i + 2
            } else {
                i + 1
            };
            let close: usize = find_close(p, start);
            proof {
                lemma_class_close_skip(p@, i as int, start as int);
            }
            if close == p.len() {
                return if same_tail(p, i, t, j) {
                    Attempt::Matched
                } else {
                    Attempt::Failed
                };
            }
            next = close + 1;
            fits = j < t.len() && class_has(p, start, close, t[j]) != negated;
            assert(ps.subrange(class_start(ps), close - i) =~= p@.subrange(
                start as int,
                close as int,
            ));
        } else if c == '\\' {
            if i + 1 == p.len() {
                return if same_tail(p, i, t, j) {
                    Attempt::Matched
                } else {
                    Attempt::Failed
                };
            }
            next = i + 2;
            fits = j < t.len() && t[j] == p[i + 1];
        } else {
            next = i + 1;
            fits = j < t.len() && (c == '?' || t[j] == c);
        }
        assert(ps.skip(next - i) =~= p@.skip(next as int));
        assert(takes_one(ps, next - i));
        assert(glob_matches(ps, ts) == (fits && glob_matches(ps.skip(next - i), ts.skip(1))));
        if !fits {
            return Attempt::Failed;
        }
        proof {
            assert(ts.skip(1) =~= t@.skip(j + 1));
            assert forall|k: int|
                ti <= k <= t.len() && glob_matches(
                    p@.skip(pi as int),
                    #[trigger] t@.skip(k),
                ) implies k + (j + 1 - ti) <= t.len() && glob_matches(
                p@.skip(next as int),
                t@.skip(k + (j + 1 - ti)),
            ) by {
                let u = t@.skip(k + (j - ti));
                assert(glob_matches(ps, u));
                assert(u.skip(1) =~= t@.skip(k + (j + 1 - ti)));
            }
        }
        i = next;
        j += 1;
    }
}

/// A `*` at the head of a pattern matches when the rest of the pattern matches
/// what is left after the first `k` characters of the text.
proof fn lemma_star_matches(p: Seq<char>, t: Seq<char>, k: int)
    requires
        p.len() > 0,
        p[0] == '*',
        0 <= k <= t.len(),
        glob_matches(p.skip(1), t.skip(k)),
    ensures
        glob_matches(p, t),
{
}

/// The empty pattern matches the empty text and no other.
pub proof fn lemma_empty_pattern(t: Seq<char>)
    ensures
        glob_matches(Seq::<char>::empty(), t) <==> t.len() == 0,
{
}

/// A lone `*` matches every text.
pub proof fn lemma_lone_star(t: Seq<char>)
    ensures
        glob_matches(seq!['*'], t),
{
    let p = seq!['*'];
    assert(p.skip(1).len() == 0);
    assert(t.skip(t.len() as int).len() == 0);
    lemma_star_matches(p, t, t.len() as int);
}

/// Whether `c` has a meaning of its own in a pattern.
pub open spec fn is_special(c: char) -> bool {
    c == '*' || c == '?' || c == '[' || c == '\\'
}

/// A pattern without special characters matches itself and no other text.
pub proof fn lemma_plain_pattern(p: Seq<char>, t: Seq<char>)
    requires
        forall|i: int| 0 <= i < p.len() ==> !is_special(#[trigger] p[i]),
    ensures
        glob_matches(p, t) <==> t == p,
    decreases p.len(),
{
    if p.len() == 0 {
        assert(t.len() == 0 <==> t =~= p);
    } else {
        assert(!is_special(p[0]));
        if t.len() > 0 {
            assert forall|i: int| 0 <= i < p.skip(1).len() implies !is_special(
                #[trigger] p.skip(1)[i],
            ) by {
                assert(p.skip(1)[i] == p[i + 1]);
            }
            lemma_plain_pattern(p.skip(1), t.skip(1));
            if t[0] == p[0] && t.skip(1) == p.skip(1) {
                assert(t.skip(1).len() == p.skip(1).len());
                assert forall|i: int| 0 <= i < t.len() implies t[i] == p[i] by {
                    if i > 0 {
                        assert(t.skip(1)[i - 1] == p.skip(1)[i - 1]);
                    }
                }
                assert(t =~= p);
            }
        }
    }
}

/// The closing bracket of a set is found at the same place whether positions
/// are counted from the start of the pattern or from the set's opening.
proof fn lemma_class_close_skip(p: Seq<char>, i: int, from: int)
    requires
        0 <= i <= from <= p.len(),
    ensures
        class_close(p.skip(i), from - i) == class_close(p, from) - i,
    decreases p.len() - from,
{
    if from < p.len() && p[from] != ']' {
        lemma_class_close_skip(p, i, from + 1);
    }
}

/// Whether the pattern `pattern` matches the whole of `text`, both given as
/// characters.
pub fn is_match_chars(pattern: &Vec<char>, text: &Vec<char>) -> (matched: bool)
    ensures
        matched == glob_matches(pattern@, text@),
{
    assert(pattern@.skip(0) =~= pattern@);
    assert(text@.skip(0) =~= text@);
    match_from(pattern, 0, text, 0) == Attempt::Matched
}

/// Whether `pattern` matches the whole of `text`.
pub fn is_match(pattern: &str, text: &str) -> (matched: bool)
    ensures
        matched == glob_matches(pattern@, text@),
{
    let p = to_chars(pattern);
    let t = to_chars(text);
    is_match_chars(&p, &t)
}

} // verus!
