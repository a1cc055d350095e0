//! Basic glob patterns for package names: `*` for any run of characters,
//! `?` for any one character, `[..]` for one character of a set (with
//! ranges `a-z`), `[!..]` for one character outside a set.
use vstd::prelude::*;

use crate::text::chars_of;

verus! {

/// The index of the first `]` in `p` at or after `from`, or -1.
pub open spec fn find_close(p: Seq<char>, from: int) -> int
    decreases p.len() - from,
{
    if from < 0 || from >= p.len() {
        -1
    } else if p[from] == ']' {
        from
    } else {
        find_close(p, from + 1)
    }
}

/// Where the set that starts `p` (with `[`) begins: after `[`, or after
/// `[!` when it is negated.
pub open spec fn class_start(p: Seq<char>) -> int {
    if p.len() > 1 && p[1] == '!' {
        2
    } else {
        1
    }
}

/// The index of the `]` that closes the set starting `p`, or -1 when `p`
/// opens no set. A `]` right after `[` or `[!` belongs to the set.
pub open spec fn class_close(p: Seq<char>) -> int {
    if p.len() > 0 && p[0] == '[' {
        find_close(p, class_start(p) + 1)
    } else {
        -1
    }
}

/// `c` is one of the characters that the set's body `body` lists, each
/// character alone or as the end of a range `x-y`.
pub open spec fn in_class(body: Seq<char>, c: char) -> bool
    decreases body.len(),
{
    if body.len() == 0 {
        false
    } else if body.len() >= 3 && body[1] == '-' {
        ((body[0] as u32) <= (c as u32) && (c as u32) <= (body[2] as u32)) || in_class(
            body.skip(3),
            c,
        )
    } else {
        body[0] == c || in_class(body.skip(1), c)
    }
}

/// The name `s` matches the pattern `p`.
pub open spec fn glob(p: Seq<char>, s: Seq<char>) -> bool
    decreases p.len(), s.len(),
{
    if p.len() == 0 {
        s.len() == 0
    } else if p[0] == '*' {
        glob(p.skip(1), s) || (s.len() > 0 && glob(p, s.skip(1)))
    } else if s.len() == 0 {
        false
    } else if p[0] == '?' {
        glob(p.skip(1), s.skip(1))
    } else if class_close(p) > 0 {
        let k = class_close(p);
        proof {
            lemma_find_close_range(p, class_start(p) + 1);
        }
        let body = p.subrange(class_start(p), k);
        let negated = class_start(p) == 2;
        (in_class(body, s[0]) != negated) && glob(p.skip(k + 1), s.skip(1))
    } else {
        p[0] == s[0] && glob(p.skip(1), s.skip(1))
    }
}

pub proof fn lemma_find_close_range(p: Seq<char>, from: int)
    ensures
        find_close(p, from) == -1 || (from <= find_close(p, from) < p.len() && p[find_close(
            p,
            from,
        )] == ']'),
    decreases p.len() - from,
{
    if from >= 0 && from < p.len() && p[from] != ']' {
        lemma_find_close_range(p, from + 1);
    }
}

/// The first `]` of `p` at or after `from`, or -1.
fn find_close_at(p: &Vec<char>, from: usize) -> (r: Option<usize>)
    ensures
        match r {
            Some(k) => find_close(p@, from as int) == k,
            None => find_close(p@, from as int) == -1,
        },
{
    let mut k = from;
    while k < p.len() && p[k] != ']'
        invariant
            from <= k,
            find_close(p@, from as int) == find_close(p@, k as int),
        decreases p.len() - k,
    {
        k = k + 1;
    }
    if k < p.len() {
        Some(k)
    } else {
        None
    }
}

fn in_class_at(p: &Vec<char>, from: usize, to: usize, c: char) -> (r: bool)
    requires
        from <= to <= p@.len(),
    ensures
        r == in_class(p@.subrange(from as int, to as int), c),
    decreases to - from,
{
    let ghost body = p@.subrange(from as int, to as int);
    if from == to {
        false
    } else if to - from >= 3 && p[from + 1] == '-' {
        assert(body.skip(3) =~= p@.subrange(from + 3, to as int));
        ((p[from] as u32) <= (c as u32) && (c as u32) <= (p[from + 2] as u32)) || in_class_at(
            p,
            from + 3,
            to,
            c,
        )
    } else {
        assert(body.skip(1) =~= p@.subrange(from + 1, to as int));
        p[from] == c || in_class_at(p, from + 1, to, c)
    }
}

#[verifier::spinoff_prover]
fn glob_at(p: &Vec<char>, pi: usize, s: &Vec<char>, si: usize) -> (r: bool)
    requires
        pi <= p@.len(),
        si <= s@.len(),
    ensures
        r == glob(p@.skip(pi as int), s@.skip(si as int)),
    decreases p@.len() - pi, s@.len() - si,
{
    let ghost ps = p@.skip(pi as int);
    let ghost ss = s@.skip(si as int);
    if pi == p.len() {
        return si == s.len();
    }
    assert(ps.skip(1) =~= p@.skip(pi + 1));
    if si < s.len() {
        assert(ss.skip(1) =~= s@.skip(si + 1));
    }
    if p[pi] == '*' {
        if glob_at(p, pi + 1, s, si) {
            return true;
        }
        return si < s.len() && glob_at(p, pi, s, si + 1);
    }
    if si == s.len() {
        return false;
    }
    if p[pi] == '?' {
        return glob_at(p, pi + 1, s, si + 1);
    }
    if p[pi] == '[' {
        let start: usize = if pi + 1 < p.len() && p[pi + 1] == '!' {
            pi + 2
        } else {
            pi + 1
        };
        proof {
            assert(class_start(ps) == start - pi);
        }
        let close = if start < p.len() {
            find_close_at(p, start + 1)
        } else {
            None
        };
        proof {
            lemma_find_close_shift(p@, pi as int, start + 1 - pi);
            lemma_find_close_range(p@, start + 1);
        }
        if let Some(k) = close {
            proof {
                assert(class_close(ps) == k - pi);
                assert(ps.subrange(class_start(ps), k - pi) =~= p@.subrange(start as int, k as int));
                assert(ps.skip(k - pi + 1) =~= p@.skip(k + 1));
            }
            let member = in_class_at(p, start, k, s[si]);
            let negated = start == pi + 2;
            return member != negated && glob_at(p, k + 1, s, si + 1);
        }
    }
    p[pi] == s[si] && glob_at(p, pi + 1, s, si + 1)
}

proof fn lemma_find_close_shift(p: Seq<char>, d: int, from: int)
    requires
        0 <= d <= p.len(),
        0 <= from,
    ensures
        find_close(p.skip(d), from) == if find_close(p, from + d) == -1 {
            -1
        } else {
            find_close(p, from + d) - d
        },
    decreases p.len() - d - from,
{
    if from < p.len() - d && p[from + d] != ']' {
        lemma_find_close_shift(p, d, from + 1);
    }
}

/// The pattern `*` matches every name.
pub proof fn law_star_matches_all(s: Seq<char>)
    ensures
        glob(seq!['*'], s),
    decreases s.len(),
{
    let p = seq!['*'];
    assert(p.len() == 1 && p[0] == '*');
    assert(p.skip(1) =~= Seq::<char>::empty());
    if s.len() > 0 {
        law_star_matches_all(s.skip(1));
    } else {
        assert(glob(p.skip(1), s));
    }
}

/// `p` holds none of the characters that patterns give a meaning to.
pub open spec fn is_plain(p: Seq<char>) -> bool {
    !p.contains('*') && !p.contains('?') && !p.contains('[')
}

/// A pattern without `*`, `?` or `[` matches exactly the name it spells.
pub proof fn law_plain_pattern_matches_itself(p: Seq<char>, s: Seq<char>)
    requires
        is_plain(p),
    ensures
        glob(p, s) <==> s == p,
    decreases p.len(),
{
    if p.len() > 0 {
        assert(p[0] != '*' && p[0] != '?' && p[0] != '[') by {
            assert(p.contains(p[0]));
        }
        assert(is_plain(p.skip(1))) by {
            if p.skip(1).contains('*') || p.skip(1).contains('?') || p.skip(1).contains('[') {
                let j = choose|j: int| 0 <= j < p.skip(1).len() && (p.skip(1)[j] == '*' || p.skip(1)[j]
                    == '?' || p.skip(1)[j] == '[');
                assert(p[j + 1] == p.skip(1)[j]);
            }
        }
        if s.len() > 0 {
            law_plain_pattern_matches_itself(p.skip(1), s.skip(1));
            assert(p =~= seq![p[0]] + p.skip(1));
            assert(s =~= seq![s[0]] + s.skip(1));
            if s == p {
                assert(s.skip(1) == p.skip(1));
            }
        }
    } else {
        if s.len() == 0 {
            assert(s =~= p);
        }
    }
}

/// Whether the name `name` matches the glob pattern `pattern`.
pub fn glob_match(pattern: &str, name: &str) -> (r: bool)
    ensures
        r == glob(pattern@, name@),
{
    let p = chars_of(pattern);
    let s = chars_of(name);
    assert(p@.skip(0) =~= p@);
    assert(s@.skip(0) =~= s@);
    glob_at(&p, 0, &s, 0)
}

/// The number of characters that a pattern stands for when it has no
/// `*`: one for each literal character, each `?` and each bracket set.
pub open spec fn pattern_width(p: Seq<char>) -> int
    decreases p.len(),
{
    if p.len() == 0 {
        0
    } else if class_close(p) > 0 {
        proof {
            lemma_find_close_range(p, class_start(p) + 1);
        }
        1 + pattern_width(p.skip(class_close(p) + 1))
    } else {
        1 + pattern_width(p.skip(1))
    }
}

proof fn lemma_no_star_skip(p: Seq<char>, j: int)
    requires
        !p.contains('*'),
        0 <= j <= p.len(),
    ensures
        !p.skip(j).contains('*'),
{
    if p.skip(j).contains('*') {
        let t = choose|t: int| 0 <= t < p.skip(j).len() && p.skip(j)[t] == '*';
        assert(p[t + j] == '*');
    }
}

/// Without `*`, each position of a pattern (a character, a `?` or a
/// bracket set) matches exactly one character of the name: a name that
/// matches has as many characters as the pattern has positions. So `?`
/// never matches an empty run: `n?im` matches only names of four
/// characters.
pub proof fn law_width_without_star(p: Seq<char>, s: Seq<char>)
    requires
        !p.contains('*'),
        glob(p, s),
    ensures
        s.len() == pattern_width(p),
    decreases p.len(),
{
    if p.len() > 0 {
        assert(p[0] != '*') by {
            assert(p.contains(p[0]));
        }
        assert(s.len() > 0);
        if p[0] == '?' {
            lemma_no_star_skip(p, 1);
            law_width_without_star(p.skip(1), s.skip(1));
        } else if class_close(p) > 0 {
            let k = class_close(p);
            lemma_find_close_range(p, class_start(p) + 1);
            lemma_no_star_skip(p, k + 1);
            law_width_without_star(p.skip(k + 1), s.skip(1));
        } else {
            lemma_no_star_skip(p, 1);
            law_width_without_star(p.skip(1), s.skip(1));
        }
    }
}

} // verus!
