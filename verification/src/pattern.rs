//! The patterns of `Match` guards: `*` and `?` wildcards, and comma-separated
//! lists in which `!` negates an entry.

use vstd::prelude::*;
use vstd::slice::slice_subrange;

use crate::text::{slices, split, split_on, to_chars, trim, trimmed};

verus! {

/// Whether the whole of `candidate` fits `pattern`: `*` stands for any run of
/// characters, `?` for exactly one, and every other character for itself.
pub open spec fn fits(pattern: Seq<char>, candidate: Seq<char>) -> bool
    decreases pattern.len(),
{
    if pattern.len() == 0 {
        candidate.len() == 0
    } else if pattern[0] == '*' {
        exists|k: int|
            0 <= k <= candidate.len() && fits(pattern.drop_first(), #[trigger] candidate.skip(k))
    } else {
        &&& candidate.len() > 0
        &&& pattern[0] == '?' || pattern[0] == candidate[0]
        &&& fits(pattern.drop_first(), candidate.drop_first())
    }
}

/// Two stars in a row mean what one means.
proof fn lemma_double_star(pattern: Seq<char>, candidate: Seq<char>)
    requires
        pattern.len() >= 2,
        pattern[0] == '*',
        pattern[1] == '*',
    ensures
        fits(pattern, candidate) == fits(pattern.drop_first(), candidate),
{
    let rest = pattern.drop_first();
    if fits(pattern, candidate) {
        let k = choose|k: int|
            0 <= k <= candidate.len() && fits(rest, #[trigger] candidate.skip(k));
        let tail = candidate.skip(k);
        let m = choose|m: int|
            0 <= m <= tail.len() && fits(rest.drop_first(), #[trigger] tail.skip(m));
        assert(tail.skip(m) =~= candidate.skip(k + m));
    }
    if fits(rest, candidate) {
        assert(candidate.skip(0) =~= candidate);
    }
}

/// A lone star fits everything.
pub proof fn law_star_fits_all(candidate: Seq<char>)
    ensures
        fits(seq!['*'], candidate),
{
    let n = candidate.len() as int;
    assert(seq!['*'].drop_first() =~= Seq::<char>::empty());
    assert(candidate.skip(n) =~= Seq::<char>::empty());
    assert(fits(seq!['*'].drop_first(), candidate.skip(n)));
}

/// A pattern without wildcards fits itself alone.
pub proof fn law_plain_pattern_fits_itself(pattern: Seq<char>, candidate: Seq<char>)
    requires
        !pattern.contains('*'),
        !pattern.contains('?'),
    ensures
        fits(pattern, candidate) <==> pattern == candidate,
    decreases pattern.len(),
{
    if pattern.len() == 0 {
        assert(candidate.len() == 0 ==> candidate =~= pattern);
    } else {
        assert(pattern[0] != '*' && pattern[0] != '?');
        assert forall|c: char| pattern.drop_first().contains(c) implies pattern.contains(c) by {
            let k = choose|k: int|
                0 <= k < pattern.drop_first().len() && pattern.drop_first()[k] == c;
            assert(pattern[k + 1] == c);
        }
        if candidate.len() > 0 {
            law_plain_pattern_fits_itself(pattern.drop_first(), candidate.drop_first());
            if pattern[0] == candidate[0] && pattern.drop_first() == candidate.drop_first() {
                assert(pattern =~= seq![pattern[0]] + pattern.drop_first());
                assert(candidate =~= seq![candidate[0]] + candidate.drop_first());
            }
        }
    }
}

/// Whether `candidate` from `ci` on fits `pat` from `pi` on.
fn glob_match_inner(pat: &[char], pi: usize, cand: &[char], ci: usize) -> (r: bool)
    requires
        pi <= pat@.len(),
        ci <= cand@.len(),
    ensures
        r == fits(pat@.skip(pi as int), cand@.skip(ci as int)),
    decreases pat@.len() - pi,
{
    let ghost goal = fits(pat@.skip(pi as int), cand@.skip(ci as int));
    let mut p: usize = pi;
    let mut c: usize = ci;
    while p < pat.len()
        invariant
            pi <= p <= pat@.len(),
            c <= cand@.len(),
            goal == fits(pat@.skip(p as int), cand@.skip(c as int)),
            goal == fits(pat@.skip(pi as int), cand@.skip(ci as int)),
        decreases pat.len() - p,
    {
        let ghost from = pat@.skip(p as int);
        let ghost left = cand@.skip(c as int);
        assert(from.drop_first() =~= pat@.skip(p + 1));
        if pat[p] == '*' {
            p += 1;
            while p < pat.len() && pat[p] == '*'
                invariant
                    pi < p <= pat@.len(),
                    c <= cand@.len(),
                    pat@[p - 1] == '*',
                    goal == fits(pat@.skip(p - 1), cand@.skip(c as int)),
                    goal == fits(pat@.skip(pi as int), cand@.skip(ci as int)),
                decreases pat.len() - p,
            {
                proof {
                    lemma_double_star(pat@.skip(p - 1), cand@.skip(c as int));
                    assert(pat@.skip(p - 1).drop_first() =~= pat@.skip(p as int));
                }
                p += 1;
            }
            let ghost left = cand@.skip(c as int);
            let ghost rest = pat@.skip(p as int);
            assert(pat@.skip(p - 1).drop_first() =~= rest);
            if p == pat.len() {
                assert(fits(rest, left.skip(left.len() as int)));
                return true;
            }
            let ghost first: int = c as int;
            loop
                invariant
                    pi < p <= pat@.len(),
                    0 <= first <= c <= cand@.len(),
                    left == cand@.skip(first),
                    rest == pat@.skip(p as int),
                    goal == exists|k: int|
                        0 <= k <= left.len() && fits(rest, #[trigger] left.skip(k)),
                    goal == fits(pat@.skip(pi as int), cand@.skip(ci as int)),
                    forall|k: int| 0 <= k < c - first ==> !fits(rest, #[trigger] left.skip(k)),
                decreases cand.len() - c,
            {
                assert(cand@.skip(c as int) =~= left.skip(c - first));
                if glob_match_inner(pat, p, cand, c) {
                    return true;
                }
                if c == cand.len() {
                    return false;
                }
                c += 1;
            }
        }
        if c >= cand.len() {
            return false;
        }
        assert(left.drop_first() =~= cand@.skip(c + 1));
        if pat[p] != '?' && pat[p] != cand[c] {
            return false;
        }
        p += 1;
        c += 1;
    }
    c == cand.len()
}

/// Whether the whole of `candidate` fits `pattern`.
pub fn glob_match(pattern: &str, candidate: &str) -> (r: bool)
    ensures
        r == fits(pattern@, candidate@),
{
    let pat = to_chars(pattern);
    let cand = to_chars(candidate);
    assert(pat@.skip(0) =~= pat@);
    assert(cand@.skip(0) =~= cand@);
    glob_match_inner(pat.as_slice(), 0, cand.as_slice(), 0)
}

/// Whether a (trimmed) list entry without `!` fits `candidate`.
pub open spec fn admits(entry: Seq<char>, candidate: Seq<char>) -> bool {
    entry.len() > 0 && entry[0] != '!' && fits(entry, candidate)
}

/// Whether a (trimmed) list entry with `!` fits `candidate`.
pub open spec fn forbids(entry: Seq<char>, candidate: Seq<char>) -> bool {
    entry.len() > 0 && entry[0] == '!' && fits(entry.drop_first(), candidate)
}

/// A list admits `candidate` when one of its plain entries fits and none of its
/// negated entries does.
pub open spec fn list_admits(list: Seq<char>, candidate: Seq<char>) -> bool {
    let entries = split_on(list, ',');
    &&& exists|i: int| 0 <= i < entries.len() && admits(trim(#[trigger] entries[i]), candidate)
    &&& !exists|i: int| 0 <= i < entries.len() && forbids(trim(#[trigger] entries[i]), candidate)
}

/// `pattern_list_matches` on characters.
pub fn list_matches(list: &[char], candidate: &[char]) -> (r: bool)
    ensures
        r == list_admits(list@, candidate@),
{
    let entries = split(list, ',');
    let ghost specs = split_on(list@, ',');
    let mut admitted: bool = false;
    let mut i: usize = 0;
    assert(candidate@.skip(0) =~= candidate@);
    while i < entries.len()
        invariant
            i <= entries@.len(),
            slices(entries@) == specs,
            specs == split_on(list@, ','),
            candidate@.skip(0) == candidate@,
            admitted == exists|k: int|
                0 <= k < i && admits(trim(#[trigger] specs[k]), candidate@),
            forall|k: int| 0 <= k < i ==> !forbids(trim(#[trigger] specs[k]), candidate@),
        decreases entries.len() - i,
    {
        let entry = trimmed(entries[i]);
        assert(slices(entries@)[i as int] == entries@[i as int]@);
        assert(entry@ == trim(specs[i as int]));
        if entry.len() > 0 {
            if entry[0] == '!' {
                let body = slice_subrange(entry, 1, entry.len());
                assert(body@ =~= entry@.drop_first());
                assert(body@.skip(0) =~= body@);
                if glob_match_inner(body, 0, candidate, 0) {
                    assert(forbids(trim(specs[i as int]), candidate@));
                    return false;
                }
            } else {
                assert(entry@.skip(0) =~= entry@);
                if glob_match_inner(entry, 0, candidate, 0) {
                    assert(admits(trim(specs[i as int]), candidate@));
                    admitted = true;
                }
            }
        }
        i += 1;
    }
    admitted
}

/// Whether the comma-separated `pattern_list` admits `candidate`.
pub fn pattern_list_matches(pattern_list: &str, candidate: &str) -> (r: bool)
    ensures
        r == list_admits(pattern_list@, candidate@),
{
    let list = to_chars(pattern_list);
    let cand = to_chars(candidate);
    list_matches(list.as_slice(), cand.as_slice())
}

/// A negated entry that fits refuses the candidate, whatever else the list holds.
pub proof fn law_negation_refuses(list: Seq<char>, candidate: Seq<char>, i: int)
    requires
        0 <= i < split_on(list, ',').len(),
        forbids(trim(split_on(list, ',')[i]), candidate),
    ensures
        !list_admits(list, candidate),
{
    assert(forbids(trim(split_on(list, ',')[i]), candidate));
}

} // verus!
