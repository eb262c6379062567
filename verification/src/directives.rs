//! The statements of an `ssh_config(5)` file: its significant lines, the
//! keyword each starts with, and the guards of `Match` blocks.

use vstd::prelude::*;
use vstd::slice::slice_subrange;

use crate::pattern::{list_admits, list_matches};
use crate::text::{
    is_space, is_whitespace, is_word, lower, lowered, slices, split, split_on, split_words,
    to_chars, trim, trimmed, words,
};

verus! {

/// The lines of a file that say something, trimmed: neither blank nor comments.
pub open spec fn significant(lines: Seq<Seq<char>>) -> Seq<Seq<char>>
    decreases lines.len(),
{
    if lines.len() == 0 {
        Seq::empty()
    } else {
        let before = significant(lines.drop_last());
        let line = trim(lines.last());
        if line.len() == 0 || line[0] == '#' {
            before
        } else {
            before.push(line)
        }
    }
}

/// The statements of a file's text.
pub open spec fn statements(content: Seq<char>) -> Seq<Seq<char>> {
    significant(split_on(content, '\n'))
}

/// The statements of a file's text.
pub fn split_statements(content: &[char]) -> (r: Vec<&[char]>)
    ensures
        slices(r@) == statements(content@),
{
    let lines = split(content, '\n');
    let ghost all = slices(lines@);
    let mut out: Vec<&[char]> = Vec::new();
    let mut i: usize = 0;
    assert(slices(out@) =~= Seq::<Seq<char>>::empty());
    while i < lines.len()
        invariant
            i <= lines@.len(),
            all == slices(lines@),
            slices(out@) == significant(all.take(i as int)),
        decreases lines.len() - i,
    {
        let line = trimmed(lines[i]);
        let ghost before = slices(out@);
        assert(all[i as int] == lines@[i as int]@);
        assert(all.take(i + 1).drop_last() =~= all.take(i as int));
        assert(all.take(i + 1).last() == all[i as int]);
        if line.len() > 0 && line[0] != '#' {
            out.push(line);
            assert(slices(out@) =~= before.push(line@));
        }
        i += 1;
    }
    assert(all.take(all.len() as int) =~= all);
    out
}

/// What follows `keyword` on a line that starts with it, in any mix of ASCII
/// cases, and goes on with white space or `=`. The delimiter and the white space
/// around the remainder are left out.
pub open spec fn argument_of(line: Seq<char>, keyword: Seq<char>) -> Option<Seq<char>> {
    let n = keyword.len() as int;
    if line.len() > n && lowered(line.take(n)) == lowered(keyword) && (is_space(line[n]) || line[n]
        == '=') {
        Some(trim(line.skip(n + 1)))
    } else {
        None
    }
}

/// The view of an optional slice.
pub open spec fn slice_view(o: Option<&[char]>) -> Option<Seq<char>> {
    match o {
        Some(s) => Some(s@),
        None => None,
    }
}

/// The argument of `keyword` on `line`, where the line is that directive.
pub fn strip_keyword<'a>(line: &'a [char], keyword: &str) -> (r: Option<&'a [char]>)
    ensures
        slice_view(r) == argument_of(line@, keyword@),
{
    let kw = to_chars(keyword);
    let n: usize = kw.len();
    if line.len() <= n {
        return None;
    }
    let head = slice_subrange(line, 0, n);
    assert(head@ =~= line@.take(n as int));
    if !is_word(head, keyword) {
        return None;
    }
    let c: char = line[n];
    if is_whitespace(c) || c == '=' {
        let rest = slice_subrange(line, n + 1, line.len());
        assert(rest@ =~= line@.skip(n + 1));
        Some(trimmed(rest))
    } else {
        None
    }
}

/// The aliases of a `Host` line.
pub fn strip_host_directive<'a>(line: &'a [char]) -> (r: Option<&'a [char]>)
    ensures
        slice_view(r) == host_argument(line@),
{
    strip_keyword(line, "Host")
}

/// What a `Host` statement names.
pub open spec fn host_argument(line: Seq<char>) -> Option<Seq<char>> {
    argument_of(line, "Host"@)
}

/// The guards of a `Match` statement.
pub open spec fn match_argument(line: Seq<char>) -> Option<Seq<char>> {
    argument_of(line, "Match"@)
}

/// The paths of an `Include` statement.
pub open spec fn include_argument(line: Seq<char>) -> Option<Seq<char>> {
    argument_of(line, "Include"@)
}

/// A line is at most one of `Match`, `Host` and `Include`.
pub proof fn lemma_block_keywords_exclude(line: Seq<char>)
    ensures
        match_argument(line) is Some ==> host_argument(line) is None && include_argument(
            line,
        ) is None,
        host_argument(line) is Some ==> match_argument(line) is None && include_argument(
            line,
        ) is None,
{
    reveal_strlit("Match");
    reveal_strlit("Host");
    reveal_strlit("Include");
    if match_argument(line) is Some {
        assert(lowered(line.take(5))[0] == lower(line[0]));
        assert(lowered("Match"@)[0] == lower('M'));
    }
    if host_argument(line) is Some {
        assert(lowered(line.take(4))[0] == lower(line[0]));
        assert(lowered("Host"@)[0] == lower('H'));
    }
    if include_argument(line) is Some {
        assert(lowered(line.take(7))[0] == lower(line[0]));
        assert(lowered("Include"@)[0] == lower('I'));
    }
}

/// `HostName` lines are not `Host` lines: a keyword ends at its delimiter.
pub proof fn law_longer_keyword_is_another(line: Seq<char>, keyword: Seq<char>, longer: Seq<char>)
    requires
        keyword.len() < longer.len(),
        !is_space(longer[keyword.len() as int]),
        longer[keyword.len() as int] != '=',
        argument_of(line, longer) is Some,
    ensures
        argument_of(line, keyword) is None,
{
    let n = keyword.len() as int;
    let m = longer.len() as int;
    assert(lowered(line.take(m))[n] == lower(line[n]));
    assert(lowered(longer)[n] == lower(longer[n]));
}

/// What a `Match` line decides for the block it opens.
#[derive(Debug, Clone, Copy, PartialEq, Eq, Structural)]
pub enum MatchOutcome {
    /// Every guard passed, or the guard is `all`.
    Active,
    /// A guard failed, or is one that is not evaluated.
    Inactive,
}

/// Whether the guards hold for `user`, read from the left. `all` settles the
/// rest; `user` needs a known user whom its pattern list admits; `host` always
/// holds and takes its pattern along; any other guard fails.
pub open spec fn guards_hold(guards: Seq<Seq<char>>, user: Option<Seq<char>>) -> bool
    decreases guards.len(),
{
    if guards.len() == 0 {
        true
    } else if lowered(guards[0]) == lowered("all"@) {
        true
    } else if lowered(guards[0]) == lowered("user"@) {
        &&& guards.len() >= 2
        &&& user is Some
        &&& list_admits(guards[1], user->0)
        &&& guards_hold(guards.skip(2), user)
    } else if lowered(guards[0]) == lowered("host"@) {
        guards.len() >= 2 ==> guards_hold(guards.skip(2), user)
    } else {
        false
    }
}

/// Whether a `Match` block with these guards is active for `user`. A block
/// without guards never is.
pub open spec fn match_active(rest: Seq<char>, user: Option<Seq<char>>) -> bool {
    words(rest).len() > 0 && guards_hold(words(rest), user)
}

/// The outcome of the guards in `rest` for `user`.
pub fn evaluate_match(rest: &[char], user: Option<&[char]>) -> (r: MatchOutcome)
    ensures
        r == (if match_active(rest@, slice_view(user)) {
            MatchOutcome::Active
        } else {
            MatchOutcome::Inactive
        }),
{
    let tokens = split_words(rest);
    let ghost guards = words(rest@);
    let ghost known = slice_view(user);
    if tokens.len() == 0 {
        return MatchOutcome::Inactive;
    }
    let mut i: usize = 0;
    assert(guards.skip(0) =~= guards);
    while i < tokens.len()
        invariant
            i <= tokens@.len(),
            guards == slices(tokens@),
            guards == words(rest@),
            guards.len() > 0,
            known == slice_view(user),
            guards_hold(guards, known) == guards_hold(guards.skip(i as int), known),
        decreases tokens.len() - i,
    {
        let predicate = tokens[i];
        assert(guards[i as int] == predicate@);
        assert(guards.skip(i as int)[0] == guards[i as int]);
        if is_word(predicate, "all") {
            return MatchOutcome::Active;
        } else if is_word(predicate, "user") {
            if tokens.len() - i < 2 {
                return MatchOutcome::Inactive;
            }
            let pattern = tokens[i + 1];
            assert(guards[i + 1] == pattern@);
            assert(guards.skip(i as int)[1] == guards[i + 1]);
            match user {
                None => {
                    return MatchOutcome::Inactive;
                },
                Some(u) => {
                    if !list_matches(pattern, u) {
                        return MatchOutcome::Inactive;
                    }
                },
            }
            assert(guards.skip(i as int).skip(2) =~= guards.skip(i + 2));
            i += 2;
        } else if is_word(predicate, "host") {
            if tokens.len() - i < 2 {
                return MatchOutcome::Active;
            }
            assert(guards.skip(i as int).skip(2) =~= guards.skip(i + 2));
            i += 2;
        } else {
            return MatchOutcome::Inactive;
        }
    }
    MatchOutcome::Active
}

/// Whether a `Host` line that comes after `before` counts. Only the last block
/// line matters: after a `Match` line its guards decide, and after a `Host` line,
/// as at the start of a file, every `Host` line counts.
pub open spec fn gate_open(before: Seq<Seq<char>>, user: Option<Seq<char>>) -> bool
    decreases before.len(),
{
    if before.len() == 0 {
        true
    } else if match_argument(before.last()) is Some {
        match_active(match_argument(before.last())->0, user)
    } else if host_argument(before.last()) is Some {
        true
    } else {
        gate_open(before.drop_last(), user)
    }
}

/// The paths that the `Include` lines name, in the order of the file.
pub open spec fn include_tokens(lines: Seq<Seq<char>>) -> Seq<Seq<char>>
    decreases lines.len(),
{
    if lines.len() == 0 {
        Seq::empty()
    } else {
        let before = include_tokens(lines.drop_last());
        match include_argument(lines.last()) {
            Some(rest) => before + words(rest),
            None => before,
        }
    }
}

/// `Match all` is active for everyone, known or not.
pub proof fn law_match_all(rest: Seq<char>, user: Option<Seq<char>>)
    requires
        words(rest).len() > 0,
        lowered(words(rest)[0]) == lowered("all"@),
    ensures
        match_active(rest, user),
{
}

/// Without a known user no `Match user` block is active.
pub proof fn law_match_user_needs_a_user(rest: Seq<char>)
    requires
        words(rest).len() > 0,
        lowered(words(rest)[0]) == lowered("user"@),
    ensures
        !match_active(rest, None),
{
    reveal_strlit("all");
    reveal_strlit("user");
    assert(lowered("all"@).len() != lowered("user"@).len());
}

/// A `host` guard never decides: whatever its pattern, only the guards after it do. The
/// host that will be dialled is not known yet.
pub proof fn law_match_host_never_decides(rest: Seq<char>, user: Option<Seq<char>>)
    requires
        words(rest).len() > 0,
        lowered(words(rest)[0]) == lowered("host"@),
    ensures
        words(rest).len() <= 2 ==> match_active(rest, user),
        words(rest).len() > 2 ==> match_active(rest, user) == guards_hold(
            words(rest).skip(2),
            user,
        ),
{
    reveal_strlit("all");
    reveal_strlit("user");
    reveal_strlit("host");
    assert(lowered("all"@).len() != lowered("host"@).len());
    assert(lowered("user"@)[0] == lower('u'));
    assert(lowered("host"@)[0] == lower('h'));
    if words(rest).len() == 2 {
        assert(words(rest).skip(2).len() == 0);
        assert(guards_hold(words(rest).skip(2), user));
    }
}

/// A block whose first guard is none of `all`, `user` and `host` is not active, and
/// neither is one without guards.
pub proof fn law_other_guards_fail(rest: Seq<char>, user: Option<Seq<char>>)
    requires
        words(rest).len() > 0 ==> lowered(words(rest)[0]) != lowered("all"@) && lowered(
            words(rest)[0],
        ) != lowered("user"@) && lowered(words(rest)[0]) != lowered("host"@),
    ensures
        !match_active(rest, user),
{
}

} // verus!
