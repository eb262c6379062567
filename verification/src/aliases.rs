//! The host aliases that configuration files name.

use vstd::prelude::*;

use crate::directives::{
    evaluate_match, gate_open, host_argument, match_argument, split_statements, statements,
    slice_view, strip_host_directive, strip_keyword, lemma_block_keywords_exclude,
    MatchOutcome,
};
use crate::order::{ascending, insert_ascending};
use crate::text::{has_char, slices, split_words, str_view, texts, to_chars, to_text, words};

verus! {

/// Whether `name` is something to dial rather than a pattern to match with:
/// without wildcards, and without the negation sign in front.
pub open spec fn dialable(name: Seq<char>) -> bool {
    &&& !name.contains('*')
    &&& !name.contains('?')
    &&& !(name.len() > 0 && name[0] == '!')
}

/// Whether `name` can be dialled.
pub fn is_dialable(name: &[char]) -> (r: bool)
    ensures
        r == dialable(name@),
{
    !has_char(name, '*') && !has_char(name, '?') && !(name.len() > 0 && name[0] == '!')
}

/// Whether a statement is a `Host` line that lists `name` as an alias.
pub open spec fn line_names(line: Seq<char>, name: Seq<char>) -> bool {
    &&& host_argument(line) is Some
    &&& words(host_argument(line)->0).contains(name)
    &&& dialable(name)
}

/// Whether one of a file's `Host` lines lists `name`, whatever block it is in.
pub open spec fn body_names(content: Seq<char>, name: Seq<char>) -> bool {
    exists|i: int|
        0 <= i < statements(content).len() && line_names(#[trigger] statements(content)[i], name)
}

/// Whether one of the `Host` lines that count for `user` lists `name`: a `Host`
/// line counts unless it stands in a `Match` block that is not active.
pub open spec fn file_names(
    content: Seq<char>,
    user: Option<Seq<char>>,
    name: Seq<char>,
) -> bool {
    exists|i: int|
        0 <= i < statements(content).len() && line_names(#[trigger] statements(content)[i], name)
            && gate_open(statements(content).take(i), user)
}

/// Adds the aliases listed in `rest` to `hosts`.
pub fn push_aliases(rest: &[char], hosts: &mut Vec<String>)
    requires
        ascending(texts(old(hosts)@)),
    ensures
        ascending(texts(final(hosts)@)),
        forall|t: Seq<char>|
            #[trigger] texts(final(hosts)@).contains(t) <==> texts(old(hosts)@).contains(t) || (words(
                rest@,
            ).contains(t) && dialable(t)),
{
    let names = split_words(rest);
    let ghost all = words(rest@);
    let ghost start = texts(hosts@);
    let mut i: usize = 0;
    while i < names.len()
        invariant
            i <= names@.len(),
            all == slices(names@),
            all == words(rest@),
            start == texts(old(hosts)@),
            ascending(texts(hosts@)),
            forall|t: Seq<char>|
                #[trigger] texts(hosts@).contains(t) <==> start.contains(t) || (all.take(i as int).contains(t)
                    && dialable(t)),
        decreases names.len() - i,
    {
        let name = names[i];
        let ghost held = texts(hosts@);
        assert(all[i as int] == name@);
        if is_dialable(name) {
            insert_ascending(hosts, to_text(name));
        }
        proof {
            assert(all.take(i + 1) =~= all.take(i as int).push(name@));
            assert forall|t: Seq<char>|
                all.take(i + 1).contains(t) <==> all.take(i as int).contains(t) || t == name@ by {
                let more = all.take(i + 1);
                assert(more[i as int] == name@);
                if all.take(i as int).contains(t) {
                    let k = choose|k: int|
                        0 <= k < all.take(i as int).len() && all.take(i as int)[k] == t;
                    assert(more[k] == t);
                }
                if more.contains(t) {
                    let k = choose|k: int| 0 <= k < more.len() && more[k] == t;
                    if k < i {
                        assert(all.take(i as int)[k] == t);
                    }
                }
            }
            assert forall|t: Seq<char>| #[trigger]
                texts(hosts@).contains(t) <==> start.contains(t) || (all.take(i + 1).contains(t)
                    && dialable(t)) by {
                assert(held.contains(t) <==> start.contains(t) || (all.take(i as int).contains(t)
                    && dialable(t)));
            }
        }
        i += 1;
    }
    assert(all.take(all.len() as int) =~= all);
}

/// Adds the aliases of every `Host` line in `content` to `hosts`.
pub fn collect_hosts_from_body(content: &str, hosts: &mut Vec<String>)
    requires
        ascending(texts(old(hosts)@)),
    ensures
        ascending(texts(final(hosts)@)),
        forall|t: Seq<char>|
            #[trigger] texts(final(hosts)@).contains(t) <==> texts(old(hosts)@).contains(t) || body_names(
                content@,
                t,
            ),
{
    let chars = to_chars(content);
    let lines = split_statements(chars.as_slice());
    let ghost all = statements(content@);
    let ghost start = texts(hosts@);
    let mut i: usize = 0;
    while i < lines.len()
        invariant
            i <= lines@.len(),
            all == slices(lines@),
            start == texts(old(hosts)@),
            ascending(texts(hosts@)),
            forall|t: Seq<char>|
                #[trigger] texts(hosts@).contains(t) <==> start.contains(t) || exists|k: int|
                    0 <= k < i && line_names(#[trigger] all[k], t),
        decreases lines.len() - i,
    {
        let ghost held = texts(hosts@);
        assert(all[i as int] == lines@[i as int]@);
        if let Some(rest) = strip_host_directive(lines[i]) {
            push_aliases(rest, hosts);
        }
        proof {
            assert forall|t: Seq<char>|
                #[trigger] texts(hosts@).contains(t) <==> start.contains(t) || exists|k: int|
                    0 <= k < i + 1 && line_names(#[trigger] all[k], t) by {
                if line_names(all[i as int], t) {
                    assert(texts(hosts@).contains(t));
                }
                if held.contains(t) && !start.contains(t) {
                    let k = choose|k: int| 0 <= k < i && line_names(#[trigger] all[k], t);
                    assert(0 <= k < i + 1 && line_names(all[k], t));
                }
            }
        }
        i += 1;
    }
}

/// Adds the aliases of the `Host` lines in `content` that count for `user`.
pub fn collect_hosts_for_user(content: &str, user: Option<&str>, hosts: &mut Vec<String>)
    requires
        ascending(texts(old(hosts)@)),
    ensures
        ascending(texts(final(hosts)@)),
        forall|t: Seq<char>|
            #[trigger] texts(final(hosts)@).contains(t) <==> texts(old(hosts)@).contains(t) || file_names(
                content@,
                str_view(user),
                t,
            ),
{
    let chars = to_chars(content);
    let lines = split_statements(chars.as_slice());
    let user_chars: Vec<char> = match user {
        Some(u) => to_chars(u),
        None => Vec::new(),
    };
    let user_slice: Option<&[char]> = match user {
        Some(_) => Some(user_chars.as_slice()),
        None => None,
    };
    let ghost known = str_view(user);
    let ghost all = statements(content@);
    let ghost start = texts(hosts@);
    let mut active: bool = true;
    let mut i: usize = 0;
    assert(all.take(0) =~= Seq::<Seq<char>>::empty());
    while i < lines.len()
        invariant
            i <= lines@.len(),
            all == slices(lines@),
            known == slice_view(user_slice),
            start == texts(old(hosts)@),
            ascending(texts(hosts@)),
            active == gate_open(all.take(i as int), known),
            forall|t: Seq<char>|
                #[trigger] texts(hosts@).contains(t) <==> start.contains(t) || exists|k: int|
                    0 <= k < i && line_names(#[trigger] all[k], t) && gate_open(
                        all.take(k),
                        known,
                    ),
        decreases lines.len() - i,
    {
        let ghost held = texts(hosts@);
        let ghost was_active = active;
        let line = lines[i];
        proof {
            assert(all[i as int] == line@);
            assert(all.take(i + 1).drop_last() =~= all.take(i as int));
            assert(all.take(i + 1).last() == all[i as int]);
            lemma_block_keywords_exclude(line@);
        }
        if let Some(rest) = strip_keyword(line, "Match") {
            active =
            match evaluate_match(rest, user_slice) {
                MatchOutcome::Active => true,
                MatchOutcome::Inactive => false,
            };
        } else if let Some(rest) = strip_host_directive(line) {
            if active {
                push_aliases(rest, hosts);
            }
            active = true;
        }
        proof {
            assert forall|t: Seq<char>|
                #[trigger] texts(hosts@).contains(t) <==> start.contains(t) || exists|k: int|
                    0 <= k < i + 1 && line_names(#[trigger] all[k], t) && gate_open(
                        all.take(k),
                        known,
                    ) by {
                if line_names(all[i as int], t) && was_active {
                    assert(texts(hosts@).contains(t));
                }
                if held.contains(t) && !start.contains(t) {
                    let k = choose|k: int|
                        0 <= k < i && line_names(#[trigger] all[k], t) && gate_open(
                            all.take(k),
                            known,
                        );
                    assert(0 <= k < i + 1 && line_names(all[k], t));
                }
            }
        }
        i += 1;
    }
}

/// The aliases named in `content`, ascending and without repeats. `Include` and
/// `Match` lines have no effect here.
pub fn parse_hosts(content: &str) -> (r: Vec<String>)
    ensures
        ascending(texts(r@)),
        forall|t: Seq<char>| #[trigger] texts(r@).contains(t) <==> body_names(content@, t),
{
    let mut hosts: Vec<String> = Vec::new();
    assert(texts(hosts@) =~= Seq::<Seq<char>>::empty());
    collect_hosts_from_body(content, &mut hosts);
    hosts
}

/// The aliases that the files with these texts name for `user`, ascending and
/// without repeats.
pub fn hosts_in_files(files: &[String], user: Option<&str>) -> (r: Vec<String>)
    ensures
        ascending(texts(r@)),
        forall|t: Seq<char>|
            #[trigger] texts(r@).contains(t) <==> exists|f: int|
                0 <= f < files@.len() && file_names((#[trigger] files@[f])@, str_view(user), t),
{
    let mut hosts: Vec<String> = Vec::new();
    let mut f: usize = 0;
    assert(texts(hosts@) =~= Seq::<Seq<char>>::empty());
    while f < files.len()
        invariant
            f <= files@.len(),
            ascending(texts(hosts@)),
            forall|t: Seq<char>|
                #[trigger] texts(hosts@).contains(t) <==> exists|k: int|
                    0 <= k < f && file_names((#[trigger] files@[k])@, str_view(user), t),
        decreases files.len() - f,
    {
        let ghost held = texts(hosts@);
        collect_hosts_for_user(files[f].as_str(), user, &mut hosts);
        proof {
            assert forall|t: Seq<char>|
                #[trigger] texts(hosts@).contains(t) <==> exists|k: int|
                    0 <= k < f + 1 && file_names((#[trigger] files@[k])@, str_view(user), t) by {
                if file_names(files@[f as int]@, str_view(user), t) {
                    assert(texts(hosts@).contains(t));
                }
                if held.contains(t) {
                    let k = choose|k: int|
                        0 <= k < f && file_names((#[trigger] files@[k])@, str_view(user), t);
                    assert(0 <= k < f + 1 && file_names(files@[k]@, str_view(user), t));
                }
            }
        }
        f += 1;
    }
    hosts
}

/// What counts for a user is among what the file names at all.
pub proof fn law_gated_names_are_named(
    content: Seq<char>,
    user: Option<Seq<char>>,
    name: Seq<char>,
)
    requires
        file_names(content, user, name),
    ensures
        body_names(content, name),
{
    let i = choose|i: int|
        0 <= i < statements(content).len() && line_names(
            #[trigger] statements(content)[i],
            name,
        ) && gate_open(statements(content).take(i), user);
    assert(line_names(statements(content)[i], name));
}

/// A file without `Match` lines names the same hosts for everyone.
pub proof fn law_without_match_all_names_count(
    content: Seq<char>,
    user: Option<Seq<char>>,
    name: Seq<char>,
)
    requires
        forall|i: int|
            0 <= i < statements(content).len() ==> match_argument(
                #[trigger] statements(content)[i],
            ) is None,
    ensures
        file_names(content, user, name) == body_names(content, name),
{
    let all = statements(content);
    if body_names(content, name) {
        let i = choose|i: int| 0 <= i < all.len() && line_names(#[trigger] all[i], name);
        lemma_gate_without_match(all.take(i), user);
        assert(line_names(all[i], name) && gate_open(all.take(i), user));
    }
    if file_names(content, user, name) {
        law_gated_names_are_named(content, user, name);
    }
}

proof fn lemma_gate_without_match(before: Seq<Seq<char>>, user: Option<Seq<char>>)
    requires
        forall|i: int| 0 <= i < before.len() ==> match_argument(#[trigger] before[i]) is None,
    ensures
        gate_open(before, user),
    decreases before.len(),
{
    if before.len() > 0 {
        assert(match_argument(before[before.len() - 1]) is None);
        lemma_gate_without_match(before.drop_last(), user);
    }
}

/// A `Host` line right after a `Match` line that is not active contributes
/// nothing by itself: its names count only where another line counts them.
pub proof fn law_inactive_block_is_dropped(
    content: Seq<char>,
    user: Option<Seq<char>>,
    name: Seq<char>,
    i: int,
)
    requires
        0 < i < statements(content).len(),
        match_argument(statements(content)[i - 1]) is Some,
        !match_active_line(statements(content)[i - 1], user),
        forall|k: int|
            0 <= k < statements(content).len() && k != i ==> !line_names(
                #[trigger] statements(content)[k],
                name,
            ),
    ensures
        !file_names(content, user, name),
{
    let all = statements(content);
    assert(all.take(i).last() == all[i - 1]);
}

/// Whether a statement is a `Match` line whose guards hold.
pub open spec fn match_active_line(line: Seq<char>, user: Option<Seq<char>>) -> bool {
    match_argument(line) is Some && crate::directives::match_active(match_argument(line)->0, user)
}

/// What is listed can be dialled: no wildcard pattern and no negation is.
pub proof fn law_listed_names_are_dialable(
    content: Seq<char>,
    user: Option<Seq<char>>,
    name: Seq<char>,
)
    ensures
        body_names(content, name) ==> dialable(name),
        file_names(content, user, name) ==> dialable(name),
{
}

} // verus!
