//! What reading configuration amounts to, from the characters of a file on.

use vstd::prelude::*;

use crate::aliases::{body_names, dialable, file_names, line_names};
use crate::details::{
    aliases_of, all_details, bare, bares, closed_off, dialable_names, file_details, first_word, leads,
    lists, scan, tidied, with_line, Detail, HostDetail,
};
use crate::directives::{
    argument_of, gate_open, guards_hold, host_argument, include_argument, include_tokens,
    lemma_block_keywords_exclude, match_active, match_argument, significant, statements,
};
use crate::numbers::port_of;
use crate::order::lt;
use crate::pattern::list_admits;
use crate::text::{
    is_space, lemma_trim_fixes_trimmed, lower, lowered, split_on, trim, words,
};
use crate::text_laws::law_split_cuts_at_separators;

verus! {

/// A line that is added to a file adds itself as a statement, trimmed, unless it is blank
/// or starts with `#`.
pub proof fn law_each_line_is_a_statement(content: Seq<char>, line: Seq<char>)
    requires
        forall|i: int| 0 <= i < line.len() ==> #[trigger] line[i] != '\n',
    ensures
        ({
            let t = trim(line);
            let says = t.len() > 0 && t[0] != '#';
            &&& says ==> statements(content + seq!['\n'] + line) == statements(content).push(t)
            &&& !says ==> statements(content + seq!['\n'] + line) == statements(content)
            &&& says ==> statements(line) == seq![t]
            &&& !says ==> statements(line) == Seq::<Seq<char>>::empty()
        }),
{
    law_split_cuts_at_separators(content, line, '\n');
    let before = split_on(content, '\n');
    assert(before.push(line).drop_last() =~= before);
    assert(seq![line].drop_last() =~= Seq::<Seq<char>>::empty());
    assert(significant(Seq::<Seq<char>>::empty()) =~= Seq::<Seq<char>>::empty());
    let t = trim(line);
    if t.len() > 0 && t[0] != '#' {
        assert(Seq::<Seq<char>>::empty().push(t) =~= seq![t]);
    }
}

/// What follows a keyword, in any mix of cases, and one delimiter is its argument, trimmed;
/// a delimiter is white space or `=`.
pub proof fn law_argument_follows_the_keyword(
    keyword: Seq<char>,
    written: Seq<char>,
    delimiter: char,
    rest: Seq<char>,
)
    requires
        written.len() == keyword.len(),
        forall|i: int| 0 <= i < keyword.len() ==> lower(#[trigger] written[i]) == lower(keyword[i]),
        is_space(delimiter) || delimiter == '=',
    ensures
        argument_of(written + seq![delimiter] + rest, keyword) == Some(trim(rest)),
{
    let line = written + seq![delimiter] + rest;
    let n = keyword.len() as int;
    assert(line.take(n) =~= written);
    assert(lowered(written) =~= lowered(keyword));
    assert(line.skip(n + 1) =~= rest);
}

/// Only a line that starts with the keyword and a delimiter has an argument.
pub proof fn law_argument_needs_the_keyword(line: Seq<char>, keyword: Seq<char>)
    requires
        argument_of(line, keyword) is Some,
    ensures
        line.len() > keyword.len(),
        forall|i: int| 0 <= i < keyword.len() ==> lower(#[trigger] line[i]) == lower(keyword[i]),
        is_space(line[keyword.len() as int]) || line[keyword.len() as int] == '=',
{
    let n = keyword.len() as int;
    assert forall|i: int| 0 <= i < keyword.len() implies lower(#[trigger] line[i]) == lower(
        keyword[i],
    ) by {
        assert(lowered(line.take(n))[i] == lower(line[i]));
        assert(lowered(keyword)[i] == lower(keyword[i]));
    }
}

/// Blocks are opened by `Host` and `Match`, and files are taken in by `Include`.
pub proof fn law_block_keywords(line: Seq<char>)
    ensures
        host_argument(line) == argument_of(line, seq!['H', 'o', 's', 't']),
        match_argument(line) == argument_of(line, seq!['M', 'a', 't', 'c', 'h']),
        include_argument(line) == argument_of(line, seq!['I', 'n', 'c', 'l', 'u', 'd', 'e']),
{
    reveal_strlit("Host");
    reveal_strlit("Match");
    reveal_strlit("Include");
    assert("Host"@ =~= seq!['H', 'o', 's', 't']);
    assert("Match"@ =~= seq!['M', 'a', 't', 'c', 'h']);
    assert("Include"@ =~= seq!['I', 'n', 'c', 'l', 'u', 'd', 'e']);
}

/// Guards decide from the left. None hold by themselves; `all` settles the matter; `user`
/// asks whether its list admits the known user; `host` takes its pattern along without a
/// look; and any other guard fails. Guards are written in any mix of cases.
pub proof fn law_guards_decide_from_the_left(
    guard: Seq<char>,
    pattern: Seq<char>,
    rest: Seq<Seq<char>>,
    user: Option<Seq<char>>,
)
    ensures
        guards_hold(Seq::empty(), user),
        lowered(guard) == seq!['a', 'l', 'l'] ==> guards_hold(seq![guard] + rest, user),
        lowered(guard) == seq!['u', 's', 'e', 'r'] ==> guards_hold(seq![guard, pattern] + rest, user)
            == (user is Some && list_admits(pattern, user->0) && guards_hold(rest, user)),
        lowered(guard) == seq!['u', 's', 'e', 'r'] ==> !guards_hold(seq![guard], user),
        lowered(guard) == seq!['h', 'o', 's', 't'] ==> guards_hold(seq![guard, pattern] + rest, user)
            == guards_hold(rest, user),
        lowered(guard) == seq!['h', 'o', 's', 't'] ==> guards_hold(seq![guard], user),
        lowered(guard) != seq!['a', 'l', 'l'] && lowered(guard) != seq!['u', 's', 'e', 'r']
            && lowered(guard) != seq!['h', 'o', 's', 't'] ==> !guards_hold(
            seq![guard] + rest,
            user,
        ),
{
    reveal_strlit("all");
    reveal_strlit("user");
    reveal_strlit("host");
    assert(lowered("all"@) =~= seq!['a', 'l', 'l']);
    assert(lowered("user"@) =~= seq!['u', 's', 'e', 'r']);
    assert(lowered("host"@) =~= seq!['h', 'o', 's', 't']);
    let three = seq!['a', 'l', 'l'];
    let four = seq!['u', 's', 'e', 'r'];
    let other = seq!['h', 'o', 's', 't'];
    assert(three.len() != four.len());
    assert(four[0] != other[0]);
    let one = seq![guard] + rest;
    let two = seq![guard, pattern] + rest;
    assert(one[0] == guard);
    assert(two[0] == guard && two[1] == pattern);
    assert(two.skip(2) =~= rest);
}

/// A `Match` line is active where it has guards and they hold.
pub proof fn law_match_needs_guards(rest: Seq<char>, user: Option<Seq<char>>)
    ensures
        match_active(rest, user) <==> words(rest) != Seq::<Seq<char>>::empty() && guards_hold(
            words(rest),
            user,
        ),
{
    if words(rest).len() == 0 {
        assert(words(rest) =~= Seq::<Seq<char>>::empty());
    }
}

/// Whether a `Host` line counts depends on the last `Host` or `Match` line before it alone:
/// it does at the start and after a `Host` line, and after a `Match` line where that is
/// active. Other lines leave it as it is.
pub proof fn law_last_block_line_decides(
    before: Seq<Seq<char>>,
    line: Seq<char>,
    user: Option<Seq<char>>,
)
    ensures
        gate_open(Seq::empty(), user),
        host_argument(line) is Some ==> gate_open(before.push(line), user),
        match_argument(line) is Some ==> gate_open(before.push(line), user) == match_active(
            match_argument(line)->0,
            user,
        ),
        host_argument(line) is None && match_argument(line) is None ==> gate_open(
            before.push(line),
            user,
        ) == gate_open(before, user),
{
    lemma_block_keywords_exclude(line);
    assert(before.push(line).drop_last() =~= before);
}

/// The included paths are the words of the `Include` lines, in order.
pub proof fn law_includes_are_the_words_of_their_lines(before: Seq<Seq<char>>, line: Seq<char>)
    ensures
        include_tokens(Seq::empty()) == Seq::<Seq<char>>::empty(),
        include_argument(line) is Some ==> include_tokens(before.push(line)) == include_tokens(before)
            + words(include_argument(line)->0),
        include_argument(line) is None ==> include_tokens(before.push(line)) == include_tokens(before),
{
    assert(before.push(line).drop_last() =~= before);
}

/// Whether no character of `name` is a wildcard, and it does not start with `!`.
pub open spec fn plain_name(name: Seq<char>) -> bool {
    &&& forall|i: int| 0 <= i < name.len() ==> #[trigger] name[i] != '*' && name[i] != '?'
    &&& name.len() > 0 ==> name[0] != '!'
}

/// A name can be dialled exactly where it holds neither `*` nor `?` and does not start with
/// `!`: every other character is welcome anywhere.
pub proof fn law_names_without_wildcards_are_dialable(name: Seq<char>)
    ensures
        dialable(name) <==> plain_name(name),
{
    if plain_name(name) {
        if name.contains('*') {
            let i = choose|i: int| 0 <= i < name.len() && name[i] == '*';
            assert(name[i] != '*');
        }
        if name.contains('?') {
            let i = choose|i: int| 0 <= i < name.len() && name[i] == '?';
            assert(name[i] != '?');
        }
    }
    if dialable(name) {
        assert forall|i: int| 0 <= i < name.len() implies #[trigger] name[i] != '*' && name[i]
            != '?' by {
            if name[i] == '*' {
                assert(name.contains('*'));
            }
            if name[i] == '?' {
                assert(name.contains('?'));
            }
        }
    }
}

proof fn lemma_host_line(names: Seq<char>)
    requires
        names.len() > 0,
        !is_space(names[0]),
        !is_space(names.last()),
    ensures
        ({
            let line = seq!['H', 'o', 's', 't', ' '] + names;
            &&& trim(line) == line
            &&& host_argument(line) == Some(names)
            &&& match_argument(line) is None
            &&& include_argument(line) is None
        }),
{
    let line = seq!['H', 'o', 's', 't', ' '] + names;
    assert(!is_space('H'));
    assert(is_space(' '));
    assert(line[0] == 'H' && line.last() == names.last());
    lemma_trim_fixes_trimmed(line);
    lemma_trim_fixes_trimmed(names);
    law_block_keywords(line);
    let keyword = seq!['H', 'o', 's', 't'];
    law_argument_follows_the_keyword(keyword, keyword, ' ', names);
    assert(line =~= keyword + seq![' '] + names);
    lemma_block_keywords_exclude(line);
}

proof fn lemma_body_names_push(all: Seq<Seq<char>>, line: Seq<char>, t: Seq<char>)
    ensures
        (exists|i: int| 0 <= i < all.push(line).len() && line_names(#[trigger] all.push(line)[i], t))
            <==> (exists|i: int| 0 <= i < all.len() && line_names(#[trigger] all[i], t))
            || line_names(line, t),
{
    let grown = all.push(line);
    if exists|i: int| 0 <= i < grown.len() && line_names(#[trigger] grown[i], t) {
        let i = choose|i: int| 0 <= i < grown.len() && line_names(#[trigger] grown[i], t);
        if i < all.len() {
            assert(all[i] == grown[i]);
        }
    }
    if exists|i: int| 0 <= i < all.len() && line_names(#[trigger] all[i], t) {
        let i = choose|i: int| 0 <= i < all.len() && line_names(#[trigger] all[i], t);
        assert(grown[i] == all[i]);
    }
    if line_names(line, t) {
        assert(grown[all.len() as int] == line);
    }
}

proof fn lemma_file_names_push(
    all: Seq<Seq<char>>,
    line: Seq<char>,
    user: Option<Seq<char>>,
    t: Seq<char>,
)
    ensures
        (exists|i: int|
            0 <= i < all.push(line).len() && line_names(#[trigger] all.push(line)[i], t) && gate_open(
                all.push(line).take(i),
                user,
            )) <==> (exists|i: int|
            0 <= i < all.len() && line_names(#[trigger] all[i], t) && gate_open(all.take(i), user))
            || (line_names(line, t) && gate_open(all, user)),
{
    let grown = all.push(line);
    assert(grown.take(all.len() as int) =~= all);
    if exists|i: int|
        0 <= i < grown.len() && line_names(#[trigger] grown[i], t) && gate_open(
            grown.take(i),
            user,
        ) {
        let i = choose|i: int|
            0 <= i < grown.len() && line_names(#[trigger] grown[i], t) && gate_open(
                grown.take(i),
                user,
            );
        if i < all.len() {
            assert(all[i] == grown[i]);
            assert(all.take(i) =~= grown.take(i));
        }
    }
    if exists|i: int|
        0 <= i < all.len() && line_names(#[trigger] all[i], t) && gate_open(all.take(i), user) {
        let i = choose|i: int|
            0 <= i < all.len() && line_names(#[trigger] all[i], t) && gate_open(all.take(i), user);
        assert(grown[i] == all[i]);
        assert(all.take(i) =~= grown.take(i));
    }
    if line_names(line, t) && gate_open(all, user) {
        assert(grown[all.len() as int] == line);
    }
}

/// A `Host` line added to a file adds to the listed names exactly those of its words that
/// hold no wildcard and do not start with `!`, whatever the file holds and whatever other
/// characters the names are made of.
pub proof fn law_host_line_lists_its_plain_names(
    content: Seq<char>,
    names: Seq<char>,
    user: Option<Seq<char>>,
    t: Seq<char>,
)
    requires
        names.len() > 0,
        !is_space(names[0]),
        !is_space(names.last()),
        forall|i: int| 0 <= i < names.len() ==> #[trigger] names[i] != '\n',
    ensures
        ({
            let longer = content + seq!['\n'] + (seq!['H', 'o', 's', 't', ' '] + names);
            let named = words(names).contains(t) && plain_name(t);
            &&& body_names(longer, t) <==> body_names(content, t) || named
            &&& file_names(longer, user, t) <==> file_names(content, user, t) || (named
                && gate_open(statements(content), user))
        }),
{
    let line = seq!['H', 'o', 's', 't', ' '] + names;
    lemma_host_line(names);
    law_names_without_wildcards_are_dialable(t);
    assert forall|i: int| 0 <= i < line.len() implies #[trigger] line[i] != '\n' by {
        if i >= 5 {
            assert(line[i] == names[i - 5]);
        }
    }
    law_each_line_is_a_statement(content, line);
    lemma_body_names_push(statements(content), line, t);
    lemma_file_names_push(statements(content), line, user, t);
}

/// Any other line added to a file leaves the listed names as they are, and an empty file
/// lists none.
pub proof fn law_other_lines_list_nothing(
    content: Seq<char>,
    line: Seq<char>,
    user: Option<Seq<char>>,
    t: Seq<char>,
)
    requires
        forall|i: int| 0 <= i < line.len() ==> #[trigger] line[i] != '\n',
        host_argument(trim(line)) is None,
    ensures
        body_names(content + seq!['\n'] + line, t) == body_names(content, t),
        file_names(content + seq!['\n'] + line, user, t) == file_names(content, user, t),
        !body_names(Seq::empty(), t),
        !file_names(Seq::empty(), user, t),
{
    law_each_line_is_a_statement(content, line);
    law_each_line_is_a_statement(content, Seq::empty());
    lemma_body_names_push(statements(content), trim(line), t);
    lemma_file_names_push(statements(content), trim(line), user, t);
}

/// The first word of a text is the run of characters before its first white space.
pub proof fn law_first_word_ends_at_white_space(word: Seq<char>, c: char, rest: Seq<char>)
    requires
        word.len() > 0,
        forall|i: int| 0 <= i < word.len() ==> !is_space(#[trigger] word[i]),
        is_space(c),
    ensures
        first_word(word) == word,
        first_word(word + seq![c] + rest) == word,
        first_word(Seq::empty()) == Seq::<char>::empty(),
{
    crate::text_laws::law_text_without_white_space_is_one_word(word);
    crate::text_laws::law_text_without_white_space_is_one_word(Seq::empty());
    crate::text_laws::law_words_of_parts(word, c, rest);
}

/// Whether a line is one of the directives that a record keeps.
pub open spec fn kept_directive(line: Seq<char>) -> bool {
    ||| argument_of(line, "HostName"@) is Some
    ||| argument_of(line, "User"@) is Some
    ||| argument_of(line, "Port"@) is Some
    ||| argument_of(line, "IdentityFile"@) is Some
    ||| argument_of(line, "ProxyJump"@) is Some
}

proof fn lemma_directives_exclude(line: Seq<char>)
    ensures
        argument_of(line, "HostName"@) is Some ==> argument_of(line, "User"@) is None && argument_of(
            line,
            "Port"@,
        ) is None && argument_of(line, "IdentityFile"@) is None && argument_of(
            line,
            "ProxyJump"@,
        ) is None,
        argument_of(line, "User"@) is Some ==> argument_of(line, "Port"@) is None && argument_of(
            line,
            "IdentityFile"@,
        ) is None && argument_of(line, "ProxyJump"@) is None,
        argument_of(line, "Port"@) is Some ==> argument_of(line, "IdentityFile"@) is None
            && argument_of(line, "ProxyJump"@) is None,
        argument_of(line, "IdentityFile"@) is Some ==> argument_of(line, "ProxyJump"@) is None,
{
    reveal_strlit("HostName");
    reveal_strlit("User");
    reveal_strlit("Port");
    reveal_strlit("IdentityFile");
    reveal_strlit("ProxyJump");
    if argument_of(line, "HostName"@) is Some {
        law_argument_needs_the_keyword(line, "HostName"@);
        assert(lower(line[0]) == lower('H'));
    }
    if argument_of(line, "User"@) is Some {
        law_argument_needs_the_keyword(line, "User"@);
        assert(lower(line[0]) == lower('U'));
    }
    if argument_of(line, "Port"@) is Some {
        law_argument_needs_the_keyword(line, "Port"@);
        assert(lower(line[0]) == lower('P'));
        assert(lower(line[1]) == lower('o'));
    }
    if argument_of(line, "IdentityFile"@) is Some {
        law_argument_needs_the_keyword(line, "IdentityFile"@);
        assert(lower(line[0]) == lower('I'));
    }
    if argument_of(line, "ProxyJump"@) is Some {
        law_argument_needs_the_keyword(line, "ProxyJump"@);
        assert(lower(line[0]) == lower('P'));
        assert(lower(line[1]) == lower('r'));
    }
}

/// A line of a host's block changes at most the one field that its keyword names: all other
/// fields are what they were. The new value is the first word of the argument, or for
/// `ProxyJump` all of it; a `Port` that is no port and an `IdentityFile` without a name
/// change nothing; and an identity file is added behind those that are there.
pub proof fn law_line_changes_its_field_only(d: Detail, line: Seq<char>)
    ensures
        ({
            let after = with_line(d, line);
            let hostname = argument_of(line, "HostName"@);
            let user = argument_of(line, "User"@);
            let port = argument_of(line, "Port"@);
            let identity = argument_of(line, "IdentityFile"@);
            let proxy = argument_of(line, "ProxyJump"@);
            &&& after.alias == d.alias
            &&& hostname is None ==> after.hostname == d.hostname
            &&& hostname is Some ==> after.hostname == Some(first_word(hostname->0))
            &&& user is None ==> after.user == d.user
            &&& user is Some ==> after.user == Some(first_word(user->0))
            &&& port is None ==> after.port == d.port
            &&& port is Some && port_of(first_word(port->0)) is None ==> after.port == d.port
            &&& port is Some && port_of(first_word(port->0)) is Some ==> after.port == port_of(
                first_word(port->0),
            )
            &&& identity is None ==> after.identity_files == d.identity_files
            &&& identity is Some && first_word(identity->0).len() == 0 ==> after.identity_files
                == d.identity_files
            &&& identity is Some && first_word(identity->0).len() > 0 ==> after.identity_files
                == d.identity_files + seq![first_word(identity->0)]
            &&& proxy is None ==> after.proxy_jump == d.proxy_jump
            &&& proxy is Some ==> after.proxy_jump == Some(proxy->0)
            &&& !kept_directive(line) ==> after == d
        }),
{
    lemma_directives_exclude(line);
    let after = with_line(d, line);
    let identity = argument_of(line, "IdentityFile"@);
    if identity is Some && first_word(identity->0).len() > 0 {
        assert(after.identity_files =~= d.identity_files + seq![first_word(identity->0)]);
    }
}

/// The order of lines with different keywords does not matter to a record.
pub proof fn law_lines_with_different_keywords_commute(
    d: Detail,
    a: Seq<char>,
    b: Seq<char>,
    first: Seq<char>,
    second: Seq<char>,
)
    requires
        first == "HostName"@ || first == "User"@ || first == "Port"@ || first == "IdentityFile"@
            || first == "ProxyJump"@,
        second == "HostName"@ || second == "User"@ || second == "Port"@ || second
            == "IdentityFile"@ || second == "ProxyJump"@,
        first != second,
        argument_of(a, first) is Some,
        argument_of(b, second) is Some,
    ensures
        with_line(with_line(d, a), b) == with_line(with_line(d, b), a),
{
    lemma_directives_exclude(a);
    lemma_directives_exclude(b);
    law_line_changes_its_field_only(d, a);
    law_line_changes_its_field_only(d, b);
    law_line_changes_its_field_only(with_line(d, a), b);
    law_line_changes_its_field_only(with_line(d, b), a);
    assert(with_line(with_line(d, a), b) =~= with_line(with_line(d, b), a));
}

/// A record of which only the alias is known has nothing else.
pub proof fn law_bare_records_have_an_alias_only(alias: Seq<char>, names: Seq<Seq<char>>, i: int)
    requires
        0 <= i < names.len(),
    ensures
        bare(alias).alias == alias,
        bare(alias).hostname is None,
        bare(alias).user is None,
        bare(alias).port is None,
        bare(alias).identity_files.len() == 0,
        bare(alias).proxy_jump is None,
        bares(names).len() == names.len(),
        bares(names)[i] == bare(names[i]),
{
}

/// The names of a line that can be dialled are its plain names, in order.
pub proof fn law_plain_names_keep_their_order(names: Seq<Seq<char>>, name: Seq<char>)
    ensures
        dialable_names(Seq::empty()) == Seq::<Seq<char>>::empty(),
        plain_name(name) ==> dialable_names(names.push(name)) == dialable_names(names).push(name),
        !plain_name(name) ==> dialable_names(names.push(name)) == dialable_names(names),
{
    law_names_without_wildcards_are_dialable(name);
    assert(names.push(name).drop_last() =~= names);
}

/// A record after all lines of its block.
pub open spec fn with_lines(d: Detail, block: Seq<Seq<char>>) -> Detail
    decreases block.len(),
{
    if block.len() == 0 {
        d
    } else {
        with_line(with_lines(d, block.drop_last()), block.last())
    }
}

/// Whether no line of the list opens or ends a block.
pub open spec fn one_block(block: Seq<Seq<char>>) -> bool {
    forall|i: int|
        0 <= i < block.len() ==> host_argument(#[trigger] block[i]) is None && match_argument(
            block[i],
        ) is None
}

proof fn lemma_block_scans(lines: Seq<Seq<char>>, block: Seq<Seq<char>>, user: Option<Seq<char>>)
    requires
        one_block(block),
    ensures
        ({
            let before = scan(lines, user);
            let after = scan(lines + block, user);
            &&& after.active == before.active
            &&& after.done == before.done
            &&& before.current is None ==> after.current is None
            &&& before.current is Some ==> after.current == Some(
                with_lines(before.current->0, block),
            )
        }),
    decreases block.len(),
{
    if block.len() == 0 {
        assert(lines + block =~= lines);
    } else {
        let less = block.drop_last();
        assert forall|i: int| 0 <= i < less.len() implies host_argument(#[trigger] less[i]) is None
            && match_argument(less[i]) is None by {
            assert(less[i] == block[i]);
        }
        lemma_block_scans(lines, less, user);
        assert((lines + block).drop_last() =~= lines + less);
        assert((lines + block).last() == block[block.len() - 1]);
    }
}

/// A `Host` line that counts, with the lines up to the next block, gives one record for each
/// of its plain names: the first gets what the lines say, and the others, which come
/// before it, have an alias only. Nothing of what came before changes. A `Host` line that does
/// not count, or has no plain name, and a `Match` line give none, whatever lines follow.
pub proof fn law_block_gives_its_records(
    before: Seq<Seq<char>>,
    opening: Seq<char>,
    block: Seq<Seq<char>>,
    user: Option<Seq<char>>,
)
    requires
        one_block(block),
    ensures
        ({
            let earlier = closed_off(scan(before, user));
            let after = closed_off(scan(before.push(opening) + block, user));
            let names = dialable_names(words(host_argument(opening)->0));
            &&& host_argument(opening) is Some && gate_open(before, user) && names.len() > 0 ==> after
                == earlier + bares(names.drop_first()) + seq![with_lines(bare(names[0]), block)]
            &&& host_argument(opening) is Some && !(gate_open(before, user) && names.len() > 0)
                ==> after == earlier
            &&& match_argument(opening) is Some ==> after == earlier
            &&& closed_off(scan(block, user)) == Seq::<Detail>::empty()
        }),
{
    lemma_block_keywords_exclude(opening);
    lemma_block_scans(before.push(opening), block, user);
    lemma_block_scans(Seq::empty(), block, user);
    assert(Seq::<Seq<char>>::empty() + block =~= block);
    assert(before.push(opening).drop_last() =~= before);
    lemma_active_is_gate(before, user);
    let earlier = closed_off(scan(before, user));
    let after = closed_off(scan(before.push(opening) + block, user));
    if host_argument(opening) is Some {
        let names = dialable_names(words(host_argument(opening)->0));
        if gate_open(before, user) && names.len() > 0 {
            assert(after =~= earlier + bares(names.drop_first()) + seq![
                with_lines(bare(names[0]), block),
            ]);
        }
    }
}

proof fn lemma_active_is_gate(lines: Seq<Seq<char>>, user: Option<Seq<char>>)
    ensures
        scan(lines, user).active == gate_open(lines, user),
    decreases lines.len(),
{
    if lines.len() > 0 {
        lemma_block_keywords_exclude(lines.last());
        lemma_active_is_gate(lines.drop_last(), user);
    }
}

/// The records of a file are those of its statements, and the records of files come file by
/// file.
pub proof fn law_records_come_file_by_file(
    files: Seq<Seq<char>>,
    content: Seq<char>,
    user: Option<Seq<char>>,
)
    ensures
        all_details(Seq::empty(), user) == Seq::<Detail>::empty(),
        all_details(files.push(content), user) == all_details(files, user) + file_details(
            content,
            user,
        ),
        file_details(content, user) == closed_off(scan(statements(content), user)),
{
    assert(files.push(content).drop_last() =~= files);
}

/// Of the records with one alias the first stays, no alias is lost, none is repeated, and
/// the list is in the order of the aliases.
pub proof fn law_first_record_of_an_alias_stays(
    all: Seq<Detail>,
    list: Seq<Detail>,
    i: int,
    j: int,
    k: int,
)
    requires
        tidied(all, list),
    ensures
        0 <= i < j < list.len() ==> lt(list[i].alias, list[j].alias),
        0 <= i < list.len() ==> exists|m: int|
            0 <= m < all.len() && #[trigger] all[m] == list[i] && forall|n: int|
                0 <= n < m ==> (#[trigger] all[n]).alias != list[i].alias,
        0 <= k < all.len() ==> exists|m: int|
            0 <= m < list.len() && (#[trigger] list[m]).alias == all[k].alias,
{
    let aliases = aliases_of(list);
    if 0 <= i < j < list.len() {
        assert(lt(aliases[i], aliases[j]));
    }
    if 0 <= i < list.len() {
        assert(leads(all, list[i]));
    }
    if 0 <= k < all.len() {
        assert(lists(list, all[k].alias));
    }
}

/// A record is viewed field by field.
pub proof fn law_records_are_viewed_field_by_field(d: HostDetail)
    ensures
        d@.alias == d.alias@,
        d.hostname is None <==> d@.hostname is None,
        d.hostname is Some ==> d@.hostname == Some(d.hostname->0@),
        d.user is None <==> d@.user is None,
        d.user is Some ==> d@.user == Some(d.user->0@),
        d@.port == d.port,
        d@.identity_files.len() == d.identity_files@.len(),
        forall|i: int|
            0 <= i < d.identity_files@.len() ==> d@.identity_files[i]
                == (#[trigger] d.identity_files@[i])@,
        d.proxy_jump is None <==> d@.proxy_jump is None,
        d.proxy_jump is Some ==> d@.proxy_jump == Some(d.proxy_jump->0@),
{
}

} // verus!
