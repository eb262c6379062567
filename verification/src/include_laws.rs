//! Where `Include` lines lead, and which files are looked at.

use vstd::prelude::*;

use crate::directives::{include_tokens, statements};
use crate::include_tree::{
    found_at, law_each_file_is_read_once, visit_entries, visit_file, visit_includes, FileTree, Roots,
    Trail,
};
use crate::include_walk::{
    include_pattern, request_of, suits, tilde_expanded, walk_start, walk_step, Answer, Request, Task,
    Walk, WalkAnswer, WalkRequest, MAX_INCLUDE_DEPTH,
};
use crate::paths::{
    config_dir, config_path, given, in_config_dir, parent_of, path_view, seen_from, text_name,
    Component, Name, NameView, PathComponent,
};
use crate::text::has_suffix;

verus! {

/// A leading `~/` stands for the home directory and a `/`, where a home directory is known,
/// and everything else in a path stays.
pub proof fn law_tilde_stands_for_home(rest: Seq<char>, token: Seq<char>, home: Seq<char>)
    ensures
        home.len() > 0 ==> tilde_expanded(seq!['~', '/'] + rest, Some(home)) == home + seq!['/']
            + rest,
        tilde_expanded(token, None) == token,
        tilde_expanded(token, Some(Seq::empty())) == token,
        token.len() < 2 || token[0] != '~' || token[1] != '/' ==> tilde_expanded(token, Some(home))
            == token,
{
    assert((seq!['~', '/'] + rest).skip(2) =~= rest);
}

/// On Unix, the pattern of a path that is not absolute once `~/` is replaced is that path
/// behind the base directory, whatever characters it holds: no such path is ever looked up
/// anywhere else. An absolute one is looked up as it is, whatever the base directory.
pub proof fn law_relative_includes_lie_under_the_base(
    token: Seq<char>,
    home: Option<Seq<char>>,
    base: Seq<char>,
)
    ensures
        ({
            let path = tilde_expanded(token, home);
            let absolute = path.len() > 0 && path[0] == '/';
            let pattern = include_pattern(token, home, base);
            &&& absolute ==> pattern == path
            &&& !absolute && base.len() > 0 && base[base.len() - 1] != '/' ==> pattern == base + seq![
                '/',
            ] + path
            &&& !absolute && (base.len() == 0 || base[base.len() - 1] == '/') ==> pattern == base
                + path
            &&& !absolute ==> base.is_prefix_of(pattern)
        }),
{
    let path = tilde_expanded(token, home);
    let pattern = include_pattern(token, home, base);
    if !(path.len() > 0 && path[0] == '/') {
        assert(pattern.take(base.len() as int) =~= base);
    }
}

/// The walk asks for exactly that pattern on Unix, and elsewhere for the path, with `~/`
/// replaced, as seen from the base directory.
pub proof fn law_walk_asks_under_the_base<P>(w: Walk<P>, token: Seq<char>, depth: int)
    requires
        w.tasks.len() > 0,
        w.tasks.last() == (Task::<P>::Include { token, depth }),
    ensures
        ({
            let path = tilde_expanded(token, w.home);
            let absolute = path.len() > 0 && path[0] == '/';
            &&& w.unix_paths && absolute ==> request_of(w) == Request::<P>::Expand(path)
            &&& w.unix_paths && !absolute && w.base.len() > 0 && w.base[w.base.len() - 1] != '/'
                ==> request_of(w) == Request::<P>::Expand(w.base + seq!['/'] + path)
            &&& w.unix_paths && !absolute && (w.base.len() == 0 || w.base[w.base.len() - 1] == '/')
                ==> request_of(w) == Request::<P>::Expand(w.base + path)
            &&& !w.unix_paths ==> request_of(w) == (Request::<P>::ExpandFrom { base: w.base, path })
        }),
{
    law_relative_includes_lie_under_the_base(token, w.home, w.base);
}

/// A walk starts with the file it is given, knowing nothing else; it asks who a file is
/// before it asks for its text, and is over when nothing is left.
pub proof fn law_walk_asks_in_order<P>(
    w: Walk<P>,
    path: P,
    depth: int,
    base: Seq<char>,
    home: Option<Seq<char>>,
    unix_paths: bool,
)
    ensures
        ({
            let start = walk_start(path, base, home, unix_paths);
            &&& request_of(start) == Request::Identify(path)
            &&& start.base == base && start.home == home && start.unix_paths == unix_paths
            &&& start.bodies.len() == 0
            &&& start.visited == Set::<Seq<u8>>::empty()
            &&& start.tasks == seq![Task::File { path, depth: 0 }]
        }),
        request_of(w) == Request::<P>::Done <==> w.tasks.len() == 0,
        w.tasks.len() > 0 && w.tasks.last() == (Task::File { path, depth }) && !w.reading
            ==> request_of(w) == Request::Identify(path),
        w.tasks.len() > 0 && w.tasks.last() == (Task::File { path, depth }) && w.reading
            ==> request_of(w) == Request::Read(path),
{
}

/// An answer is taken exactly where it is of the kind that was asked for; any other changes
/// nothing. No answer changes where includes lead.
pub proof fn law_only_fitting_answers_are_taken<P>(w: Walk<P>, answer: Answer<P>)
    ensures
        suits(request_of(w), answer) <==> match request_of(w) {
            Request::Done => false,
            Request::Identify(_) => answer is Identity,
            Request::Read(_) => answer is Body,
            _ => answer is Entries,
        },
        !suits(request_of(w), answer) ==> walk_step(w, answer) == w,
        walk_step(w, answer).base == w.base,
        walk_step(w, answer).home == w.home,
        walk_step(w, answer).unix_paths == w.unix_paths,
{
}

/// What a walk asks for, and what it is told, is taken as it stands.
pub proof fn law_requests_and_answers_are_taken_as_they_stand<P>(
    request: WalkRequest<P>,
    answer: WalkAnswer<P>,
)
    ensures
        match request {
            WalkRequest::Done => request.model() == Request::<P>::Done,
            WalkRequest::Identify(p) => request.model() == Request::Identify(*p),
            WalkRequest::Read(p) => request.model() == Request::Read(*p),
            WalkRequest::Expand(s) => request.model() == Request::<P>::Expand(s@),
            WalkRequest::ExpandFrom { base, path } => request.model() == (Request::<
                P,
            >::ExpandFrom { base: base@, path: path@ }),
        },
        match answer {
            WalkAnswer::Identity(key) => answer.model() == Answer::<P>::Identity(key@),
            WalkAnswer::Body(None) => answer.model() == Answer::<P>::Body(None),
            WalkAnswer::Body(Some(s)) => answer.model() == Answer::<P>::Body(Some(s@)),
            WalkAnswer::Entries(list) => answer.model() == Answer::Entries(list@),
        },
{
}

/// The files that an included path stands for are those that fit its pattern.
pub proof fn law_included_files_fit_the_pattern<P>(
    fs: FileTree<P>,
    roots: Roots,
    token: Seq<char>,
)
    ensures
        roots.unix_paths ==> found_at(fs, roots, token) == (fs.entries)(
            include_pattern(token, roots.home, roots.base),
        ),
        !roots.unix_paths ==> found_at(fs, roots, token) == (fs.entries_from)(
            roots.base,
            tilde_expanded(token, roots.home),
        ),
{
}

/// A file that was not visited before, above the greatest depth of 16, is visited: its text,
/// where it can be read, is taken, and what it includes is looked at one level further down.
pub proof fn law_new_files_are_visited<P>(
    fs: FileTree<P>,
    roots: Roots,
    path: P,
    depth: int,
    t: Trail,
)
    requires
        depth < 16,
        !t.visited.contains((fs.key)(path)),
    ensures
        (fs.body)(path) is None ==> visit_file(fs, roots, path, depth, t) == (Trail {
            visited: t.visited.insert((fs.key)(path)),
            bodies: t.bodies,
        }),
        (fs.body)(path) is Some ==> visit_file(fs, roots, path, depth, t) == visit_includes(
            fs,
            roots,
            include_tokens(statements((fs.body)(path)->0)),
            depth + 1,
            (Trail {
                visited: t.visited.insert((fs.key)(path)),
                bodies: t.bodies.push((fs.body)(path)->0),
            }),
        ),
{
}

/// Nothing is visited at a depth of 16 or more, and nothing twice.
pub proof fn law_depth_ends_at_sixteen<P>(
    fs: FileTree<P>,
    roots: Roots,
    path: P,
    depth: int,
    t: Trail,
)
    requires
        depth >= 16 || t.visited.contains((fs.key)(path)),
    ensures
        visit_file(fs, roots, path, depth, t) == t,
{
}

/// Included paths are looked at one after the other: one more path adds the visit of the
/// files that fit it, in their order.
pub proof fn law_includes_are_visited_in_order<P>(
    fs: FileTree<P>,
    roots: Roots,
    tokens: Seq<Seq<char>>,
    token: Seq<char>,
    depth: int,
    t: Trail,
)
    requires
        depth <= 16,
    ensures
        visit_includes(fs, roots, Seq::empty(), depth, t) == t,
        visit_includes(fs, roots, tokens.push(token), depth, t) == visit_entries(
            fs,
            roots,
            found_at(fs, roots, token),
            depth,
            visit_includes(fs, roots, tokens, depth, t),
        ),
    decreases tokens.len(),
{
    let more = tokens.push(token);
    if tokens.len() == 0 {
        assert(more.drop_first() =~= Seq::<Seq<char>>::empty());
        let next = visit_entries(fs, roots, found_at(fs, roots, more[0]), depth, t);
        assert(visit_includes(fs, roots, more.drop_first(), depth, next) == next);
    } else {
        let next = visit_entries(fs, roots, found_at(fs, roots, tokens[0]), depth, t);
        law_includes_are_visited_in_order(fs, roots, tokens.drop_first(), token, depth, next);
        assert(more.drop_first() =~= tokens.drop_first().push(token));
    }
}

/// The files that fit a pattern are visited one after the other, and directories are passed
/// over.
pub proof fn law_entries_are_visited_in_order<P>(
    fs: FileTree<P>,
    roots: Roots,
    entries: Seq<(P, bool)>,
    entry: (P, bool),
    depth: int,
    t: Trail,
)
    requires
        depth <= 16,
    ensures
        ({
            let before = visit_entries(fs, roots, entries, depth, t);
            let after = visit_entries(fs, roots, entries.push(entry), depth, t);
            &&& visit_entries(fs, roots, Seq::empty(), depth, t) == t
            &&& entry.1 ==> after == before
            &&& !entry.1 ==> after == visit_file(fs, roots, entry.0, depth, before)
        }),
    decreases entries.len(),
{
    let more = entries.push(entry);
    if entries.len() == 0 {
        assert(more.drop_first() =~= Seq::<(P, bool)>::empty());
        let next = if entry.1 {
            t
        } else {
            visit_file(fs, roots, entry.0, depth, t)
        };
        assert(more[0] == entry);
        assert(visit_entries(fs, roots, more.drop_first(), depth, next) == next);
    } else {
        let next = if entries[0].1 {
            t
        } else {
            visit_file(fs, roots, entries[0].0, depth, t)
        };
        law_entries_are_visited_in_order(fs, roots, entries.drop_first(), entry, depth, next);
        assert(more.drop_first() =~= entries.drop_first().push(entry));
        assert(more[0] == entries[0]);
    }
}

proof fn lemma_entries_keep<P>(
    fs: FileTree<P>,
    roots: Roots,
    entries: Seq<(P, bool)>,
    depth: int,
    t: Trail,
)
    requires
        t.visited.finite(),
    ensures
        visit_entries(fs, roots, entries, depth, t).visited.finite(),
        t.visited.subset_of(visit_entries(fs, roots, entries, depth, t).visited),
    decreases entries.len(),
{
    if entries.len() > 0 && depth <= MAX_INCLUDE_DEPTH {
        if entries[0].1 {
            lemma_entries_keep(fs, roots, entries.drop_first(), depth, t);
        } else {
            law_each_file_is_read_once(fs, roots, entries[0].0, depth, t);
            let next = visit_file(fs, roots, entries[0].0, depth, t);
            lemma_entries_keep(fs, roots, entries.drop_first(), depth, next);
        }
    }
}

proof fn lemma_includes_keep<P>(
    fs: FileTree<P>,
    roots: Roots,
    tokens: Seq<Seq<char>>,
    depth: int,
    t: Trail,
)
    requires
        t.visited.finite(),
    ensures
        visit_includes(fs, roots, tokens, depth, t).visited.finite(),
        t.visited.subset_of(visit_includes(fs, roots, tokens, depth, t).visited),
    decreases tokens.len(),
{
    if tokens.len() > 0 && depth <= MAX_INCLUDE_DEPTH {
        let found = found_at(fs, roots, tokens[0]);
        lemma_entries_keep(fs, roots, found, depth, t);
        let next = visit_entries(fs, roots, found, depth, t);
        lemma_includes_keep(fs, roots, tokens.drop_first(), depth, next);
    }
}

proof fn lemma_file_is_visited<P>(fs: FileTree<P>, roots: Roots, path: P, depth: int, t: Trail)
    requires
        t.visited.finite(),
        depth < 16,
    ensures
        visit_file(fs, roots, path, depth, t).visited.contains((fs.key)(path)),
{
    if !t.visited.contains((fs.key)(path)) {
        if let Some(text) = (fs.body)(path) {
            let next = Trail {
                visited: t.visited.insert((fs.key)(path)),
                bodies: t.bodies.push(text),
            };
            lemma_includes_keep(
                fs,
                roots,
                include_tokens(statements(text)),
                depth + 1,
                next,
            );
            assert(next.visited.contains((fs.key)(path)));
        }
    }
}

proof fn lemma_entries_visit<P>(
    fs: FileTree<P>,
    roots: Roots,
    entries: Seq<(P, bool)>,
    depth: int,
    t: Trail,
    i: int,
)
    requires
        t.visited.finite(),
        depth < 16,
        0 <= i < entries.len(),
        !entries[i].1,
    ensures
        visit_entries(fs, roots, entries, depth, t).visited.contains((fs.key)(entries[i].0)),
    decreases entries.len(),
{
    let next = if entries[0].1 {
        t
    } else {
        visit_file(fs, roots, entries[0].0, depth, t)
    };
    law_each_file_is_read_once(fs, roots, entries[0].0, depth, t);
    if i == 0 {
        lemma_file_is_visited(fs, roots, entries[0].0, depth, t);
        lemma_entries_keep(fs, roots, entries.drop_first(), depth, next);
    } else {
        lemma_entries_visit(fs, roots, entries.drop_first(), depth, next, i - 1);
    }
}

proof fn lemma_includes_visit<P>(
    fs: FileTree<P>,
    roots: Roots,
    tokens: Seq<Seq<char>>,
    depth: int,
    t: Trail,
    i: int,
    j: int,
)
    requires
        t.visited.finite(),
        depth < 16,
        0 <= i < tokens.len(),
        0 <= j < found_at(fs, roots, tokens[i]).len(),
        !found_at(fs, roots, tokens[i])[j].1,
    ensures
        visit_includes(fs, roots, tokens, depth, t).visited.contains(
            (fs.key)(found_at(fs, roots, tokens[i])[j].0),
        ),
    decreases tokens.len(),
{
    let found = found_at(fs, roots, tokens[0]);
    let next = visit_entries(fs, roots, found, depth, t);
    lemma_entries_keep(fs, roots, found, depth, t);
    if i == 0 {
        lemma_entries_visit(fs, roots, found, depth, t, j);
        lemma_includes_keep(fs, roots, tokens.drop_first(), depth, next);
    } else {
        lemma_includes_visit(fs, roots, tokens.drop_first(), depth, next, i - 1, j);
    }
}

/// Every file that an `Include` line of a visited file leads to is visited too, as long as
/// the depth of 16 is not reached.
pub proof fn law_every_included_file_is_visited<P>(
    fs: FileTree<P>,
    roots: Roots,
    path: P,
    depth: int,
    t: Trail,
    i: int,
    j: int,
)
    requires
        t.visited.finite(),
        depth + 1 < 16,
        !t.visited.contains((fs.key)(path)),
        (fs.body)(path) is Some,
        ({
            let tokens = include_tokens(statements((fs.body)(path)->0));
            &&& 0 <= i < tokens.len()
            &&& 0 <= j < found_at(fs, roots, tokens[i]).len()
            &&& !found_at(fs, roots, tokens[i])[j].1
        }),
    ensures
        visit_file(fs, roots, path, depth, t).visited.contains(
            (fs.key)(
                found_at(fs, roots, include_tokens(statements((fs.body)(path)->0))[i])[j].0,
            ),
        ),
{
    let text = (fs.body)(path)->0;
    let next = Trail { visited: t.visited.insert((fs.key)(path)), bodies: t.bodies.push(text) };
    lemma_includes_visit(fs, roots, include_tokens(statements(text)), depth + 1, next, i, j);
}

/// On Unix, a path that is not absolute stands behind the base directory and one `/`.
pub proof fn law_relative_paths_stand_behind_the_base(base: Seq<char>, path: Seq<char>)
    requires
        path.len() == 0 || path[0] != '/',
    ensures
        base.len() > 0 && base[base.len() - 1] != '/' ==> seen_from(base, path) == base + seq!['/']
            + path,
        base.len() == 0 || base[base.len() - 1] == '/' ==> seen_from(base, path) == base + path,
{
}

/// What is given is what is there and not empty.
pub proof fn law_empty_values_are_not_given(s: Seq<char>)
    ensures
        given(None) is None,
        s.len() == 0 ==> given(Some(s)) is None,
        s.len() > 0 ==> given(Some(s)) == Some(s),
{
}

/// The parent of a path is the path without its last component, except that a root, a prefix
/// and a path of nothing have none.
pub proof fn law_parent_drops_the_last_component(path: Seq<Component>, name: NameView)
    ensures
        parent_of(path.push(Component::Normal(name))) == Some(path),
        parent_of(path.push(Component::ParentDir)) == Some(path),
        parent_of(path.push(Component::CurDir)) == Some(path),
        parent_of(path.push(Component::RootDir)) is None,
        parent_of(path.push(Component::Prefix(name))) is None,
        parent_of(Seq::empty()) is None,
{
    assert(path.push(Component::Normal(name)).drop_last() =~= path);
    assert(path.push(Component::ParentDir).drop_last() =~= path);
    assert(path.push(Component::CurDir).drop_last() =~= path);
}

/// Under the ssh directory every file counts whose name is `config` or ends with `.conf` or
/// `.config`.
pub proof fn law_config_names_count(ssh_dir: Seq<Component>, between: Seq<Component>, stem: Seq<char>)
    ensures
        ({
            let at = |name: Seq<char>|
                (ssh_dir + between).push(Component::Normal(NameView::Text(name)));
            &&& config_path(at(seq!['c', 'o', 'n', 'f', 'i', 'g']), ssh_dir)
            &&& config_path(at(stem + seq!['.', 'c', 'o', 'n', 'f']), ssh_dir)
            &&& config_path(at(stem + seq!['.', 'c', 'o', 'n', 'f', 'i', 'g']), ssh_dir)
        }),
{
    reveal_strlit("config");
    reveal_strlit(".conf");
    reveal_strlit(".config");
    let one = seq!['c', 'o', 'n', 'f', 'i', 'g'];
    let two = stem + seq!['.', 'c', 'o', 'n', 'f'];
    let three = stem + seq!['.', 'c', 'o', 'n', 'f', 'i', 'g'];
    assert("config"@ =~= one);
    assert(two.skip(two.len() - 5) =~= ".conf"@);
    assert(three.skip(three.len() - 7) =~= ".config"@);
    assert((ssh_dir + between).push(Component::Normal(NameView::Text(one))).take(
        ssh_dir.len() as int,
    ) =~= ssh_dir);
    assert((ssh_dir + between).push(Component::Normal(NameView::Text(two))).take(
        ssh_dir.len() as int,
    ) =~= ssh_dir);
    assert((ssh_dir + between).push(Component::Normal(NameView::Text(three))).take(
        ssh_dir.len() as int,
    ) =~= ssh_dir);
}

/// Whether a text is another one with `tail` behind it.
pub open spec fn ends_with(s: Seq<char>, tail: Seq<char>) -> bool {
    exists|stem: Seq<char>| s == #[trigger] (stem + tail)
}

/// Whether a component is the directory `config.d` or `conf.d`.
pub open spec fn split_dir(c: Component) -> bool {
    c matches Component::Normal(NameView::Text(s)) && (s =~= seq![
        'c',
        'o',
        'n',
        'f',
        'i',
        'g',
        '.',
        'd',
    ] || s =~= seq!['c', 'o', 'n', 'f', '.', 'd'])
}

/// Under the ssh directory every file counts, whatever its name, that lies below a `config.d`
/// or `conf.d`, at any depth, or right inside one that is the ssh directory itself.
pub proof fn law_split_directories_count(path: Seq<Component>, ssh_dir: Seq<Component>, k: int)
    requires
        ssh_dir.is_prefix_of(path),
        path.len() > 0,
        path[path.len() - 1] is Normal,
        0 <= k < path.len() - 1,
        ssh_dir.len() <= k || k == path.len() - 2,
        split_dir(path[k]),
    ensures
        config_path(path, ssh_dir),
{
    reveal_strlit("config.d");
    reveal_strlit("conf.d");
    assert("config.d"@ =~= seq!['c', 'o', 'n', 'f', 'i', 'g', '.', 'd']);
    assert("conf.d"@ =~= seq!['c', 'o', 'n', 'f', '.', 'd']);
    assert(config_dir(path[k]));
}

/// A path is viewed component by component, each as what it is.
pub proof fn law_paths_are_viewed_as_they_are(path: Seq<PathComponent>, i: int)
    requires
        0 <= i < path.len(),
    ensures
        path_view(path).len() == path.len(),
        match path[i] {
            PathComponent::RootDir => path_view(path)[i] is RootDir,
            PathComponent::CurDir => path_view(path)[i] is CurDir,
            PathComponent::ParentDir => path_view(path)[i] is ParentDir,
            PathComponent::Prefix(Name::Text(s)) => path_view(path)[i] == Component::Prefix(
                NameView::Text(s@),
            ),
            PathComponent::Prefix(Name::Raw(b)) => path_view(path)[i] == Component::Prefix(
                NameView::Raw(b@),
            ),
            PathComponent::Normal(Name::Text(s)) => path_view(path)[i] == Component::Normal(
                NameView::Text(s@),
            ),
            PathComponent::Normal(Name::Raw(b)) => path_view(path)[i] == Component::Normal(
                NameView::Raw(b@),
            ),
        },
{
}

/// Nothing else counts: a path that does has a file name and starts with the ssh directory,
/// and either that name is `config` or ends with `.conf` or `.config`, or a directory that the
/// path goes through below the ssh directory, or the one that it ends in, is `config.d` or
/// `conf.d`.
pub proof fn law_nothing_else_is_config(path: Seq<Component>, ssh_dir: Seq<Component>)
    requires
        config_path(path, ssh_dir),
    ensures
        path.len() >= ssh_dir.len(),
        path.take(ssh_dir.len() as int) == ssh_dir,
        path.len() > 0,
        path[path.len() - 1] is Normal,
        ({
            let last = path[path.len() - 1];
            ||| last matches Component::Normal(NameView::Text(name)) && (name =~= seq![
                'c',
                'o',
                'n',
                'f',
                'i',
                'g',
            ] || ends_with(name, seq!['.', 'c', 'o', 'n', 'f']) || ends_with(
                name,
                seq!['.', 'c', 'o', 'n', 'f', 'i', 'g'],
            ))
            ||| exists|k: int|
                ssh_dir.len() <= k < path.len() - 1 && split_dir(#[trigger] path[k])
            ||| path.len() >= 2 && split_dir(path[path.len() - 2])
        }),
{
    reveal_strlit("config");
    reveal_strlit(".conf");
    reveal_strlit(".config");
    reveal_strlit("config.d");
    reveal_strlit("conf.d");
    assert("config"@ =~= seq!['c', 'o', 'n', 'f', 'i', 'g']);
    assert(".conf"@ =~= seq!['.', 'c', 'o', 'n', 'f']);
    assert(".config"@ =~= seq!['.', 'c', 'o', 'n', 'f', 'i', 'g']);
    assert("config.d"@ =~= seq!['c', 'o', 'n', 'f', 'i', 'g', '.', 'd']);
    assert("conf.d"@ =~= seq!['c', 'o', 'n', 'f', '.', 'd']);
    let last = path[path.len() - 1];
    if let Some(name) = text_name(path) {
        assert(last == Component::Normal(NameView::Text(name)));
        if has_suffix(name, ".conf"@) {
            let stem = name.take(name.len() - 5);
            assert(name =~= stem + seq!['.', 'c', 'o', 'n', 'f']);
        }
        if has_suffix(name, ".config"@) {
            let stem = name.take(name.len() - 7);
            assert(name =~= stem + seq!['.', 'c', 'o', 'n', 'f', 'i', 'g']);
        }
    }
    if in_config_dir(path, ssh_dir) {
        if exists|k: int|
            ssh_dir.len() <= k < path.len() - 1 && config_dir(#[trigger] path[k]) {
            let k = choose|k: int|
                ssh_dir.len() <= k < path.len() - 1 && config_dir(#[trigger] path[k]);
            assert(split_dir(path[k]));
        }
    }
}

} // verus!
