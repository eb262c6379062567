//! What a walk through included files amounts to: the tree of files that the
//! `Include` lines span, visited from the top, each file before the files it
//! includes.

use vstd::prelude::*;

use crate::directives::{include_tokens, statements};
use crate::include_walk::{
    file_tasks, include_request, include_tasks, request_of, walk_start, walk_step, Answer, Request,
    Task, Walk, MAX_INCLUDE_DEPTH,
};

verus! {

/// The files as a walk finds them: the key of each path, the text behind it, and the
/// paths that fit each pattern, by itself or as seen from a directory.
#[verifier::reject_recursive_types(P)]
pub struct FileTree<P> {
    pub key: spec_fn(P) -> Seq<u8>,
    pub body: spec_fn(P) -> Option<Seq<char>>,
    pub entries: spec_fn(Seq<char>) -> Seq<(P, bool)>,
    pub entries_from: spec_fn(Seq<char>, Seq<char>) -> Seq<(P, bool)>,
}

/// What the files answer to a request.
pub open spec fn answer_of<P>(fs: FileTree<P>, request: Request<P>) -> Answer<P> {
    match request {
        Request::Done => Answer::Body(None),
        Request::Identify(p) => Answer::Identity((fs.key)(p)),
        Request::Read(p) => Answer::Body((fs.body)(p)),
        Request::Expand(pattern) => Answer::Entries((fs.entries)(pattern)),
        Request::ExpandFrom { base, path } => Answer::Entries((fs.entries_from)(base, path)),
    }
}

/// A walk after `n` answers from the files.
pub open spec fn walk_on<P>(fs: FileTree<P>, w: Walk<P>, n: nat) -> Walk<P>
    decreases n,
{
    if n == 0 {
        w
    } else {
        walk_on(fs, walk_step(w, answer_of(fs, request_of(w))), (n - 1) as nat)
    }
}

/// What a visit has come across so far.
#[verifier::ext_equal]
pub struct Trail {
    pub visited: Set<Seq<u8>>,
    pub bodies: Seq<Seq<char>>,
}

/// Where relative and `~/` includes lead.
#[verifier::ext_equal]
pub struct Roots {
    pub unix_paths: bool,
    pub base: Seq<char>,
    pub home: Option<Seq<char>>,
}

/// The paths that fit a path of an `Include` line.
pub open spec fn found_at<P>(
    fs: FileTree<P>,
    roots: Roots,
    token: Seq<char>,
) -> Seq<(P, bool)> {
    match answer_of(fs, include_request(token, roots.home, roots.base, roots.unix_paths)) {
        Answer::Entries(list) => list,
        _ => Seq::empty(),
    }
}

/// A visit of one file and then of all it includes. Nothing is done at the
/// greatest depth, nor for a file that was visited before.
pub open spec fn visit_file<P>(
    fs: FileTree<P>,
    roots: Roots,
    path: P,
    depth: int,
    t: Trail,
) -> Trail
    decreases MAX_INCLUDE_DEPTH + 1 - depth, 0int, 0nat,
{
    let key = (fs.key)(path);
    if depth >= MAX_INCLUDE_DEPTH || t.visited.contains(key) {
        t
    } else {
        match (fs.body)(path) {
            None => Trail { visited: t.visited.insert(key), ..t },
            Some(text) => visit_includes(
                fs,
                roots,
                include_tokens(statements(text)),
                depth + 1,
                Trail { visited: t.visited.insert(key), bodies: t.bodies.push(text) },
            ),
        }
    }
}

/// A visit of the paths of `Include` lines, one after the other.
pub open spec fn visit_includes<P>(
    fs: FileTree<P>,
    roots: Roots,
    tokens: Seq<Seq<char>>,
    depth: int,
    t: Trail,
) -> Trail
    decreases MAX_INCLUDE_DEPTH + 1 - depth, 2int, tokens.len(),
{
    if tokens.len() == 0 || depth > MAX_INCLUDE_DEPTH {
        t
    } else {
        let found = found_at(fs, roots, tokens[0]);
        visit_includes(
            fs,
            roots,
            tokens.drop_first(),
            depth,
            visit_entries(fs, roots, found, depth, t),
        )
    }
}

/// A visit of the files that fit a pattern, one after the other; directories are
/// passed over.
pub open spec fn visit_entries<P>(
    fs: FileTree<P>,
    roots: Roots,
    entries: Seq<(P, bool)>,
    depth: int,
    t: Trail,
) -> Trail
    decreases MAX_INCLUDE_DEPTH + 1 - depth, 1int, entries.len(),
{
    if entries.len() == 0 || depth > MAX_INCLUDE_DEPTH {
        t
    } else {
        let next = if entries[0].1 {
            t
        } else {
            visit_file(fs, roots, entries[0].0, depth, t)
        };
        visit_entries(fs, roots, entries.drop_first(), depth, next)
    }
}

/// A walk between two tasks.
pub open spec fn walk_at<P>(roots: Roots, tasks: Seq<Task<P>>, t: Trail) -> Walk<P> {
    Walk {
        unix_paths: roots.unix_paths,
        base: roots.base,
        home: roots.home,
        tasks,
        reading: false,
        visited: t.visited,
        bodies: t.bodies,
    }
}

proof fn lemma_walk_on_adds<P>(fs: FileTree<P>, w: Walk<P>, a: nat, b: nat)
    ensures
        walk_on(fs, w, a + b) == walk_on(fs, walk_on(fs, w, a), b),
    decreases a,
{
    if a > 0 {
        let next = walk_step(w, answer_of(fs, request_of(w)));
        lemma_walk_on_adds(fs, next, (a - 1) as nat, b);
        assert((a + b - 1) as nat == (a - 1) as nat + b);
    }
}

proof fn lemma_walks_file<P>(
    fs: FileTree<P>,
    roots: Roots,
    rest: Seq<Task<P>>,
    path: P,
    depth: int,
    t: Trail,
) -> (n: nat)
    requires
        0 <= depth < MAX_INCLUDE_DEPTH,
    ensures
        walk_on(fs, walk_at(roots, rest.push(Task::File { path, depth }), t), n) == walk_at(
            roots,
            rest,
            visit_file(fs, roots, path, depth, t),
        ),
    decreases MAX_INCLUDE_DEPTH + 1 - depth, 0int, 0nat,
{
    let w0 = walk_at(roots, rest.push(Task::File { path, depth }), t);
    assert(w0.tasks.drop_last() =~= rest);
    let key = (fs.key)(path);
    let w1 = walk_step(w0, answer_of(fs, request_of(w0)));
    assert(walk_on(fs, w1, 0) == w1);
    assert(walk_on(fs, w0, 1) == w1);
    if t.visited.contains(key) {
        assert(w1 =~= walk_at(roots, rest, t));
        1
    } else {
        let w2 = walk_step(w1, answer_of(fs, request_of(w1)));
        assert(walk_on(fs, w2, 0) == w2);
        assert(walk_on(fs, w1, 1) == w2);
        assert(walk_on(fs, w0, 2) == w2);
        assert(w1.tasks.drop_last() =~= rest);
        match (fs.body)(path) {
            None => {
                assert(w2 =~= walk_at(roots, rest, visit_file(fs, roots, path, depth, t)));
                2
            },
            Some(text) => {
                let tokens = include_tokens(statements(text));
                let next = Trail { visited: t.visited.insert(key), bodies: t.bodies.push(text) };
                assert(w2 =~= walk_at(roots, rest + include_tasks(tokens, depth + 1), next));
                let more = lemma_walks_includes(fs, roots, rest, tokens, depth + 1, next);
                lemma_walk_on_adds(fs, w0, 2, more);
                2 + more
            },
        }
    }
}

proof fn lemma_walks_includes<P>(
    fs: FileTree<P>,
    roots: Roots,
    rest: Seq<Task<P>>,
    tokens: Seq<Seq<char>>,
    depth: int,
    t: Trail,
) -> (n: nat)
    requires
        0 <= depth <= MAX_INCLUDE_DEPTH,
    ensures
        walk_on(fs, walk_at(roots, rest + include_tasks(tokens, depth), t), n) == walk_at(
            roots,
            rest,
            visit_includes(fs, roots, tokens, depth, t),
        ),
    decreases MAX_INCLUDE_DEPTH + 1 - depth, 2int, tokens.len(),
{
    let w0 = walk_at(roots, rest + include_tasks(tokens, depth), t);
    if tokens.len() == 0 {
        assert(rest + include_tasks(tokens, depth) =~= rest);
        0
    } else {
        let below = rest + include_tasks(tokens.drop_first(), depth);
        assert(w0.tasks =~= below.push(Task::Include { token: tokens[0], depth }));
        assert(w0.tasks.drop_last() =~= below);
        let found = found_at(fs, roots, tokens[0]);
        let w1 = walk_step(w0, answer_of(fs, request_of(w0)));
        assert(walk_on(fs, w1, 0) == w1);
        assert(walk_on(fs, w0, 1) == w1);
        assert(w1 =~= walk_at(roots, below + file_tasks(found, depth), t));
        let a = lemma_walks_entries(fs, roots, below, found, depth, t);
        let next = visit_entries(fs, roots, found, depth, t);
        let b = lemma_walks_includes(fs, roots, rest, tokens.drop_first(), depth, next);
        lemma_walk_on_adds(fs, w0, 1, a);
        lemma_walk_on_adds(fs, w0, 1 + a, b);
        1 + a + b
    }
}

proof fn lemma_walks_entries<P>(
    fs: FileTree<P>,
    roots: Roots,
    rest: Seq<Task<P>>,
    entries: Seq<(P, bool)>,
    depth: int,
    t: Trail,
) -> (n: nat)
    requires
        0 <= depth <= MAX_INCLUDE_DEPTH,
    ensures
        walk_on(fs, walk_at(roots, rest + file_tasks(entries, depth), t), n) == walk_at(
            roots,
            rest,
            visit_entries(fs, roots, entries, depth, t),
        ),
    decreases MAX_INCLUDE_DEPTH + 1 - depth, 1int, entries.len(),
{
    let w0 = walk_at(roots, rest + file_tasks(entries, depth), t);
    if entries.len() == 0 {
        assert(rest + file_tasks(entries, depth) =~= rest);
        0
    } else {
        let below = rest + file_tasks(entries.drop_first(), depth);
        if entries[0].1 || depth >= MAX_INCLUDE_DEPTH {
            assert(w0.tasks =~= below);
            if depth >= MAX_INCLUDE_DEPTH {
                assert(visit_file(fs, roots, entries[0].0, depth, t) == t);
            }
            lemma_walks_entries(fs, roots, rest, entries.drop_first(), depth, t)
        } else {
            let path = entries[0].0;
            assert(w0.tasks =~= below.push(Task::File { path, depth }));
            let a = lemma_walks_file(fs, roots, below, path, depth, t);
            let next = visit_file(fs, roots, path, depth, t);
            let b = lemma_walks_entries(fs, roots, rest, entries.drop_first(), depth, next);
            lemma_walk_on_adds(fs, w0, a, b);
            a + b
        }
    }
}

/// A walk comes to an end, whatever the files hold and however they include one
/// another, and its texts are then those of the visit of the tree.
pub proof fn law_walk_ends<P>(
    fs: FileTree<P>,
    path: P,
    base: Seq<char>,
    home: Option<Seq<char>>,
    unix_paths: bool,
) -> (n: nat)
    ensures
        ({
            let end = walk_on(fs, walk_start(path, base, home, unix_paths), n);
            let visit = visit_file(
                fs,
                (Roots { unix_paths, base, home }),
                path,
                0,
                (Trail { visited: Set::empty(), bodies: Seq::empty() }),
            );
            &&& request_of(end) == Request::<P>::Done
            &&& end.visited == visit.visited
            &&& end.bodies == visit.bodies
        }),
{
    let roots = Roots { unix_paths, base, home };
    let t = Trail { visited: Set::empty(), bodies: Seq::empty() };
    let rest = Seq::<Task<P>>::empty();
    let start = walk_start(path, base, home, unix_paths);
    assert(start =~= walk_at(roots, rest.push(Task::File { path, depth: 0 }), t));
    lemma_walks_file(fs, roots, rest, path, 0, t)
}

/// Whether `after` goes on from `t`: no visited file is forgotten, no text is
/// changed, and every text that was added is that of another newly visited file.
pub open spec fn extends(t: Trail, after: Trail) -> bool {
    &&& after.visited.finite()
    &&& t.visited.subset_of(after.visited)
    &&& t.bodies.is_prefix_of(after.bodies)
    &&& after.bodies.len() - t.bodies.len() <= after.visited.len() - t.visited.len()
}

proof fn lemma_extends_transitive(a: Trail, b: Trail, c: Trail)
    requires
        extends(a, b),
        extends(b, c),
    ensures
        extends(a, c),
{
    assert(c.bodies.take(a.bodies.len() as int) =~= a.bodies) by {
        assert(forall|i: int| 0 <= i < a.bodies.len() ==> b.bodies[i] == a.bodies[i]);
        assert(forall|i: int| 0 <= i < b.bodies.len() ==> c.bodies[i] == b.bodies[i]);
    }
}

/// No file's text is taken twice: visiting a file adds at most as many texts as it
/// adds visited files.
pub proof fn law_each_file_is_read_once<P>(
    fs: FileTree<P>,
    roots: Roots,
    path: P,
    depth: int,
    t: Trail,
)
    requires
        t.visited.finite(),
    ensures
        extends(t, visit_file(fs, roots, path, depth, t)),
    decreases MAX_INCLUDE_DEPTH + 1 - depth, 0int, 0nat,
{
    let key = (fs.key)(path);
    if depth < MAX_INCLUDE_DEPTH && !t.visited.contains(key) {
        if let Some(text) = (fs.body)(path) {
            let next = Trail { visited: t.visited.insert(key), bodies: t.bodies.push(text) };
            assert(extends(t, next));
            let tokens = include_tokens(statements(text));
            lemma_includes_extend(fs, roots, tokens, depth + 1, next);
            lemma_extends_transitive(
                t,
                next,
                visit_includes(fs, roots, tokens, depth + 1, next),
            );
        }
    }
}

proof fn lemma_includes_extend<P>(
    fs: FileTree<P>,
    roots: Roots,
    tokens: Seq<Seq<char>>,
    depth: int,
    t: Trail,
)
    requires
        t.visited.finite(),
    ensures
        extends(t, visit_includes(fs, roots, tokens, depth, t)),
    decreases MAX_INCLUDE_DEPTH + 1 - depth, 2int, tokens.len(),
{
    if tokens.len() > 0 && depth <= MAX_INCLUDE_DEPTH {
        let found = found_at(fs, roots, tokens[0]);
        let next = visit_entries(fs, roots, found, depth, t);
        lemma_entries_extend(fs, roots, found, depth, t);
        lemma_includes_extend(fs, roots, tokens.drop_first(), depth, next);
        lemma_extends_transitive(
            t,
            next,
            visit_includes(fs, roots, tokens.drop_first(), depth, next),
        );
    }
}

proof fn lemma_entries_extend<P>(
    fs: FileTree<P>,
    roots: Roots,
    entries: Seq<(P, bool)>,
    depth: int,
    t: Trail,
)
    requires
        t.visited.finite(),
    ensures
        extends(t, visit_entries(fs, roots, entries, depth, t)),
    decreases MAX_INCLUDE_DEPTH + 1 - depth, 1int, entries.len(),
{
    if entries.len() > 0 && depth <= MAX_INCLUDE_DEPTH {
        if entries[0].1 {
            lemma_entries_extend(fs, roots, entries.drop_first(), depth, t);
        } else {
            let next = visit_file(fs, roots, entries[0].0, depth, t);
            law_each_file_is_read_once(fs, roots, entries[0].0, depth, t);
            lemma_entries_extend(fs, roots, entries.drop_first(), depth, next);
            lemma_extends_transitive(
                t,
                next,
                visit_entries(fs, roots, entries.drop_first(), depth, next),
            );
        }
    }
}

/// Missing and unreadable files, and directories, contribute nothing.
pub proof fn law_missing_includes_are_skipped<P>(
    fs: FileTree<P>,
    roots: Roots,
    entries: Seq<(P, bool)>,
    depth: int,
    t: Trail,
)
    requires
        forall|i: int|
            0 <= i < entries.len() ==> (#[trigger] entries[i]).1 || (fs.body)(
                entries[i].0,
            ) is None,
    ensures
        visit_entries(fs, roots, entries, depth, t).bodies == t.bodies,
    decreases entries.len(),
{
    if entries.len() > 0 && depth <= MAX_INCLUDE_DEPTH {
        let next = if entries[0].1 {
            t
        } else {
            visit_file(fs, roots, entries[0].0, depth, t)
        };
        assert forall|i: int| 0 <= i < entries.drop_first().len() implies (
        #[trigger] entries.drop_first()[i]).1 || (fs.body)(entries.drop_first()[i].0) is None by {
            assert(entries.drop_first()[i] == entries[i + 1]);
        }
        law_missing_includes_are_skipped(fs, roots, entries.drop_first(), depth, next);
    }
}

/// Revisits are no-ops, and so is everything from the greatest depth on.
pub proof fn law_revisits_and_depth_stop<P>(
    fs: FileTree<P>,
    roots: Roots,
    path: P,
    depth: int,
    t: Trail,
)
    requires
        t.visited.contains((fs.key)(path)) || depth >= MAX_INCLUDE_DEPTH,
    ensures
        visit_file(fs, roots, path, depth, t) == t,
{
}

/// The text of a file comes before the texts of all that it includes.
pub proof fn law_own_text_comes_first<P>(
    fs: FileTree<P>,
    roots: Roots,
    path: P,
    depth: int,
    t: Trail,
)
    requires
        t.visited.finite(),
        !t.visited.contains((fs.key)(path)),
        depth < MAX_INCLUDE_DEPTH,
        (fs.body)(path) is Some,
    ensures
        visit_file(fs, roots, path, depth, t).bodies.len() > t.bodies.len(),
        visit_file(fs, roots, path, depth, t).bodies[t.bodies.len() as int] == (fs.body)(path)->0,
{
    let text = (fs.body)(path)->0;
    let next = Trail {
        visited: t.visited.insert((fs.key)(path)),
        bodies: t.bodies.push(text),
    };
    let tokens = include_tokens(statements(text));
    lemma_includes_extend(fs, roots, tokens, depth + 1, next);
    let after = visit_includes(fs, roots, tokens, depth + 1, next);
    assert(after.bodies[t.bodies.len() as int] == next.bodies[t.bodies.len() as int]);
}

} // verus!
