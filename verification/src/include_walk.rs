//! Following the `Include` lines of configuration files.
//!
//! The walk itself touches no files. It is a machine that says what it needs next
//! ([`ConfigWalk::request`]) and goes on with what it is given
//! ([`ConfigWalk::respond`]); whoever runs it does the file access. Once it needs
//! nothing more it holds the texts of the files it went through, in order.

use vstd::prelude::*;
use vstd::slice::slice_subrange;

use crate::directives::{include_tokens, split_statements, statements, strip_keyword};
use crate::paths::{join_path, same_bytes, seen_from};
use crate::text::{
    push_text, slices, split_words, str_view, string_view, texts, to_chars, to_text, words,
};

verus! {

/// How many files deep an `Include` is followed.
pub const MAX_INCLUDE_DEPTH: u8 = 16;

/// `token` with a leading `~/` replaced by the home directory, where one is
/// known.
pub open spec fn tilde_expanded(token: Seq<char>, home: Option<Seq<char>>) -> Seq<char> {
    if token.len() >= 2 && token[0] == '~' && token[1] == '/' && home is Some && home->0.len()
        > 0 {
        home->0 + seq!['/'] + token.skip(2)
    } else {
        token
    }
}

/// The file pattern that a path of an `Include` line stands for on Unix.
pub open spec fn include_pattern(
    token: Seq<char>,
    home: Option<Seq<char>>,
    base: Seq<char>,
) -> Seq<char> {
    seen_from(base, tilde_expanded(token, home))
}

/// `raw` with a leading `~/` replaced by `home`.
pub fn expand_tilde(raw: &str, home: Option<&str>) -> (r: String)
    ensures
        r@ == tilde_expanded(raw@, str_view(home)),
{
    let chars = to_chars(raw);
    if chars.len() >= 2 && chars[0] == '~' && chars[1] == '/' {
        if let Some(h) = home {
            if !h.is_empty() {
                let mut out = h.to_owned();
                let rest = slice_subrange(chars.as_slice(), 1, chars.len());
                push_text(&mut out, to_text(rest).as_str());
                assert(out@ =~= h@ + seq!['/'] + raw@.skip(2));
                return out;
            }
        }
    }
    raw.to_owned()
}

/// The file pattern that `token` stands for on Unix.
pub fn resolve_include(token: &str, home: Option<&str>, base_dir: &str) -> (r: String)
    ensures
        r@ == include_pattern(token@, str_view(home), base_dir@),
{
    join_path(base_dir, expand_tilde(token, home).as_str())
}

/// The paths that the `Include` lines of `content` name, in order.
pub fn includes_of(content: &str) -> (r: Vec<String>)
    ensures
        texts(r@) == include_tokens(statements(content@)),
{
    let chars = to_chars(content);
    let lines = split_statements(chars.as_slice());
    let ghost all = statements(content@);
    let mut out: Vec<String> = Vec::new();
    let mut i: usize = 0;
    assert(texts(out@) =~= Seq::<Seq<char>>::empty());
    while i < lines.len()
        invariant
            i <= lines@.len(),
            all == slices(lines@),
            texts(out@) == include_tokens(all.take(i as int)),
        decreases lines.len() - i,
    {
        assert(all[i as int] == lines@[i as int]@);
        assert(all.take(i + 1).drop_last() =~= all.take(i as int));
        assert(all.take(i + 1).last() == all[i as int]);
        if let Some(rest) = strip_keyword(lines[i], "Include") {
            let names = split_words(rest);
            let ghost named = words(rest@);
            let ghost before = texts(out@);
            let mut k: usize = 0;
            assert(before + named.take(0) =~= before);
            while k < names.len()
                invariant
                    k <= names@.len(),
                    named == slices(names@),
                    texts(out@) == before + named.take(k as int),
                decreases names.len() - k,
            {
                let name = names[k];
                assert(named[k as int] == name@);
                let ghost held = texts(out@);
                out.push(to_text(name));
                assert(texts(out@) =~= held.push(name@));
                assert(named.take(k + 1) =~= named.take(k as int).push(name@));
                assert(texts(out@) =~= before + named.take(k + 1));
                k += 1;
            }
            assert(named.take(named.len() as int) =~= named);
        }
        i += 1;
    }
    assert(all.take(all.len() as int) =~= all);
    out
}

/// Something that the walk still has to look at.
pub enum WalkTask<P> {
    /// A file.
    File { path: P, depth: u8 },
    /// A path of an `Include` line.
    Include { token: String, depth: u8 },
}

/// A [`WalkTask`] as a mathematical value.
pub enum Task<P> {
    File { path: P, depth: int },
    Include { token: Seq<char>, depth: int },
}

impl<P> View for WalkTask<P> {
    type V = Task<P>;

    open spec fn view(&self) -> Task<P> {
        match self {
            WalkTask::File { path, depth } => Task::File { path: *path, depth: *depth as int },
            WalkTask::Include { token, depth } => Task::Include {
                token: token@,
                depth: *depth as int,
            },
        }
    }
}

/// What the walk needs to go on.
pub enum WalkRequest<'a, P> {
    /// Nothing: the walk is over.
    Done,
    /// The identity of a file: a key that is the same for every path that leads
    /// to the file.
    Identify(&'a P),
    /// The text of a file.
    Read(&'a P),
    /// The files that fit a pattern.
    Expand(String),
    /// The files that fit `path` as the system sees it from the directory `base`: where
    /// `path` is absolute there, `base` does not matter.
    ExpandFrom { base: String, path: String },
}

/// What the walk is given.
pub enum WalkAnswer<P> {
    /// The identity of the file asked about.
    Identity(Vec<u8>),
    /// The text of the file asked about, or `None` where it cannot be read.
    Body(Option<String>),
    /// The paths that fit the pattern asked about, in lexical order, each with
    /// whether it is a directory.
    Entries(Vec<(P, bool)>),
}

/// A [`WalkRequest`] as a mathematical value.
pub enum Request<P> {
    Done,
    Identify(P),
    Read(P),
    Expand(Seq<char>),
    ExpandFrom { base: Seq<char>, path: Seq<char> },
}

/// A [`WalkAnswer`] as a mathematical value.
pub enum Answer<P> {
    Identity(Seq<u8>),
    Body(Option<Seq<char>>),
    Entries(Seq<(P, bool)>),
}

impl<P> WalkRequest<'_, P> {
    /// The request as a mathematical value.
    pub open spec fn model(self) -> Request<P> {
        match self {
            WalkRequest::Done => Request::Done,
            WalkRequest::Identify(p) => Request::Identify(*p),
            WalkRequest::Read(p) => Request::Read(*p),
            WalkRequest::Expand(s) => Request::Expand(s@),
            WalkRequest::ExpandFrom { base, path } => Request::ExpandFrom {
                base: base@,
                path: path@,
            },
        }
    }
}

impl<P> WalkAnswer<P> {
    /// The answer as a mathematical value.
    pub open spec fn model(self) -> Answer<P> {
        match self {
            WalkAnswer::Identity(key) => Answer::Identity(key@),
            WalkAnswer::Body(text) => Answer::Body(string_view(text)),
            WalkAnswer::Entries(list) => Answer::Entries(list@),
        }
    }
}

/// A walk as a mathematical value. The last task is the next one.
#[verifier::ext_equal]
#[verifier::reject_recursive_types(P)]
pub struct Walk<P> {
    /// Whether paths are written as on Unix, where the walk can put them together.
    pub unix_paths: bool,
    pub base: Seq<char>,
    pub home: Option<Seq<char>>,
    pub tasks: Seq<Task<P>>,
    /// Whether the next task is a file whose identity is known to be new.
    pub reading: bool,
    pub visited: Set<Seq<u8>>,
    pub bodies: Seq<Seq<char>>,
}

/// A walk at its start.
pub open spec fn walk_start<P>(
    path: P,
    base: Seq<char>,
    home: Option<Seq<char>>,
    unix_paths: bool,
) -> Walk<P> {
    Walk {
        unix_paths,
        base,
        home,
        tasks: seq![Task::File { path, depth: 0 }],
        reading: false,
        visited: Set::empty(),
        bodies: Seq::empty(),
    }
}

/// What a path of an `Include` line makes a walk ask for: on Unix the files that fit the
/// pattern it stands for, and elsewhere, where the system decides what an absolute path
/// is, the files that fit it from the base directory. A leading `~/` is replaced first.
pub open spec fn include_request<P>(
    token: Seq<char>,
    home: Option<Seq<char>>,
    base: Seq<char>,
    unix_paths: bool,
) -> Request<P> {
    if unix_paths {
        Request::Expand(include_pattern(token, home, base))
    } else {
        Request::ExpandFrom { base, path: tilde_expanded(token, home) }
    }
}

/// What a walk needs next.
pub open spec fn request_of<P>(w: Walk<P>) -> Request<P> {
    if w.tasks.len() == 0 {
        Request::Done
    } else {
        match w.tasks.last() {
            Task::File { path, .. } => if w.reading {
                Request::Read(path)
            } else {
                Request::Identify(path)
            },
            Task::Include { token, .. } => include_request(
                token,
                w.home,
                w.base,
                w.unix_paths,
            ),
        }
    }
}

/// The tasks for the paths of `Include` lines; the first path is the next task.
pub open spec fn include_tasks<P>(tokens: Seq<Seq<char>>, depth: int) -> Seq<Task<P>>
    decreases tokens.len(),
{
    if tokens.len() == 0 {
        Seq::empty()
    } else {
        include_tasks(tokens.drop_first(), depth).push(Task::Include { token: tokens[0], depth })
    }
}

/// The tasks for the paths that fit a pattern; the first path is the next task.
/// Directories are left out, and so is everything below the greatest depth.
pub open spec fn file_tasks<P>(entries: Seq<(P, bool)>, depth: int) -> Seq<Task<P>>
    decreases entries.len(),
{
    if entries.len() == 0 {
        Seq::empty()
    } else {
        let rest = file_tasks(entries.drop_first(), depth);
        if entries[0].1 || depth >= MAX_INCLUDE_DEPTH {
            rest
        } else {
            rest.push(Task::File { path: entries[0].0, depth })
        }
    }
}

/// Whether an answer is of the kind that was asked for.
pub open spec fn suits<P>(request: Request<P>, answer: Answer<P>) -> bool {
    match request {
        Request::Done => false,
        Request::Identify(_) => answer is Identity,
        Request::Read(_) => answer is Body,
        Request::Expand(_) => answer is Entries,
        Request::ExpandFrom { .. } => answer is Entries,
    }
}

/// A walk after an answer. A file that was visited before is skipped, as is one
/// that cannot be read. The `Include` lines of a file come after its text and
/// before whatever was waiting. An answer of the wrong kind changes nothing.
pub open spec fn walk_step<P>(w: Walk<P>, answer: Answer<P>) -> Walk<P> {
    if !suits(request_of(w), answer) {
        w
    } else {
        let rest = w.tasks.drop_last();
        match (w.tasks.last(), answer) {
            (Task::File { .. }, Answer::Identity(key)) => if w.visited.contains(key) {
                Walk { tasks: rest, ..w }
            } else {
                Walk { visited: w.visited.insert(key), reading: true, ..w }
            },
            (Task::File { depth, .. }, Answer::Body(Some(text))) => Walk {
                tasks: rest + include_tasks(include_tokens(statements(text)), depth + 1),
                reading: false,
                bodies: w.bodies.push(text),
                ..w
            },
            (Task::File { .. }, Answer::Body(None)) => Walk { tasks: rest, reading: false, ..w },
            (Task::Include { depth, .. }, Answer::Entries(list)) => Walk {
                tasks: rest + file_tasks(list, depth),
                ..w
            },
            _ => w,
        }
    }
}

/// What keeps a walk within its bounds: files stay above the greatest depth, and
/// only a file is read.
pub open spec fn walk_valid<P>(w: Walk<P>) -> bool {
    &&& forall|i: int|
        0 <= i < w.tasks.len() ==> match #[trigger] w.tasks[i] {
            Task::File { depth, .. } => 0 <= depth < MAX_INCLUDE_DEPTH,
            Task::Include { depth, .. } => 0 <= depth <= MAX_INCLUDE_DEPTH,
        }
    &&& w.reading ==> w.tasks.len() > 0 && w.tasks.last() is File
}

/// The state of a walk.
#[verifier::reject_recursive_types(P)]
struct WalkState<P> {
    unix_paths: bool,
    base_dir: String,
    home: Option<String>,
    tasks: Vec<WalkTask<P>>,
    reading: bool,
    visited: Vec<Vec<u8>>,
    bodies: Vec<String>,
}

/// The views of a list of keys.
pub open spec fn key_views(keys: Seq<Vec<u8>>) -> Seq<Seq<u8>> {
    keys.map_values(|k: Vec<u8>| k@)
}

/// The views of a list of tasks.
pub open spec fn task_views<P>(tasks: Seq<WalkTask<P>>) -> Seq<Task<P>> {
    tasks.map_values(|t: WalkTask<P>| t@)
}

impl<P> WalkState<P> {
    spec fn view(&self) -> Walk<P> {
        Walk {
            unix_paths: self.unix_paths,
            base: self.base_dir@,
            home: string_view(self.home),
            tasks: task_views(self.tasks@),
            reading: self.reading,
            visited: key_views(self.visited@).to_set(),
            bodies: texts(self.bodies@),
        }
    }
}

/// Whether `key` is among `keys`.
fn has_key(keys: &Vec<Vec<u8>>, key: &Vec<u8>) -> (r: bool)
    ensures
        r == key_views(keys@).contains(key@),
{
    let ghost all = key_views(keys@);
    let mut i: usize = 0;
    while i < keys.len()
        invariant
            i <= keys@.len(),
            all == key_views(keys@),
            forall|k: int| 0 <= k < i ==> #[trigger] all[k] != key@,
        decreases keys.len() - i,
    {
        assert(all[i as int] == keys@[i as int]@);
        if same_bytes(&keys[i], key) {
            return true;
        }
        i += 1;
    }
    false
}

/// The view of an optional string behind a reference.
fn as_text(o: &Option<String>) -> (r: Option<&str>)
    ensures
        str_view(r) == string_view(*o),
{
    match o {
        Some(s) => Some(s.as_str()),
        None => None,
    }
}

impl<P> WalkState<P> {
    /// A walk without tasks.
    fn idle() -> (r: Self)
        ensures
            walk_valid(r@),
    {
        WalkState {
            unix_paths: true,
            base_dir: String::new(),
            home: None,
            tasks: Vec::new(),
            reading: false,
            visited: Vec::new(),
            bodies: Vec::new(),
        }
    }

    /// A walk that starts at the file `path`.
    fn new(path: P, base_dir: String, home: Option<String>, unix_paths: bool) -> (r: Self)
        ensures
            r@ == walk_start(path, base_dir@, string_view(home), unix_paths),
            walk_valid(r@),
    {
        let mut tasks: Vec<WalkTask<P>> = Vec::new();
        tasks.push(WalkTask::File { path, depth: 0 });
        let r = WalkState {
            unix_paths,
            base_dir,
            home,
            tasks,
            reading: false,
            visited: Vec::new(),
            bodies: Vec::new(),
        };
        assert(r@.tasks =~= seq![Task::File { path, depth: 0 }]);
        assert(r@.visited =~= Set::empty());
        assert(r@ =~= walk_start(path, base_dir@, string_view(home), unix_paths));
        r
    }

    /// What the walk needs next.
    fn request(&self) -> (r: WalkRequest<'_, P>)
        ensures
            r.model() == request_of(self@),
    {
        let n: usize = self.tasks.len();
        if n == 0 {
            return WalkRequest::Done;
        }
        assert(self@.tasks.last() == self.tasks@[n - 1]@);
        match &self.tasks[n - 1] {
            WalkTask::File { path, .. } => if self.reading {
                WalkRequest::Read(path)
            } else {
                WalkRequest::Identify(path)
            },
            WalkTask::Include { token, .. } => if self.unix_paths {
                WalkRequest::Expand(
                    resolve_include(
                        token.as_str(),
                        as_text(&self.home),
                        self.base_dir.as_str(),
                    ),
                )
            } else {
                WalkRequest::ExpandFrom {
                    base: self.base_dir.clone(),
                    path: expand_tilde(token.as_str(), as_text(&self.home)),
                }
            },
        }
    }

    /// Goes on with an answer.
    fn respond(&mut self, answer: WalkAnswer<P>) -> (r: bool)
        requires
            walk_valid(old(self)@),
        ensures
            r == suits(request_of(old(self)@), answer.model()),
            final(self)@ == walk_step(old(self)@, answer.model()),
            walk_valid(final(self)@),
    {
        let ghost before = self@;
        let ghost reply = answer.model();
        proof {
            lemma_step_valid(before, reply);
        }
        let n: usize = self.tasks.len();
        if n == 0 {
            return false;
        }
        assert(before.tasks.last() == self.tasks@[n - 1]@);
        let ghost rest = before.tasks.drop_last();
        let is_file: bool = match &self.tasks[n - 1] {
            WalkTask::File { .. } => true,
            WalkTask::Include { .. } => false,
        };
        let depth: u8 = match &self.tasks[n - 1] {
            WalkTask::File { depth, .. } => *depth,
            WalkTask::Include { depth, .. } => *depth,
        };
        match answer {
            WalkAnswer::Identity(key) => {
                if !is_file || self.reading {
                    return false;
                }
                let ghost keys = key_views(self.visited@);
                if has_key(&self.visited, &key) {
                    let _ = self.tasks.pop();
                    assert(self@.tasks =~= rest);
                } else {
                    let ghost k = key@;
                    self.visited.push(key);
                    self.reading = true;
                    assert(key_views(self.visited@) =~= keys.push(k));
                    assert(self@.visited =~= before.visited.insert(k)) by {
                        lemma_to_set_push(keys, k);
                    }
                }
                assert(self@ =~= walk_step(before, reply));
                true
            },
            WalkAnswer::Body(None) => {
                if !is_file || !self.reading {
                    return false;
                }
                let _ = self.tasks.pop();
                self.reading = false;
                assert(self@.tasks =~= rest);
                assert(self@ =~= walk_step(before, reply));
                true
            },
            WalkAnswer::Body(Some(text)) => {
                if !is_file || !self.reading {
                    return false;
                }
                let tokens = includes_of(text.as_str());
                let ghost named = include_tokens(statements(text@));
                let _ = self.tasks.pop();
                self.reading = false;
                let ghost held = before.bodies;
                self.bodies.push(text);
                assert(texts(self.bodies@) =~= held.push(text@));
                assert(task_views(self.tasks@) =~= rest);
                push_includes(&mut self.tasks, tokens, depth + 1);
                assert(self@.tasks == rest + include_tasks(named, depth + 1));
                assert(self@ =~= walk_step(before, reply));
                true
            },
            WalkAnswer::Entries(list) => {
                if is_file {
                    return false;
                }
                let _ = self.tasks.pop();
                assert(task_views(self.tasks@) =~= rest);
                push_files(&mut self.tasks, list, depth);
                assert(self@ =~= walk_step(before, reply));
                true
            },
        }
    }
}

/// A walk through a configuration file and the files it includes, over paths of
/// any kind.
#[verifier::reject_recursive_types(P)]
pub struct ConfigWalk<P> {
    state: WalkState<P>,
}

impl<P> View for ConfigWalk<P> {
    type V = Walk<P>;

    closed spec fn view(&self) -> Walk<P> {
        self.state@
    }
}

impl<P> ConfigWalk<P> {
    #[verifier::type_invariant]
    closed spec fn bounded(&self) -> bool {
        walk_valid(self.state@)
    }

    /// A walk that starts at the file `path`. Relative includes are seen from
    /// `base_dir`, and `~/` stands for `home`. `unix_paths` says whether paths are
    /// written as on Unix.
    pub fn new(path: P, base_dir: String, home: Option<String>, unix_paths: bool) -> (r: Self)
        ensures
            r@ == walk_start(path, base_dir@, string_view(home), unix_paths),
    {
        ConfigWalk { state: WalkState::new(path, base_dir, home, unix_paths) }
    }

    /// What the walk needs next.
    pub fn request(&self) -> (r: WalkRequest<'_, P>)
        ensures
            r.model() == request_of(self@),
    {
        self.state.request()
    }

    /// Goes on with an answer to what was asked for. `false` means that the
    /// answer is not of the kind that was asked for, and changes nothing.
    pub fn respond(&mut self, answer: WalkAnswer<P>) -> (r: bool)
        ensures
            r == suits(request_of(old(self)@), answer.model()),
            final(self)@ == walk_step(old(self)@, answer.model()),
            walk_valid(final(self)@),
    {
        proof {
            use_type_invariant(&*self);
        }
        let mut state: WalkState<P> = WalkState::idle();
        std::mem::swap(&mut state, &mut self.state);
        let suited: bool = state.respond(answer);
        self.state = state;
        suited
    }

    /// The texts of the files that the walk has gone through, in order.
    pub fn into_bodies(self) -> (r: Vec<String>)
        ensures
            texts(r@) == self@.bodies,
    {
        self.state.bodies
    }
}

/// Puts the paths of `Include` lines on top of the tasks, the first on top.
fn push_includes<P>(tasks: &mut Vec<WalkTask<P>>, tokens: Vec<String>, depth: u8)
    ensures
        task_views(final(tasks)@) == task_views(old(tasks)@) + include_tasks(
            texts(tokens@),
            depth as int,
        ),
{
    let ghost before = task_views(tasks@);
    let ghost all = texts(tokens@);
    let mut left = tokens;
    assert(before + include_tasks::<P>(all.skip(all.len() as int), depth as int) =~= before);
    while left.len() > 0
        invariant
            left@.len() <= all.len(),
            texts(left@) == all.take(left@.len() as int),
            task_views(tasks@) == before + include_tasks(
                all.skip(left@.len() as int),
                depth as int,
            ),
        decreases left.len(),
    {
        let ghost n = left@.len() as int;
        let ghost shown = texts(left@);
        let ghost held = task_views(tasks@);
        assert(shown[n - 1] == left@[n - 1]@);
        if let Some(token) = left.pop() {
            assert(token@ == all[n - 1]);
            tasks.push(WalkTask::Include { token, depth });
            assert(texts(left@) =~= all.take(n - 1));
            assert(task_views(tasks@) =~= held.push(
                Task::Include { token: all[n - 1], depth: depth as int },
            ));
            assert(all.skip(n - 1).drop_first() =~= all.skip(n));
            assert(all.skip(n - 1)[0] == all[n - 1]);
            assert(task_views(tasks@) =~= before + include_tasks(all.skip(n - 1), depth as int));
        }
    }
    assert(all.skip(0) =~= all);
}

/// Puts the paths that fit a pattern on top of the tasks, the first on top.
fn push_files<P>(tasks: &mut Vec<WalkTask<P>>, entries: Vec<(P, bool)>, depth: u8)
    ensures
        task_views(final(tasks)@) == task_views(old(tasks)@) + file_tasks(
            entries@,
            depth as int,
        ),
{
    let ghost before = task_views(tasks@);
    let ghost all = entries@;
    let mut left = entries;
    assert(before + file_tasks(all.skip(all.len() as int), depth as int) =~= before);
    assert(all.take(all.len() as int) =~= all);
    while left.len() > 0
        invariant
            left@.len() <= all.len(),
            left@ == all.take(left@.len() as int),
            task_views(tasks@) == before + file_tasks(all.skip(left@.len() as int), depth as int),
        decreases left.len(),
    {
        let ghost n = left@.len() as int;
        let ghost held = task_views(tasks@);
        if let Some(entry) = left.pop() {
            assert(entry == all[n - 1]);
            assert(left@ =~= all.take(n - 1));
            assert(all.skip(n - 1).drop_first() =~= all.skip(n));
            assert(all.skip(n - 1)[0] == all[n - 1]);
            let (path, is_dir) = entry;
            if !is_dir && depth < MAX_INCLUDE_DEPTH {
                tasks.push(WalkTask::File { path, depth });
                assert(task_views(tasks@) =~= held.push(
                    Task::File { path: all[n - 1].0, depth: depth as int },
                ));
            }
            assert(task_views(tasks@) =~= before + file_tasks(all.skip(n - 1), depth as int));
        }
    }
    assert(all.skip(0) =~= all);
}

proof fn lemma_to_set_push(keys: Seq<Seq<u8>>, k: Seq<u8>)
    ensures
        keys.push(k).to_set() == keys.to_set().insert(k),
{
    let grown = keys.push(k);
    assert forall|x: Seq<u8>| grown.to_set().contains(x) == keys.to_set().insert(k).contains(
        x,
    ) by {
        if keys.contains(x) {
            let i = choose|i: int| 0 <= i < keys.len() && keys[i] == x;
            assert(grown[i] == x);
        }
        assert(grown[keys.len() as int] == k);
        if grown.contains(x) {
            let i = choose|i: int| 0 <= i < grown.len() && grown[i] == x;
            if i < keys.len() {
                assert(keys[i] == x);
            }
        }
    }
    assert(grown.to_set() =~= keys.to_set().insert(k));
}

proof fn lemma_tasks_bounded<P>(tokens: Seq<Seq<char>>, entries: Seq<(P, bool)>, depth: int)
    ensures
        forall|i: int|
            0 <= i < include_tasks::<P>(tokens, depth).len() ==> match #[trigger] include_tasks::<
                P,
            >(tokens, depth)[i] {
                Task::File { .. } => false,
                Task::Include { depth: d, .. } => d == depth,
            },
        forall|i: int|
            0 <= i < file_tasks(entries, depth).len() ==> match #[trigger] file_tasks(
                entries,
                depth,
            )[i] {
                Task::File { depth: d, .. } => d == depth && d < MAX_INCLUDE_DEPTH,
                Task::Include { .. } => false,
            },
    decreases tokens.len() + entries.len(),
{
    if tokens.len() > 0 {
        lemma_tasks_bounded(tokens.drop_first(), Seq::<(P, bool)>::empty(), depth);
    }
    if entries.len() > 0 {
        lemma_tasks_bounded(Seq::empty(), entries.drop_first(), depth);
    }
}

/// An answer keeps a walk within its bounds.
pub proof fn lemma_step_valid<P>(w: Walk<P>, answer: Answer<P>)
    requires
        walk_valid(w),
    ensures
        walk_valid(walk_step(w, answer)),
{
    if suits(request_of(w), answer) {
        assert(w.tasks[w.tasks.len() - 1] == w.tasks.last());
        let rest = w.tasks.drop_last();
        let after = walk_step(w, answer);
        let tokens = match answer {
            Answer::Body(Some(text)) => include_tokens(statements(text)),
            _ => Seq::empty(),
        };
        let entries = match answer {
            Answer::Entries(list) => list,
            _ => Seq::empty(),
        };
        let depth = match w.tasks.last() {
            Task::File { depth, .. } => depth + 1,
            Task::Include { depth, .. } => depth,
        };
        lemma_tasks_bounded(tokens, entries, depth);
        assert forall|i: int| 0 <= i < after.tasks.len() implies match #[trigger] after.tasks[i] {
            Task::File { depth, .. } => 0 <= depth < MAX_INCLUDE_DEPTH,
            Task::Include { depth, .. } => 0 <= depth <= MAX_INCLUDE_DEPTH,
        } by {
            if i < rest.len() {
                assert(after.tasks[i] == w.tasks[i]);
            } else if answer is Body && answer->Body_0 is Some {
                assert(after.tasks[i] == include_tasks::<P>(tokens, depth)[i - rest.len()]);
            } else if answer is Entries {
                assert(after.tasks[i] == file_tasks(entries, depth)[i - rest.len()]);
            } else {
                assert(after.tasks[i] == w.tasks[i]);
            }
        }
    }
}

} // verus!
