//! Paths as lists of components, and which of them hold configuration.

use vstd::prelude::*;

use crate::text::{ends_with, has_suffix, push_text, same_text, string_view, to_chars};

verus! {

/// The name of a file or directory.
#[derive(Debug, PartialEq, Eq)]
pub enum Name {
    /// A name that is text.
    Text(String),
    /// A name that is not text, as the bytes it consists of.
    Raw(Vec<u8>),
}

/// A [`Name`] as a mathematical value.
pub enum NameView {
    Text(Seq<char>),
    Raw(Seq<u8>),
}

impl View for Name {
    type V = NameView;

    open spec fn view(&self) -> NameView {
        match self {
            Name::Text(s) => NameView::Text(s@),
            Name::Raw(b) => NameView::Raw(b@),
        }
    }
}

/// A component of a path.
#[derive(Debug, PartialEq, Eq)]
pub enum PathComponent {
    /// What a path may start with before its root, such as a drive.
    Prefix(Name),
    /// The root.
    RootDir,
    /// The present directory.
    CurDir,
    /// The parent directory.
    ParentDir,
    /// A file or directory.
    Normal(Name),
}

/// A [`PathComponent`] as a mathematical value.
pub enum Component {
    Prefix(NameView),
    RootDir,
    CurDir,
    ParentDir,
    Normal(NameView),
}

impl View for PathComponent {
    type V = Component;

    open spec fn view(&self) -> Component {
        match self {
            PathComponent::Prefix(n) => Component::Prefix(n@),
            PathComponent::RootDir => Component::RootDir,
            PathComponent::CurDir => Component::CurDir,
            PathComponent::ParentDir => Component::ParentDir,
            PathComponent::Normal(n) => Component::Normal(n@),
        }
    }
}

/// The views of the components of a path.
pub open spec fn path_view(path: Seq<PathComponent>) -> Seq<Component> {
    path.map_values(|c: PathComponent| c@)
}

/// The path without its last component; a root has no parent.
pub open spec fn parent_of(path: Seq<Component>) -> Option<Seq<Component>> {
    if path.len() == 0 {
        None
    } else {
        match path.last() {
            Component::Prefix(_) => None,
            Component::RootDir => None,
            _ => Some(path.drop_last()),
        }
    }
}

/// The name of the file or directory that a path leads to, where it is text.
pub open spec fn text_name(path: Seq<Component>) -> Option<Seq<char>> {
    if path.len() == 0 {
        None
    } else {
        match path.last() {
            Component::Normal(NameView::Text(s)) => Some(s),
            _ => None,
        }
    }
}

/// Whether a component is a directory for split configuration, `config.d` or
/// `conf.d`.
pub open spec fn config_dir(c: Component) -> bool {
    c == Component::Normal(NameView::Text("config.d"@)) || c == Component::Normal(
        NameView::Text("conf.d"@),
    )
}

/// Whether a path leads into a directory for split configuration: one that it passes
/// below the ssh directory, at any depth, or the one it ends in.
pub open spec fn in_config_dir(path: Seq<Component>, ssh_dir: Seq<Component>) -> bool {
    ||| exists|k: int| ssh_dir.len() <= k < path.len() - 1 && config_dir(#[trigger] path[k])
    ||| path.len() >= 2 && config_dir(path[path.len() - 2])
}

/// Whether a path looks like a file that holds ssh configuration: under the ssh
/// directory, and named `config`, or with the suffix `.conf` or `.config`, or anywhere
/// inside a directory named `config.d` or `conf.d`, whatever its own name.
pub open spec fn config_path(path: Seq<Component>, ssh_dir: Seq<Component>) -> bool {
    &&& ssh_dir.is_prefix_of(path)
    &&& path.len() > 0
    &&& path.last() is Normal
    &&& {
        ||| text_name(path) == Some("config"@)
        ||| text_name(path) is Some && has_suffix(text_name(path)->0, ".conf"@)
        ||| text_name(path) is Some && has_suffix(text_name(path)->0, ".config"@)
        ||| in_config_dir(path, ssh_dir)
    }
}

/// Whether two runs of bytes are the same.
pub fn same_bytes(a: &Vec<u8>, b: &Vec<u8>) -> (r: bool)
    ensures
        r == (a@ == b@),
{
    if a.len() != b.len() {
        return false;
    }
    let mut i: usize = 0;
    while i < a.len()
        invariant
            a@.len() == b@.len(),
            i <= a@.len(),
            forall|k: int| 0 <= k < i ==> a@[k] == b@[k],
        decreases a.len() - i,
    {
        if a[i] != b[i] {
            return false;
        }
        i += 1;
    }
    assert(a@ =~= b@);
    true
}

/// Whether two names are the same.
fn same_name(a: &Name, b: &Name) -> (r: bool)
    ensures
        r == (a@ == b@),
{
    match (a, b) {
        (Name::Text(x), Name::Text(y)) => *x == *y,
        (Name::Raw(x), Name::Raw(y)) => same_bytes(x, y),
        _ => false,
    }
}

/// Whether two components are the same.
fn same_component(a: &PathComponent, b: &PathComponent) -> (r: bool)
    ensures
        r == (a@ == b@),
{
    match (a, b) {
        (PathComponent::Prefix(x), PathComponent::Prefix(y)) => same_name(x, y),
        (PathComponent::RootDir, PathComponent::RootDir) => true,
        (PathComponent::CurDir, PathComponent::CurDir) => true,
        (PathComponent::ParentDir, PathComponent::ParentDir) => true,
        (PathComponent::Normal(x), PathComponent::Normal(y)) => same_name(x, y),
        _ => false,
    }
}

/// Whether `path` starts with the components of `base`.
fn starts_with(path: &[PathComponent], base: &[PathComponent]) -> (r: bool)
    ensures
        r == path_view(base@).is_prefix_of(path_view(path@)),
{
    let ghost whole = path_view(path@);
    let ghost front = path_view(base@);
    if base.len() > path.len() {
        return false;
    }
    let mut i: usize = 0;
    while i < base.len()
        invariant
            base@.len() <= path@.len(),
            whole == path_view(path@),
            front == path_view(base@),
            i <= base@.len(),
            forall|k: int| 0 <= k < i ==> front[k] == whole[k],
        decreases base.len() - i,
    {
        assert(front[i as int] == base@[i as int]@ && whole[i as int] == path@[i as int]@);
        if !same_component(&path[i], &base[i]) {
            assert(whole.take(front.len() as int)[i as int] != front[i as int]);
            return false;
        }
        i += 1;
    }
    assert(whole.take(front.len() as int) =~= front);
    true
}

/// Whether a component is a directory for split configuration.
fn is_config_dir(c: &PathComponent) -> (r: bool)
    ensures
        r == config_dir(c@),
{
    match c {
        PathComponent::Normal(Name::Text(s)) => same_text(s.as_str(), "config.d") || same_text(
            s.as_str(),
            "conf.d",
        ),
        _ => false,
    }
}

/// Whether `path` leads into a directory for split configuration.
fn is_in_config_dir(path: &[PathComponent], ssh_dir: &[PathComponent]) -> (r: bool)
    ensures
        r == in_config_dir(path_view(path@), path_view(ssh_dir@)),
{
    let ghost whole = path_view(path@);
    let n: usize = path.len();
    if n < 2 {
        return false;
    }
    assert(whole[n - 2] == path@[n - 2]@);
    if is_config_dir(&path[n - 2]) {
        return true;
    }
    let mut k: usize = ssh_dir.len();
    while k < n - 1
        invariant
            2 <= n == path@.len(),
            whole == path_view(path@),
            ssh_dir@.len() <= k,
            forall|j: int|
                ssh_dir@.len() <= j < k && j < n - 1 ==> !config_dir(#[trigger] whole[j]),
        decreases n - k,
    {
        assert(whole[k as int] == path@[k as int]@);
        if is_config_dir(&path[k]) {
            assert(config_dir(whole[k as int]));
            return true;
        }
        k += 1;
    }
    false
}

/// Whether a change of `path` may change the configuration.
pub fn is_ssh_config_path(path: &[PathComponent], ssh_dir: &[PathComponent]) -> (r: bool)
    ensures
        r == config_path(path_view(path@), path_view(ssh_dir@)),
{
    let ghost whole = path_view(path@);
    let n: usize = path.len();
    if n == 0 || !starts_with(path, ssh_dir) {
        return false;
    }
    assert(whole.last() == path@[n - 1]@);
    match &path[n - 1] {
        PathComponent::Normal(name) => {
            if let Name::Text(s) = name {
                let text = s.as_str();
                if same_text(text, "config") || ends_with(text, ".conf") || ends_with(
                    text,
                    ".config",
                ) {
                    return true;
                }
            }
            is_in_config_dir(path, ssh_dir)
        },
        _ => false,
    }
}

/// Copies a name.
fn copy_name(n: &Name) -> (r: Name)
    ensures
        r@ == n@,
{
    match n {
        Name::Text(s) => Name::Text(s.clone()),
        Name::Raw(b) => {
            let mut out: Vec<u8> = Vec::new();
            let mut i: usize = 0;
            while i < b.len()
                invariant
                    i <= b@.len(),
                    out@ == b@.take(i as int),
                decreases b.len() - i,
            {
                assert(b@.take(i + 1) =~= b@.take(i as int).push(b@[i as int]));
                out.push(b[i]);
                i += 1;
            }
            assert(b@.take(b@.len() as int) =~= b@);
            Name::Raw(out)
        },
    }
}

/// Copies a component.
fn copy_component(c: &PathComponent) -> (r: PathComponent)
    ensures
        r@ == c@,
{
    match c {
        PathComponent::Prefix(n) => PathComponent::Prefix(copy_name(n)),
        PathComponent::RootDir => PathComponent::RootDir,
        PathComponent::CurDir => PathComponent::CurDir,
        PathComponent::ParentDir => PathComponent::ParentDir,
        PathComponent::Normal(n) => PathComponent::Normal(copy_name(n)),
    }
}

/// The directory from which relative includes of the configuration file at `path`
/// are seen: the one it is in, or the present directory where the path has no
/// parent.
pub fn ssh_base_dir_from_config_path(path: &[PathComponent]) -> (r: Vec<PathComponent>)
    ensures
        path_view(r@) == match parent_of(path_view(path@)) {
            Some(parent) => parent,
            None => seq![Component::CurDir],
        },
{
    let ghost whole = path_view(path@);
    let mut out: Vec<PathComponent> = Vec::new();
    let n: usize = path.len();
    let has_parent: bool = if n == 0 {
        false
    } else {
        assert(whole.last() == path@[n - 1]@);
        match &path[n - 1] {
            PathComponent::Prefix(_) => false,
            PathComponent::RootDir => false,
            _ => true,
        }
    };
    if !has_parent {
        out.push(PathComponent::CurDir);
        assert(path_view(out@) =~= seq![Component::CurDir]);
        return out;
    }
    let mut i: usize = 0;
    while i < n - 1
        invariant
            n == path@.len(),
            0 < n,
            whole == path_view(path@),
            i <= n - 1,
            path_view(out@) == whole.take(i as int),
        decreases n - i,
    {
        let ghost before = path_view(out@);
        out.push(copy_component(&path[i]));
        assert(path_view(out@) =~= before.push(whole[i as int]));
        assert(whole.take(i + 1) =~= whole.take(i as int).push(whole[i as int]));
        i += 1;
    }
    assert(whole.take(n - 1) =~= whole.drop_last());
    out
}

/// Nothing outside the ssh directory is taken for configuration.
pub proof fn law_outside_is_never_config(path: Seq<Component>, ssh_dir: Seq<Component>)
    requires
        !ssh_dir.is_prefix_of(path),
    ensures
        !config_path(path, ssh_dir),
{
}

/// A file named `config` counts wherever it stands under the ssh directory.
pub proof fn law_config_files_count(ssh_dir: Seq<Component>, between: Seq<Component>)
    ensures
        config_path(
            (ssh_dir + between).push(Component::Normal(NameView::Text("config"@))),
            ssh_dir,
        ),
{
    let path = (ssh_dir + between).push(Component::Normal(NameView::Text("config"@)));
    assert(path.take(ssh_dir.len() as int) =~= ssh_dir);
}

/// Every file inside a `config.d` or `conf.d` directory counts, at any depth below it,
/// wherever that directory stands under the ssh directory, and whatever the file's name.
pub proof fn law_everything_in_config_dirs_counts(
    ssh_dir: Seq<Component>,
    between: Seq<Component>,
    dir: Component,
    inside: Seq<Component>,
    name: NameView,
)
    requires
        config_dir(dir),
    ensures
        config_path(
            ((ssh_dir + between).push(dir) + inside).push(Component::Normal(name)),
            ssh_dir,
        ),
{
    let path = ((ssh_dir + between).push(dir) + inside).push(Component::Normal(name));
    assert(path.take(ssh_dir.len() as int) =~= ssh_dir);
    let k = (ssh_dir.len() + between.len()) as int;
    assert(path[k] == dir);
    assert(config_dir(path[k]));
}

/// `path` as seen from the directory `base`, both written as on Unix: an absolute path,
/// which is one with a leading `/`, is itself.
pub open spec fn seen_from(base: Seq<char>, path: Seq<char>) -> Seq<char> {
    if path.len() > 0 && path[0] == '/' {
        path
    } else if base.len() == 0 || base.last() == '/' {
        base + path
    } else {
        base + seq!['/'] + path
    }
}

/// `path` as seen from the directory `base`, both written as on Unix.
pub fn join_path(base: &str, path: &str) -> (r: String)
    ensures
        r@ == seen_from(base@, path@),
{
    let chars = to_chars(path);
    if chars.len() > 0 && chars[0] == '/' {
        return path.to_owned();
    }
    let front = to_chars(base);
    let mut out = base.to_owned();
    if front.len() > 0 && front[front.len() - 1] != '/' {
        out.push('/');
    }
    push_text(&mut out, path);
    assert(out@ =~= seen_from(base@, path@));
    out
}

/// The text, unless there is none or it is empty.
pub open spec fn given(o: Option<Seq<char>>) -> Option<Seq<char>> {
    match o {
        Some(s) => if s.len() == 0 {
            None
        } else {
            Some(s)
        },
        None => None,
    }
}

/// The name of the user, from what the environment says: an empty name is none.
pub fn current_user(user: Option<String>) -> (r: Option<String>)
    ensures
        string_view(r) == given(string_view(user)),
{
    match user {
        Some(name) => if name.as_str().is_empty() {
            None
        } else {
            Some(name)
        },
        None => None,
    }
}

/// The user's configuration file, from the home directory that the environment
/// names: where it names none, there is none. It is put together with `/`, which every
/// system takes for a separator.
pub fn user_ssh_config_path(home: Option<String>) -> (r: Option<String>)
    ensures
        string_view(r) == match given(string_view(home)) {
            Some(h) => Some(seen_from(seen_from(h, ".ssh"@), "config"@)),
            None => None,
        },
{
    match home {
        Some(h) => if h.as_str().is_empty() {
            None
        } else {
            Some(join_path(join_path(h.as_str(), ".ssh").as_str(), "config"))
        },
        None => None,
    }
}

/// On Unix, an absolute path is the same from everywhere.
pub proof fn law_absolute_paths_stand(base: Seq<char>, path: Seq<char>)
    requires
        path.len() > 0,
        path[0] == '/',
    ensures
        seen_from(base, path) == path,
{
}

} // verus!
