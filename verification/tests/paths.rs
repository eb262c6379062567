use std::path::{Component, Path};

use warp_ssh::paths::{
    current_user, join_path, ssh_base_dir_from_config_path, user_ssh_config_path, Name,
    PathComponent,
};

fn name(text: Option<&str>) -> Name {
    match text {
        Some(s) => Name::Text(s.to_string()),
        None => Name::Raw(Vec::new()),
    }
}

fn components(path: &Path) -> Vec<PathComponent> {
    path.components()
        .map(|c| match c {
            Component::Prefix(p) => PathComponent::Prefix(name(p.as_os_str().to_str())),
            Component::RootDir => PathComponent::RootDir,
            Component::CurDir => PathComponent::CurDir,
            Component::ParentDir => PathComponent::ParentDir,
            Component::Normal(n) => PathComponent::Normal(name(n.to_str())),
        })
        .collect()
}

fn is_ssh_config_path(path: &Path, ssh_dir: &Path) -> bool {
    warp_ssh::paths::is_ssh_config_path(&components(path), &components(ssh_dir))
}

#[test]
fn matches_canonical_config_file() {
    let ssh = Path::new("/home/user/.ssh");
    assert!(is_ssh_config_path(&ssh.join("config"), ssh,));
}

#[test]
fn matches_conf_suffix() {
    let ssh = Path::new("/home/user/.ssh");
    assert!(is_ssh_config_path(&ssh.join("work.conf"), ssh,));
}

#[test]
fn matches_dot_config_suffix() {
    let ssh = Path::new("/home/user/.ssh");
    assert!(is_ssh_config_path(&ssh.join("aws.config"), ssh,));
}

#[test]
fn matches_any_file_in_config_d_subdir() {
    let ssh = Path::new("/home/user/.ssh");
    assert!(is_ssh_config_path(&ssh.join("config.d").join("work"), ssh,));
}

#[test]
fn matches_any_file_in_conf_d_subdir() {
    let ssh = Path::new("/home/user/.ssh");
    assert!(is_ssh_config_path(&ssh.join("conf.d").join("staging"), ssh,));
}

#[test]
fn rejects_path_outside_ssh_dir() {
    let ssh = Path::new("/home/user/.ssh");
    assert!(!is_ssh_config_path(
        Path::new("/home/user/other/config"),
        ssh,
    ));
}

#[test]
fn rejects_unrelated_file_in_ssh_dir() {
    let ssh = Path::new("/home/user/.ssh");
    // id_rsa, known_hosts, etc. are not config files even though they
    // live in `~/.ssh/`.
    assert!(!is_ssh_config_path(&ssh.join("id_rsa"), ssh,));
    assert!(!is_ssh_config_path(&ssh.join("known_hosts"), ssh,));
    assert!(!is_ssh_config_path(&ssh.join("authorized_keys"), ssh,));
}

#[test]
fn rejects_directory_without_filename() {
    let ssh = Path::new("/home/user/.ssh");
    // A path with no `file_name` (e.g. `/`) should be rejected
    // rather than panicking.
    assert!(!is_ssh_config_path(Path::new("/"), ssh));
}

#[test]
fn matches_below_the_directory_at_any_depth() {
    let ssh = Path::new("/home/user/.ssh");
    assert!(is_ssh_config_path(Path::new("/home/user/.ssh/a/b/config"), ssh));
    assert!(is_ssh_config_path(Path::new("/home/user/.ssh/a/conf.d/x"), ssh));
    assert!(is_ssh_config_path(Path::new("/home/user/.ssh/conf.d/a/x"), ssh));
    assert!(is_ssh_config_path(Path::new("/home/user/.ssh/config.d/team/work"), ssh));
    assert!(is_ssh_config_path(Path::new("/home/user/.ssh/a/config.d/b/c/x"), ssh));
}

#[test]
fn split_directories_count_below_the_ssh_directory_only() {
    let ssh = Path::new("/home/config.d/.ssh");
    assert!(!is_ssh_config_path(Path::new("/home/config.d/.ssh/id_rsa"), ssh));
    assert!(!is_ssh_config_path(Path::new("/home/config.d/.ssh/a/id_rsa"), ssh));
    assert!(!is_ssh_config_path(Path::new("/home/config.d/.ssh/config.d"), ssh));
    assert!(!is_ssh_config_path(Path::new("/home/config.d/.ssh/config.d/.."), ssh));
}

#[test]
fn prefix_goes_by_whole_components() {
    let ssh = Path::new("/home/user/.ssh");
    assert!(!is_ssh_config_path(Path::new("/home/user/.ssh2/config"), ssh));
    assert!(!is_ssh_config_path(Path::new("/home/user/.ss"), ssh));
}

#[test]
fn suffixes_are_exact() {
    let ssh = Path::new("/s");
    assert!(is_ssh_config_path(Path::new("/s/.conf"), ssh));
    assert!(!is_ssh_config_path(Path::new("/s/conf"), ssh));
    assert!(!is_ssh_config_path(Path::new("/s/work.conf.bak"), ssh));
    assert!(!is_ssh_config_path(Path::new("/s/Config"), ssh));
}

#[test]
fn directory_named_like_the_config_counts_by_its_parent() {
    let ssh = Path::new("/home/config.d");
    assert!(is_ssh_config_path(Path::new("/home/config.d/x"), ssh));
}

#[test]
fn names_that_are_not_text_count_inside_split_directories_only() {
    let text = |s: &str| PathComponent::Normal(Name::Text(s.to_string()));
    let raw = |b: u8| PathComponent::Normal(Name::Raw(vec![b]));
    let check = warp_ssh::paths::is_ssh_config_path;
    let ssh = vec![PathComponent::RootDir, text(".ssh")];
    let inside = vec![PathComponent::RootDir, text(".ssh"), text("config.d"), raw(0xff)];
    assert!(check(&inside, &ssh));
    let deeper = vec![PathComponent::RootDir, text(".ssh"), text("conf.d"), raw(1), raw(0xff)];
    assert!(check(&deeper, &ssh));
    let beside = vec![PathComponent::RootDir, text(".ssh"), raw(0xff)];
    assert!(!check(&beside, &ssh));
    let split = vec![PathComponent::RootDir, text("config.d")];
    let right_inside = vec![PathComponent::RootDir, text("config.d"), raw(0xff)];
    assert!(check(&right_inside, &split));
}

#[test]
fn prefixes_that_are_not_text_go_by_their_bytes() {
    let under = vec![
        PathComponent::Normal(Name::Raw(vec![0xff])),
        PathComponent::Normal(Name::Text("config".to_string())),
    ];
    let other = vec![PathComponent::Normal(Name::Raw(vec![0xfe]))];
    assert!(!warp_ssh::paths::is_ssh_config_path(&under, &other));
    let same = vec![PathComponent::Normal(Name::Raw(vec![0xff]))];
    assert!(warp_ssh::paths::is_ssh_config_path(&under, &same));
}

#[test]
fn base_directory_is_the_parent() {
    let base = |p: &str| ssh_base_dir_from_config_path(&components(Path::new(p)));
    assert_eq!(base("/home/u/.ssh/config"), components(Path::new("/home/u/.ssh")));
    assert_eq!(base("config"), Vec::new());
    assert_eq!(base("/"), vec![PathComponent::CurDir]);
    assert_eq!(base(""), vec![PathComponent::CurDir]);
    assert_eq!(base("/a/.."), components(Path::new("/a")));
}

#[test]
fn joining_agrees_with_the_standard_library() {
    for base in ["", "/", "/home/u", "/home/u/", "rel", "rel/"] {
        for path in ["", "config", "a/b", "/abs", "./x", "../y"] {
            let expected = Path::new(base).join(path);
            assert_eq!(join_path(base, path), expected.to_str().unwrap());
        }
    }
}

#[test]
fn environment_values_that_are_empty_are_none() {
    assert_eq!(current_user(None), None);
    assert_eq!(current_user(Some(String::new())), None);
    assert_eq!(current_user(Some("me".to_string())).as_deref(), Some("me"));
    assert_eq!(user_ssh_config_path(None), None);
    assert_eq!(user_ssh_config_path(Some(String::new())), None);
    assert_eq!(
        user_ssh_config_path(Some("/home/me".to_string())).as_deref(),
        Some("/home/me/.ssh/config")
    );
}
