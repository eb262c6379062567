use std::collections::{BTreeMap, BTreeSet};

use warp_ssh::aliases::hosts_in_files;
use warp_ssh::details::host_details_in_files;
use warp_ssh::include_walk::{
    expand_tilde, includes_of, resolve_include, ConfigWalk, WalkAnswer, WalkRequest,
};

/// Files in memory.
#[derive(Default)]
struct Files {
    bodies: BTreeMap<String, String>,
    dirs: BTreeSet<String>,
    /// Paths that lead to the file at another path.
    links: BTreeMap<String, String>,
}

impl Files {
    fn write(&mut self, path: &str, body: &str) {
        self.bodies.insert(path.to_string(), body.to_string());
    }

    fn resolve(&self, path: &str) -> String {
        match self.links.get(path) {
            Some(target) => target.clone(),
            None => path.to_string(),
        }
    }

    fn expand(&self, pattern: &str) -> Vec<(String, bool)> {
        let Ok(p) = glob::Pattern::new(pattern) else {
            return Vec::new();
        };
        let mut all: BTreeSet<String> = self.bodies.keys().cloned().collect();
        all.extend(self.links.keys().cloned());
        all.extend(self.dirs.iter().cloned());
        all.into_iter()
            .filter(|path| p.matches(path))
            .map(|path| {
                let is_dir = self.dirs.contains(&path);
                (path, is_dir)
            })
            .collect()
    }

    /// The texts that a walk from `path` goes through, and the patterns it asks for.
    fn walk(&self, path: &str, base: &str, home: Option<&str>) -> (Vec<String>, Vec<String>) {
        let mut walk = ConfigWalk::new(
            path.to_string(),
            base.to_string(),
            home.map(str::to_string),
            true,
        );
        let mut patterns = Vec::new();
        loop {
            let answer = match walk.request() {
                WalkRequest::Done => break,
                WalkRequest::Identify(p) => WalkAnswer::Identity(self.resolve(p).into_bytes()),
                WalkRequest::Read(p) => {
                    WalkAnswer::Body(self.bodies.get(&self.resolve(p)).cloned())
                }
                WalkRequest::Expand(pattern) => {
                    let entries = self.expand(&pattern);
                    patterns.push(pattern);
                    WalkAnswer::Entries(entries)
                }
                WalkRequest::ExpandFrom { .. } => unreachable!(),
            };
            assert!(walk.respond(answer));
        }
        (walk.into_bodies(), patterns)
    }
}

fn parse_hosts_from_path_with_user(files: &Files, path: &str, user: Option<&str>) -> Vec<String> {
    hosts_in_files(&files.walk(path, "/tmp/dir", None).0, user)
}

#[test]
fn match_user_with_explicit_user_via_path() {
    let mut dir = Files::default();
    dir.write(
        "/tmp/dir/config",
        "Match user deploy\n    Host gated\nHost always\n\n",
    );
    let hosts = parse_hosts_from_path_with_user(&dir, "/tmp/dir/config", Some("deploy"));
    assert!(hosts.contains(&"gated".to_string()));
    assert!(hosts.contains(&"always".to_string()));
}

#[test]
fn match_user_inactive_drops_block() {
    let mut dir = Files::default();
    dir.write(
        "/tmp/dir/config",
        "Match user deploy\n    Host gated\nHost always\n\n",
    );
    let hosts = parse_hosts_from_path_with_user(&dir, "/tmp/dir/config", Some("someoneelse"));
    assert!(!hosts.contains(&"gated".to_string()));
    assert!(hosts.contains(&"always".to_string()));
}

#[test]
fn match_all_is_always_active() {
    let mut dir = Files::default();
    dir.write("/tmp/dir/config", "Match all\n    Host gated\n\n");
    let hosts = parse_hosts_from_path_with_user(&dir, "/tmp/dir/config", None);
    assert!(hosts.contains(&"gated".to_string()));
}

#[test]
fn match_exec_is_treated_as_inactive() {
    let mut dir = Files::default();
    dir.write("/tmp/dir/config", "Match exec true\n    Host gated\n\n");
    let hosts = parse_hosts_from_path_with_user(&dir, "/tmp/dir/config", None);
    // We don't shell out for `Match exec`; the block is dropped.
    assert!(!hosts.contains(&"gated".to_string()));
}

#[test]
fn include_directive_follows_files() {
    let mut dir = Files::default();
    let inc = "/tmp/dir/included";
    dir.write("/tmp/dir/config", &format!("Include {}\nHost main\n", inc));
    dir.write(inc, "Host from_include\n");
    let hosts = parse_hosts_from_path_with_user(&dir, "/tmp/dir/config", None);
    assert!(hosts.contains(&"main".to_string()));
    assert!(hosts.contains(&"from_include".to_string()));
}

#[test]
fn include_cycle_terminates() {
    let mut dir = Files::default();
    let a = "/tmp/dir/a";
    let b = "/tmp/dir/b";
    dir.write(a, &format!("Host from_a\nInclude {}\n", b));
    dir.write(b, &format!("Host from_b\nInclude {}\n", a));
    // Should not recurse infinitely.
    let hosts = parse_hosts_from_path_with_user(&dir, a, None);
    assert!(hosts.contains(&"from_a".to_string()));
    assert!(hosts.contains(&"from_b".to_string()));
}

#[test]
fn include_glob_expands_lexically() {
    let mut dir = Files::default();
    dir.write(
        "/tmp/dir/config",
        &format!("Include {}/inc_*\n", "/tmp/dir"),
    );
    dir.write("/tmp/dir/inc_b", "Host beta\n");
    dir.write("/tmp/dir/inc_a", "Host alpha\n");
    let hosts = parse_hosts_from_path_with_user(&dir, "/tmp/dir/config", None);
    assert!(hosts.contains(&"alpha".to_string()));
    assert!(hosts.contains(&"beta".to_string()));
    let (bodies, _) = dir.walk("/tmp/dir/config", "/tmp/dir", None);
    assert_eq!(bodies[1..], ["Host alpha\n", "Host beta\n"]);
}

#[test]
fn missing_include_silently_skipped() {
    let mut dir = Files::default();
    dir.write(
        "/tmp/dir/config",
        "Include /does/not/exist\nHost survivor\n",
    );
    let hosts = parse_hosts_from_path_with_user(&dir, "/tmp/dir/config", None);
    // The missing include doesn't contribute, but the rest of the
    // file is parsed normally.
    assert_eq!(hosts, vec!["survivor"]);
}

// ── further cases ──────────────────────────────────────────────────

#[test]
fn missing_top_file_gives_nothing() {
    let dir = Files::default();
    let (bodies, patterns) = dir.walk("/tmp/dir/config", "/tmp/dir", None);
    assert!(bodies.is_empty());
    assert!(patterns.is_empty());
}

#[test]
fn paths_are_resolved_against_base_and_home() {
    let mut dir = Files::default();
    dir.write(
        "/h/.ssh/config",
        "Include a ~/b\nInclude=/c\nHost x\nInclude ~user/d ./e\n",
    );
    let (_, patterns) = dir.walk("/h/.ssh/config", "/h/.ssh", Some("/h"));
    assert_eq!(
        patterns,
        vec![
            "/h/.ssh/a",
            "/h/b",
            "/c",
            "/h/.ssh/~user/d",
            "/h/.ssh/./e"
        ]
    );
    let (_, patterns) = dir.walk("/h/.ssh/config", "", None);
    assert_eq!(patterns, vec!["a", "~/b", "/c", "~user/d", "./e"]);
}

#[test]
fn included_files_come_after_their_includer_depth_first() {
    let mut dir = Files::default();
    dir.write("/top", "Include /a /b\nHost top\n");
    dir.write("/a", "Include /a1\nHost a\n");
    dir.write("/a1", "Host a1\n");
    dir.write("/b", "Host b\n");
    let (bodies, _) = dir.walk("/top", "/", None);
    assert_eq!(
        bodies,
        vec![
            "Include /a /b\nHost top\n",
            "Include /a1\nHost a\n",
            "Host a1\n",
            "Host b\n"
        ]
    );
}

#[test]
fn outer_records_win_over_included_ones() {
    let mut dir = Files::default();
    dir.write("/top", "Include /inc\nHost web\nPort 1\n");
    dir.write("/inc", "Host web\nPort 2\nHost db\nPort 3\n");
    let (bodies, _) = dir.walk("/top", "/", None);
    let shown: Vec<(String, Option<u16>)> = host_details_in_files(&bodies, None)
        .into_iter()
        .map(|d| (d.alias, d.port))
        .collect();
    assert_eq!(
        shown,
        vec![("db".to_string(), Some(3)), ("web".to_string(), Some(1))]
    );
}

#[test]
fn a_file_is_read_once_under_all_its_names() {
    let mut dir = Files::default();
    dir.write("/top", "Include /inc /link /inc\n");
    dir.write("/inc", "Host a\n");
    dir.links.insert("/link".to_string(), "/inc".to_string());
    let (bodies, _) = dir.walk("/top", "/", None);
    assert_eq!(bodies.len(), 2);
}

#[test]
fn directories_are_passed_over() {
    let mut dir = Files::default();
    dir.write("/top", "Include /conf*\n");
    dir.write("/conf2", "Host a\n");
    dir.dirs.insert("/conf1".to_string());
    let (bodies, _) = dir.walk("/top", "/", None);
    assert_eq!(bodies.len(), 2);
}

#[test]
fn malformed_patterns_fit_nothing() {
    let mut dir = Files::default();
    dir.write("/top", "Include /[ /b\nHost top\n");
    dir.write("/b", "Host b\n");
    let (bodies, _) = dir.walk("/top", "/", None);
    assert_eq!(bodies.len(), 2);
}

#[test]
fn includes_in_an_inactive_block_are_followed() {
    let mut dir = Files::default();
    dir.write("/top", "Match exec x\nInclude /inc\nHost gated\n");
    dir.write("/inc", "Host a\n");
    let hosts = hosts_in_files(&dir.walk("/top", "/", None).0, None);
    assert_eq!(hosts, vec!["a"]);
}

#[test]
fn chain_is_cut_at_sixteen_files() {
    let mut dir = Files::default();
    for n in 0..20 {
        dir.write(&format!("/f{n}"), &format!("Include /f{}\nHost h{n}\n", n + 1));
    }
    let (bodies, _) = dir.walk("/f0", "/", None);
    assert_eq!(bodies.len(), 16);
    assert!(bodies[15].contains("Host h15"));
}

#[test]
fn answers_of_the_wrong_kind_change_nothing() {
    let mut walk: ConfigWalk<u32> = ConfigWalk::new(7, String::new(), None, true);
    assert!(!walk.respond(WalkAnswer::Body(None)));
    assert!(!walk.respond(WalkAnswer::Entries(Vec::new())));
    assert!(matches!(walk.request(), WalkRequest::Identify(7)));
    assert!(walk.respond(WalkAnswer::Identity(vec![1])));
    assert!(!walk.respond(WalkAnswer::Identity(vec![1])));
    assert!(matches!(walk.request(), WalkRequest::Read(7)));
    assert!(walk.respond(WalkAnswer::Body(Some("Include a\n".to_string()))));
    assert!(!walk.respond(WalkAnswer::Body(None)));
    assert!(walk.respond(WalkAnswer::Entries(vec![(8, false)])));
    assert!(walk.respond(WalkAnswer::Identity(vec![1])));
    assert!(matches!(walk.request(), WalkRequest::Done));
    assert!(!walk.respond(WalkAnswer::Body(None)));
    assert_eq!(walk.into_bodies(), vec!["Include a\n"]);
}

#[test]
fn tilde_stands_for_a_known_home() {
    assert_eq!(expand_tilde("~/x", Some("/h")), "/h/x");
    assert_eq!(expand_tilde("~/", Some("/h")), "/h/");
    assert_eq!(expand_tilde("~/x", Some("")), "~/x");
    assert_eq!(expand_tilde("~/x", None), "~/x");
    assert_eq!(expand_tilde("~", Some("/h")), "~");
    assert_eq!(expand_tilde("a~/x", Some("/h")), "a~/x");
    assert_eq!(resolve_include("~/x", Some("rel"), "/b"), "/b/rel/x");
    assert_eq!(resolve_include("x", None, "/"), "/x");
}

#[test]
fn include_lines_are_read_in_order() {
    assert_eq!(
        includes_of("include a  b\n#Include c\nIncluded d\nHost x\n INCLUDE=e\n"),
        vec!["a", "b", "e"]
    );
}

#[test]
fn other_systems_put_paths_together_themselves() {
    let mut walk: ConfigWalk<u32> = ConfigWalk::new(
        1,
        "C:\\Users\\me\\.ssh".to_string(),
        Some("C:\\Users\\me".to_string()),
        false,
    );
    assert!(walk.respond(WalkAnswer::Identity(vec![1])));
    let body = "Include C:/work/conf ~/b\n".to_string();
    assert!(walk.respond(WalkAnswer::Body(Some(body))));
    let mut asked = Vec::new();
    while let WalkRequest::ExpandFrom { base, path } = walk.request() {
        asked.push((base, path));
        assert!(walk.respond(WalkAnswer::Entries(Vec::new())));
    }
    let base = "C:\\Users\\me\\.ssh".to_string();
    assert_eq!(
        asked,
        vec![
            (base.clone(), "C:/work/conf".to_string()),
            (base, "C:\\Users\\me/b".to_string()),
        ]
    );
    assert!(matches!(walk.request(), WalkRequest::Done));
}
