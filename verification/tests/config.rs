use warp_ssh::aliases::{hosts_in_files, parse_hosts};
use warp_ssh::details::{host_details_in_files, parse_host_details, HostDetail};
use warp_ssh::directives::{evaluate_match, strip_keyword, MatchOutcome};
use warp_ssh::numbers::{difference, later, parse_port, push_decimal, push_signed};
use warp_ssh::order::{insert_ascending, precedes};
use warp_ssh::pattern::{glob_match, pattern_list_matches};
use warp_ssh::text::{is_whitespace, join, split_words, trimmed};

#[test]
fn parses_simple_host_directives() {
    let cfg = r#"
        Host alpha
            HostName 10.0.0.1
        Host beta gamma
            HostName 10.0.0.2
            User deploy
    "#;
    let hosts = parse_hosts(cfg);
    assert_eq!(hosts, vec!["alpha", "beta", "gamma"]);
}

#[test]
fn filters_wildcard_and_negation_aliases() {
    let cfg = r#"
        Host *
            User globaluser
        Host real
        Host !excluded
        Host pattern?
    "#;
    let hosts = parse_hosts(cfg);
    assert_eq!(hosts, vec!["real"]);
}

#[test]
fn ignores_blank_lines_and_comments() {
    let cfg = r#"
        # this is a comment
        Host alpha

        # another comment
            HostName 10.0.0.1
    "#;
    let hosts = parse_hosts(cfg);
    assert_eq!(hosts, vec!["alpha"]);
}

#[test]
fn keyword_match_is_case_insensitive() {
    let cfg = "host alpha\nHOST beta\nHoSt gamma\n";
    let hosts = parse_hosts(cfg);
    assert_eq!(hosts, vec!["alpha", "beta", "gamma"]);
}

#[test]
fn strip_keyword_requires_delimiter_so_hostname_does_not_match_host() {
    // `Hostname` is its own directive; the parser must not strip
    // `Host` from it and grab the value as an alias.
    let cfg = "Host alpha\nHostName 10.0.0.1\n";
    let hosts = parse_hosts(cfg);
    assert_eq!(hosts, vec!["alpha"]);
}

#[test]
fn strip_keyword_accepts_equals_delimiter() {
    let cfg = "Host=alpha\nHost=beta\n";
    let hosts = parse_hosts(cfg);
    assert_eq!(hosts, vec!["alpha", "beta"]);
}

#[test]
fn parse_host_details_captures_metadata() {
    let cfg = r#"
        Host alpha
            HostName 10.0.0.1
            User deploy
            Port 2222
            IdentityFile ~/.ssh/id_alpha
            IdentityFile ~/.ssh/id_alpha_backup
            ProxyJump bastion
    "#;
    let details = parse_host_details(cfg);
    assert_eq!(details.len(), 1);
    let d = &details[0];
    assert_eq!(d.alias, "alpha");
    assert_eq!(d.hostname.as_deref(), Some("10.0.0.1"));
    assert_eq!(d.user.as_deref(), Some("deploy"));
    assert_eq!(d.port, Some(2222));
    assert_eq!(
        d.identity_files,
        vec![
            "~/.ssh/id_alpha".to_string(),
            "~/.ssh/id_alpha_backup".to_string()
        ]
    );
    assert_eq!(d.proxy_jump.as_deref(), Some("bastion"));
}

#[test]
fn parse_host_details_emits_one_entry_per_alias_in_multi_alias_block() {
    let cfg = "Host alpha beta\n    HostName shared.example.com\n";
    let details = parse_host_details(cfg);
    assert_eq!(details.len(), 2);
    // First alias gets the metadata; trailing aliases are just
    // bare entries that point at the same alias name (the UI
    // should resolve them by re-reading ssh's actual rules at
    // connect time).
    let alpha = details.iter().find(|d| d.alias == "alpha").unwrap();
    assert_eq!(alpha.hostname.as_deref(), Some("shared.example.com"));
    let beta = details.iter().find(|d| d.alias == "beta").unwrap();
    // We don't replicate metadata onto the trailing aliases; ssh
    // would resolve them via its own block-application rules.
    assert!(beta.hostname.is_none());
}

#[test]
fn match_user_active_when_pattern_hits() {
    let cfg = r#"
        Match user deploy
            Host gated
        Host always
    "#;
    let hosts = parse_hosts(cfg);
    // `Host` inside the matched block contributes; `Host always`
    // outside the block also contributes.
    assert!(hosts.contains(&"gated".to_string()));
    assert!(hosts.contains(&"always".to_string()));
}

#[test]
fn glob_matcher_handles_star_and_question() {
    assert!(glob_match("*", "anything"));
    assert!(glob_match("foo*", "foobar"));
    assert!(glob_match("*bar", "foobar"));
    assert!(glob_match("f?o", "foo"));
    assert!(!glob_match("f?o", "fxxo"));
    assert!(glob_match("a*b*c", "axxbyyc"));
    assert!(!glob_match("a*b*c", "axxbyy"));
}

#[test]
fn pattern_list_negation_kills_match() {
    // `a,!a` — positive then negation. The negation matches, so
    // the whole list returns false.
    assert!(!pattern_list_matches("a,!a", "a"));
    // `a,b,!c` against `a` — positive `a` matches, `!c` doesn't
    // match → true.
    assert!(pattern_list_matches("a,b,!c", "a"));
    // `!a,b` against `a` — `!a` matches → false even though `b`
    // would (separately) miss.
    assert!(!pattern_list_matches("!a,b", "a"));
}

// ── further cases ──────────────────────────────────────────────────

fn chars(s: &str) -> Vec<char> {
    s.chars().collect()
}

fn files(bodies: &[&str]) -> Vec<String> {
    bodies.iter().map(|b| b.to_string()).collect()
}

#[test]
fn white_space_is_that_of_unicode() {
    for c in '\0'..=char::MAX {
        assert_eq!(is_whitespace(c), c.is_whitespace(), "{c:?}");
    }
}

#[test]
fn trimming_and_words_agree_with_the_standard_library() {
    for s in ["", " ", "a", " a b ", "\u{a0}x\u{2003}y\u{3000}", "\r\n", "a\tb\x0bc"] {
        let cs = chars(s);
        assert_eq!(trimmed(&cs).iter().collect::<String>(), s.trim());
        let words: Vec<String> = split_words(&cs).iter().map(|w| w.iter().collect()).collect();
        let expected: Vec<&str> = s.split_whitespace().collect();
        assert_eq!(words, expected);
    }
}

#[test]
fn order_is_that_of_strings() {
    let names = ["", "a", "ab", "b", "B", "é", "z\u{10ffff}", "z\u{e000}", "aa"];
    let mut list = Vec::new();
    for n in names {
        insert_ascending(&mut list, n.to_string());
        insert_ascending(&mut list, n.to_string());
        for m in names {
            assert_eq!(precedes(n, m), n < m);
        }
    }
    let mut expected: Vec<String> = names.iter().map(|n| n.to_string()).collect();
    expected.sort();
    assert_eq!(list, expected);
}

#[test]
fn ports_are_read_as_the_standard_library_does() {
    for s in [
        "0", "22", "+22", "65535", "65536", "99999999999999999999", "", "+", "-1", "-0", "2 2",
        "0022", "00000000000000000000000022", "22a", "\u{661}", "++1",
    ] {
        assert_eq!(parse_port(&chars(s)), s.parse::<u16>().ok(), "{s}");
    }
}

#[test]
fn numbers_are_written_in_decimal() {
    for n in [0u64, 9, 10, 1_000_000_007, u64::MAX] {
        let mut s = "n=".to_string();
        push_decimal(&mut s, n);
        assert_eq!(s, format!("n={n}"));
    }
    for n in [0i64, -1, -10, i64::MIN, i64::MAX] {
        let mut s = String::new();
        push_signed(&mut s, n);
        assert_eq!(s, n.to_string());
    }
}

#[test]
fn time_stamps_saturate() {
    assert_eq!(later(5, 7), 12);
    assert_eq!(later(-5, u64::MAX), i64::MAX);
    assert_eq!(later(i64::MAX, 1), i64::MAX);
    assert_eq!(later(i64::MIN, u64::MAX), i64::MAX);
    assert_eq!(difference(3, 10), -7);
    for (a, b) in [(i64::MIN, 1), (i64::MAX, -1), (0, i64::MIN), (-1, i64::MIN)] {
        assert_eq!(difference(a, b), a.saturating_sub(b));
    }
}

#[test]
fn parts_are_joined() {
    let parts = |p: &[&str]| -> Vec<String> { p.iter().map(|s| s.to_string()).collect() };
    assert_eq!(join(&parts(&[]), ", "), "");
    assert_eq!(join(&parts(&["", ""]), ", "), ", ");
    assert_eq!(join(&parts(&["a", "b", "c"]), ", "), "a, b, c");
}

#[test]
fn keywords_need_their_delimiter() {
    let arg = |line: &str, kw: &str| -> Option<String> {
        let cs = chars(line);
        strip_keyword(&cs, kw).map(|r| r.iter().collect())
    };
    assert_eq!(arg("Host a", "Host").as_deref(), Some("a"));
    assert_eq!(arg("hOST=  a b ", "Host").as_deref(), Some("a b"));
    assert_eq!(arg("Host = a", "Host").as_deref(), Some("= a"));
    assert_eq!(arg("Host\u{3000}a", "Host").as_deref(), Some("a"));
    assert_eq!(arg("HostName a", "Host"), None);
    assert_eq!(arg("Host", "Host"), None);
    assert_eq!(arg("Host ", "Host").as_deref(), Some(""));
    assert_eq!(arg("Ho", "Host"), None);
}

#[test]
fn guards_decide_a_match_block() {
    let active = |rest: &str, user: Option<&str>| {
        let u = user.map(chars);
        evaluate_match(&chars(rest), u.as_deref()) == MatchOutcome::Active
    };
    assert!(active("all", None));
    assert!(active("ALL exec x", None));
    assert!(active("host a.example", None));
    assert!(active("host", None));
    assert!(active("host h user dep*", Some("deploy")));
    assert!(!active("host h user dep*", Some("root")));
    assert!(active("user root,!deploy,d*", Some("dora")));
    assert!(!active("user root,!deploy,d*", Some("deploy")));
    assert!(!active("user", Some("deploy")));
    assert!(!active("user *", None));
    assert!(!active("exec true", Some("deploy")));
    assert!(!active("canonical all", Some("deploy")));
    assert!(!active("", Some("deploy")));
    assert!(active("host a all", None));
}

#[test]
fn patterns_backtrack() {
    assert!(glob_match("", ""));
    assert!(!glob_match("", "a"));
    assert!(!glob_match("?", ""));
    assert!(glob_match("**", ""));
    assert!(glob_match("*a*a*a", "bababa"));
    assert!(!glob_match("*a*a*a", "baab"));
    assert!(glob_match("a?c*", "abc"));
    assert!(glob_match("*.é?", "x.éy"));
    assert!(!glob_match("A", "a"));
}

#[test]
fn pattern_lists_skip_blank_entries() {
    assert!(pattern_list_matches(" , a ,", "a"));
    assert!(!pattern_list_matches("", "a"));
    assert!(!pattern_list_matches(",", ""));
    assert!(!pattern_list_matches("!b", "a"));
    assert!(!pattern_list_matches("*,!", ""));
}

#[test]
fn gate_closes_and_opens_within_a_file() {
    let cfg = "Match exec x\nHost a\nHost b\nMatch user u\nPort 1\nHost c\nHost d\n";
    assert_eq!(hosts_in_files(&files(&[cfg]), Some("v")), vec!["b", "d"]);
    assert_eq!(hosts_in_files(&files(&[cfg]), Some("u")), vec!["b", "c", "d"]);
    assert_eq!(parse_hosts(cfg), vec!["a", "b", "c", "d"]);
}

#[test]
fn records_follow_the_gate_like_aliases() {
    let cfg = "Match exec x\nHost a\nHostName one\nHost b\nHostName two\n";
    let details = host_details_in_files(&files(&[cfg]), None);
    let aliases: Vec<&str> = details.iter().map(|d| d.alias.as_str()).collect();
    assert_eq!(aliases, hosts_in_files(&files(&[cfg]), None));
    assert_eq!(aliases, vec!["b"]);
    assert_eq!(details[0].hostname.as_deref(), Some("two"));
}

#[test]
fn first_file_wins_and_order_is_by_alias() {
    let bodies = files(&[
        "Host b\nUser first\nHost a x\nUser one\n",
        "Host a\nUser two\nHost b\nUser second\nHost c\n",
    ]);
    let details = host_details_in_files(&bodies, None);
    let shown: Vec<(&str, Option<&str>)> = details
        .iter()
        .map(|d| (d.alias.as_str(), d.user.as_deref()))
        .collect();
    assert_eq!(
        shown,
        vec![
            ("a", Some("one")),
            ("b", Some("first")),
            ("c", None),
            ("x", None)
        ]
    );
}

#[test]
fn lines_of_a_block_are_read_one_by_one() {
    let cfg = "Port 1\nHost a\nHostName\t one two\nHostName =\nUser=me\nPort 22\nPort x\n\
               IdentityFile =\nIdentityFile  ~/k extra\nIdentityFile = \nProxyJump  j1,j2 , j3 \n";
    let d = &parse_host_details(cfg)[0];
    let mut expected = HostDetail::new("a".to_string());
    expected.hostname = Some("=".to_string());
    expected.user = Some("me".to_string());
    expected.port = Some(22);
    expected.identity_files = vec!["=".to_string(), "~/k".to_string(), "=".to_string()];
    expected.proxy_jump = Some("j1,j2 , j3".to_string());
    assert_eq!(d, &expected);
    assert_eq!(d.clone(), expected);
}

#[test]
fn match_line_closes_a_host_block() {
    let cfg = "Host a\nPort 1\nMatch all\nPort 2\nHost b c\nPort 3\nHost *\nPort 4\n";
    let shown: Vec<(String, Option<u16>)> = parse_host_details(cfg)
        .into_iter()
        .map(|d| (d.alias, d.port))
        .collect();
    assert_eq!(
        shown,
        vec![
            ("a".to_string(), Some(1)),
            ("b".to_string(), Some(3)),
            ("c".to_string(), None)
        ]
    );
}

#[test]
fn carriage_returns_are_white_space() {
    assert_eq!(parse_hosts("Host a\r\n# Host b\r\nHost c"), vec!["a", "c"]);
}
