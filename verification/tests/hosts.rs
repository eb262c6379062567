use warp_ssh::details::{host_details_in_files, HostDetail};
use warp_ssh::host_list::{SshHostsEvent, SshHostsModel};

fn detail(alias: &str, port: Option<u16>) -> HostDetail {
    let mut d = HostDetail::new(alias.to_string());
    d.port = port;
    d
}

#[test]
fn refresh_tells_of_changes_only() {
    let mut model = SshHostsModel::new_for_testing();
    assert!(model.hosts().is_empty());
    assert_eq!(model.apply_refresh(Vec::new()), None);
    let first = vec![detail("a", None), detail("b", Some(22))];
    assert_eq!(
        model.apply_refresh(first.clone()),
        Some(SshHostsEvent::HostsUpdated(first.clone()))
    );
    assert_eq!(model.hosts(), first.as_slice());
    assert_eq!(model.apply_refresh(first.clone()), None);
    let second = vec![detail("a", None), detail("b", Some(23))];
    assert_eq!(
        model.apply_refresh(second.clone()),
        Some(SshHostsEvent::HostsUpdated(second.clone()))
    );
    assert_eq!(model.hosts(), second.as_slice());
    let mut restarted = SshHostsModel::new(second.clone());
    assert_eq!(restarted.apply_refresh(second), None);
}

#[test]
fn every_field_counts_as_a_change() {
    let base = detail("a", Some(1));
    let changes: Vec<HostDetail> = vec![
        HostDetail { hostname: Some("h".to_string()), ..base.clone() },
        HostDetail { user: Some("u".to_string()), ..base.clone() },
        HostDetail { port: None, ..base.clone() },
        HostDetail { identity_files: vec!["k".to_string()], ..base.clone() },
        HostDetail { proxy_jump: Some("j".to_string()), ..base.clone() },
        HostDetail { alias: "b".to_string(), ..base.clone() },
    ];
    for changed in changes {
        let mut model = SshHostsModel::new(vec![base.clone()]);
        assert!(model.apply_refresh(vec![changed]).is_some());
    }
}

#[test]
fn hosts_from_files_are_in_order() {
    let files = vec!["Host b\nHost a c\n".to_string(), "Host a\nHost 0\n".to_string()];
    let mut model = SshHostsModel::new_for_testing();
    model.apply_refresh(host_details_in_files(&files, None));
    let aliases: Vec<&str> = model.hosts().iter().map(|h| h.alias.as_str()).collect();
    assert_eq!(aliases, vec!["0", "a", "b", "c"]);
}
