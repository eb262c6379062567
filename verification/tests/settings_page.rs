use warp_ssh::details::HostDetail;
use warp_ssh::edit_dialog::{
    MetadataForm, SshHostsMetadataEditDialogAction, SshHostsMetadataEditDialogEvent,
};
use warp_ssh::metadata::{
    HostMetadata, ImportResult, SshHostsMetadataEvent, SshHostsMetadataModel,
};
use warp_ssh::settings_page::{
    agent_label, edit_button, export_toast, format_target, host_row, identities_label,
    import_choice, import_toast, page_buttons, row_click, search_terms, PageEffect, RowAction, SshAgentStatus, SshHostsSettingsPageAction,
    SshHostsSettingsPageView, SshIdentity,
};

fn host(alias: &str, hostname: Option<&str>, user: Option<&str>, port: Option<u16>) -> HostDetail {
    HostDetail {
        alias: alias.to_string(),
        hostname: hostname.map(str::to_string),
        user: user.map(str::to_string),
        port,
        identity_files: Vec::new(),
        proxy_jump: None,
    }
}

#[test]
fn full_target_renders_user_at_host_colon_port() {
    let h = host(
        "prod-web",
        Some("web.example.com"),
        Some("deploy"),
        Some(2222),
    );
    assert_eq!(
        format_target(&h).as_deref(),
        Some("deploy@web.example.com:2222")
    );
}

#[test]
fn hostname_omitted_falls_back_to_alias() {
    // `HostName` not set in config → ssh would dial the literal alias.
    let h = host("staging", None, Some("root"), None);
    assert_eq!(format_target(&h).as_deref(), Some("root@staging"));
}

#[test]
fn user_omitted_skips_at_sign() {
    let h = host("bastion", Some("10.0.0.1"), None, None);
    assert_eq!(format_target(&h).as_deref(), Some("10.0.0.1"));
}

#[test]
fn port_omitted_skips_colon_port() {
    let h = host("prod-web", Some("web.example.com"), Some("deploy"), None);
    assert_eq!(format_target(&h).as_deref(), Some("deploy@web.example.com"));
}

#[test]
fn minimal_host_with_nothing_specified_still_returns_alias() {
    // Only the alias is present; we still produce a usable target so the
    // subtitle line isn't empty.
    let h = host("just-alias", None, None, None);
    assert_eq!(format_target(&h).as_deref(), Some("just-alias"));
}

#[test]
fn port_is_appended_when_user_is_absent() {
    let h = host("prod-web", Some("web.example.com"), None, Some(2222));
    assert_eq!(format_target(&h).as_deref(), Some("web.example.com:2222"));
}

#[test]
fn nothing_to_show_gives_no_target() {
    let h = host("", Some(""), None, None);
    assert_eq!(format_target(&h), None);
    let h = host("", Some(""), None, Some(0));
    assert_eq!(format_target(&h).as_deref(), Some(":0"));
}

fn metadata(name: Option<&str>) -> HostMetadata {
    HostMetadata {
        display_name: name.map(str::to_string),
        notes: Some("note".to_string()),
        tags: vec!["prod".to_string()],
        color: Some("#ff5733".to_string()),
    }
}

#[test]
fn row_shows_the_alias_unless_a_name_is_given() {
    let mut h = host("web", Some("10.0.0.1"), None, Some(65_535));
    h.identity_files = vec!["~/.ssh/a".to_string(), "~/.ssh/b".to_string()];
    h.proxy_jump = Some("bastion".to_string());
    let plain = host_row(&h, None);
    assert_eq!(plain.label, "web");
    assert_eq!(plain.alias_line, None);
    assert_eq!(plain.target.as_deref(), Some("10.0.0.1:65535"));
    assert_eq!(
        plain.identity_line.as_deref(),
        Some("Identity: ~/.ssh/a, ~/.ssh/b")
    );
    assert_eq!(plain.proxy_line.as_deref(), Some("ProxyJump: bastion"));
    assert_eq!(plain.notes, None);
    assert_eq!(plain.command, "ssh web");

    let named = host_row(&h, Some(&metadata(Some("Web"))));
    assert_eq!(named.label, "Web");
    assert_eq!(named.alias_line.as_deref(), Some("alias: web"));
    assert_eq!(named.notes.as_deref(), Some("note"));
    assert_eq!(named.tags, vec!["prod"]);
    assert_eq!(named.color.as_deref(), Some("#ff5733"));
    assert_eq!(named.command, "ssh web");

    let unnamed = host_row(&host("db", None, None, None), Some(&metadata(None)));
    assert_eq!(unnamed.label, "db");
    assert_eq!(unnamed.alias_line, None);
    assert_eq!(unnamed.identity_line, None);
    assert_eq!(unnamed.proxy_line, None);
}

#[test]
fn click_opens_a_terminal_and_then_connects() {
    let h = host("web", Some("10.0.0.1"), Some("me"), None);
    assert_eq!(
        row_click(&h),
        vec![
            RowAction::AddTerminalTab { hide_homepage: true },
            RowAction::RunCommand("ssh web".to_string()),
        ]
    );
    assert_eq!(
        host_row(&h, Some(&metadata(Some("Web")))).command,
        "ssh web"
    );
}

#[test]
fn buttons_have_their_actions() {
    let edit = edit_button(&host("web", None, None, None));
    assert_eq!(edit.label, "Edit");
    assert_eq!(
        edit.action,
        SshHostsSettingsPageAction::OpenMetadataEditor("web".to_string())
    );
    let shown: Vec<(String, SshHostsSettingsPageAction)> = page_buttons()
        .into_iter()
        .map(|b| (b.label, b.action))
        .collect();
    assert_eq!(
        shown,
        vec![
            (
                "Refresh".to_string(),
                SshHostsSettingsPageAction::RefreshDiagnostics
            ),
            (
                "Export…".to_string(),
                SshHostsSettingsPageAction::ExportMetadata
            ),
            (
                "Import…".to_string(),
                SshHostsSettingsPageAction::ImportMetadata
            ),
        ]
    );
}

#[test]
fn agent_and_keys_are_described() {
    let loaded = |n: usize| agent_label(&SshAgentStatus::Available { keys_loaded: n });
    assert_eq!(loaded(0), "Agent: 0 keys loaded");
    assert_eq!(loaded(1), "Agent: 1 key loaded");
    assert_eq!(loaded(12), "Agent: 12 keys loaded");
    assert_eq!(
        agent_label(&SshAgentStatus::NotConfigured),
        "Agent: not configured"
    );
    assert_eq!(agent_label(&SshAgentStatus::Stale), "Agent: stale socket");

    let with = SshIdentity { has_private_key: true };
    let without = SshIdentity { has_private_key: false };
    assert_eq!(identities_label(&[]), "Keys in ~/.ssh: none visible");
    assert_eq!(identities_label(&[with, with]), "Keys in ~/.ssh: 2");
    assert_eq!(
        identities_label(&[with, without, without]),
        "Keys in ~/.ssh: 3 (2 private-key-only)"
    );
}

#[test]
fn page_shows_rows_or_what_to_do() {
    let mut records = SshHostsMetadataModel::new_for_testing();
    records.set("web".to_string(), metadata(Some("Web")));
    let hosts = vec![host("db", None, None, None), host("web", None, None, None)];
    let mut page = SshHostsSettingsPageView::new(&[], SshAgentStatus::NotConfigured, vec![]);
    assert_eq!(page.row_count(), 0);
    let empty = page.content(&[], &records);
    assert_eq!(empty.title, "SSH hosts");
    assert!(empty.rows.is_empty());
    assert_eq!(
        empty.empty_state.as_deref(),
        Some("No SSH hosts found. Add a `Host` block to ~/.ssh/config to populate this list.")
    );
    assert!(empty.description.starts_with("Hosts found in your ~/.ssh/config. Edit the file"));
    page.hosts_updated(&hosts);
    assert_eq!(page.row_count(), 2);
    let full = page.content(&hosts, &records);
    assert_eq!(full.empty_state, None);
    assert_eq!(full.rows.len(), 2);
    assert_eq!(full.rows[0].label, "db");
    assert_eq!(full.rows[1].label, "Web");
    assert_eq!(full.agent_label, "Agent: not configured");
    page.set_diagnostics(
        SshAgentStatus::Stale,
        vec![SshIdentity { has_private_key: true }],
    );
    let probed = page.content(&hosts, &records);
    assert_eq!(probed.agent_label, "Agent: stale socket");
    assert_eq!(probed.identities_label, "Keys in ~/.ssh: 1");
    assert!(search_terms().contains("proxy identity"));
}

#[test]
fn actions_have_their_effects() {
    let records = SshHostsMetadataModel::new_for_testing();
    let mut page = SshHostsSettingsPageView::new(&[], SshAgentStatus::NotConfigured, vec![]);
    assert_eq!(
        page.handle_action(&SshHostsSettingsPageAction::ExportMetadata, &records, Some("/home/me")),
        PageEffect::PickExportFile {
            default_filename: "ssh_hosts_metadata.toml".to_string(),
            default_directory: Some("/home/me".to_string()),
        }
    );
    assert_eq!(
        page.handle_action(&SshHostsSettingsPageAction::ExportMetadata, &records, None),
        PageEffect::PickExportFile {
            default_filename: "ssh_hosts_metadata.toml".to_string(),
            default_directory: None,
        }
    );
    assert_eq!(
        page.handle_action(&SshHostsSettingsPageAction::ImportMetadata, &records, None),
        PageEffect::PickImportFile
    );
    assert_eq!(
        page.handle_action(&SshHostsSettingsPageAction::RefreshDiagnostics, &records, None),
        PageEffect::ProbeDiagnostics
    );
    assert!(page.get_modal_content().is_none());
    let open = SshHostsSettingsPageAction::OpenMetadataEditor("web".to_string());
    assert_eq!(open.clone(), open);
}

#[test]
fn editing_a_record_from_the_page() {
    let mut records = SshHostsMetadataModel::new_for_testing();
    records.set("web".to_string(), metadata(Some("Web")));
    let mut page = SshHostsSettingsPageView::new(&[], SshAgentStatus::NotConfigured, vec![]);
    let open = SshHostsSettingsPageAction::OpenMetadataEditor("web".to_string());
    assert_eq!(page.handle_action(&open, &records, None), PageEffect::Redraw);
    let shown = page.get_modal_content().unwrap();
    assert_eq!(shown.title, "Edit metadata · web");
    assert_eq!(shown.fields.len(), 4);
    assert_eq!(shown.fields[0].label, "Display name");
    assert_eq!(shown.fields[0].text, "Web");
    assert_eq!(shown.fields[3].placeholder, "Hex color, e.g. #ff5733");

    // Saving at once changes nothing.
    let event = page
        .dialog()
        .handle_action(&SshHostsMetadataEditDialogAction::Save);
    assert_eq!(
        page.handle_metadata_edit_dialog_event(event, &mut records),
        None
    );
    assert!(page.get_modal_content().is_none());

    // Saving what was typed does.
    page.handle_action(&open, &records, None);
    let mut form = MetadataForm::empty();
    form.tags = "x, y".to_string();
    page.set_form(form);
    let event = page
        .dialog()
        .handle_action(&SshHostsMetadataEditDialogAction::Save);
    assert_eq!(
        page.handle_metadata_edit_dialog_event(event, &mut records),
        Some(SshHostsMetadataEvent::Updated)
    );
    assert_eq!(records.get("web").unwrap().tags, vec!["x", "y"]);
    assert_eq!(records.get("web").unwrap().display_name, None);

    // Cancelling does not.
    page.handle_action(&open, &records, None);
    assert_eq!(
        page.handle_metadata_edit_dialog_event(
            SshHostsMetadataEditDialogEvent::Cancel,
            &mut records
        ),
        None
    );
    assert!(!page.dialog().is_visible());
}

#[test]
fn toasts_tell_the_outcome() {
    let done = export_toast("/tmp/x.toml", &Ok(1_234));
    assert!(!done.is_error);
    assert_eq!(
        done.text,
        "Exported SSH host metadata to /tmp/x.toml (1234 bytes)."
    );
    let failed = export_toast("/tmp/x.toml", &Err("disk full".to_string()));
    assert!(failed.is_error);
    assert_eq!(failed.text, "Export failed: disk full");

    let counts = ImportResult {
        imported_new: 1,
        overwritten: 20,
        unchanged: 300,
    };
    let done = import_toast("/x", &Ok(counts));
    assert!(!done.is_error);
    assert_eq!(
        done.text,
        "Imported from /x: 1 new, 20 overwritten, 300 unchanged."
    );
    let none = import_toast("/x", &Ok(ImportResult::default()));
    assert_eq!(none.text, "Imported from /x: no host records found.");
    let failed = import_toast("/x", &Err("no".to_string()));
    assert!(failed.is_error);
    assert_eq!(failed.text, "Import failed: no");
}

#[test]
fn first_chosen_file_is_imported() {
    let chosen = |paths: &[&str]| -> Result<Vec<String>, ()> {
        Ok(paths.iter().map(|p| p.to_string()).collect())
    };
    assert_eq!(import_choice(chosen(&["/a", "/b"])).as_deref(), Some("/a"));
    assert_eq!(import_choice(chosen(&[])), None);
    assert_eq!(import_choice::<()>(Err(())), None);
}
