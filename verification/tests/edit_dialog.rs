use warp_ssh::edit_dialog::{
    dialog_buttons, dismiss_action, parse_tag_list, submit_action, trimmed_or_none, MetadataForm, SshHostsMetadataEditDialog,
    SshHostsMetadataEditDialogAction, SshHostsMetadataEditDialogEvent,
};
use warp_ssh::metadata::HostMetadata;

#[test]
fn trimmed_or_none_returns_none_for_empty() {
    assert_eq!(trimmed_or_none(""), None);
    assert_eq!(trimmed_or_none("   "), None);
    assert_eq!(trimmed_or_none("\t\n"), None);
}

#[test]
fn trimmed_or_none_returns_trimmed_value() {
    assert_eq!(trimmed_or_none("  hello  ").as_deref(), Some("hello"));
    assert_eq!(trimmed_or_none("hello").as_deref(), Some("hello"));
}

#[test]
fn parse_tag_list_splits_on_commas() {
    let tags = parse_tag_list("prod, us-east, web");
    assert_eq!(tags, vec!["prod", "us-east", "web"]);
}

#[test]
fn parse_tag_list_drops_empty_entries() {
    let tags = parse_tag_list(",prod,,us-east,");
    assert_eq!(tags, vec!["prod", "us-east"]);
}

#[test]
fn parse_tag_list_trims_whitespace_around_entries() {
    let tags = parse_tag_list("  prod  ,   us-east");
    assert_eq!(tags, vec!["prod", "us-east"]);
}

#[test]
fn parse_tag_list_empty_string_returns_empty_vec() {
    let tags = parse_tag_list("");
    assert!(tags.is_empty());
}

#[test]
fn parse_tag_list_whitespace_only_returns_empty_vec() {
    let tags = parse_tag_list("   ,  ,   ");
    assert!(tags.is_empty());
}

#[test]
fn parse_tag_list_preserves_order_and_duplicates() {
    // We don't dedupe at parse time — the model layer can choose to
    // later, but the user's typing order is preserved here.
    let tags = parse_tag_list("a, b, a, c, b");
    assert_eq!(tags, vec!["a", "b", "a", "c", "b"]);
}

fn record() -> HostMetadata {
    HostMetadata {
        display_name: Some("Prod web".to_string()),
        notes: Some("Use --max-time 30".to_string()),
        tags: vec!["prod".to_string(), "us-east".to_string(), "prod".to_string()],
        color: Some("#ff5733".to_string()),
    }
}

#[test]
fn dialog_starts_hidden() {
    let d = SshHostsMetadataEditDialog::new();
    assert!(!d.is_visible());
    assert_eq!(d.title(), "Edit metadata");
    assert_eq!(d.collect_metadata(), HostMetadata::default());
}

#[test]
fn show_fills_the_fields_and_save_gives_the_record_back() {
    let mut d = SshHostsMetadataEditDialog::new();
    d.show("web".to_string(), Some(&record()));
    assert!(d.is_visible());
    assert_eq!(d.title(), "Edit metadata · web");
    assert_eq!(d.form().tags, "prod, us-east, prod");
    assert_eq!(d.form().display_name, "Prod web");
    assert_eq!(
        d.handle_action(&SshHostsMetadataEditDialogAction::Save),
        SshHostsMetadataEditDialogEvent::Save {
            alias: "web".to_string(),
            metadata: record()
        }
    );
}

#[test]
fn show_without_a_record_empties_the_fields() {
    let mut d = SshHostsMetadataEditDialog::new();
    d.show("web".to_string(), Some(&record()));
    d.show("db".to_string(), None);
    assert_eq!(d.form(), &MetadataForm::empty());
    assert_eq!(d.title(), "Edit metadata · db");
}

#[test]
fn typed_text_is_trimmed_and_split() {
    let mut d = SshHostsMetadataEditDialog::new();
    d.show("web".to_string(), None);
    d.set_form(MetadataForm {
        display_name: "  Web  ".to_string(),
        notes: " \u{3000} ".to_string(),
        tags: " a ,, b".to_string(),
        color: "red".to_string(),
    });
    assert_eq!(
        d.collect_metadata(),
        HostMetadata {
            display_name: Some("Web".to_string()),
            notes: None,
            tags: vec!["a".to_string(), "b".to_string()],
            color: Some("red".to_string()),
        }
    );
}

#[test]
fn cancel_and_save_without_an_alias_cancel() {
    let mut d = SshHostsMetadataEditDialog::new();
    assert_eq!(
        d.handle_action(&SshHostsMetadataEditDialogAction::Save),
        SshHostsMetadataEditDialogEvent::Cancel
    );
    d.show("web".to_string(), Some(&record()));
    assert_eq!(
        d.handle_action(&SshHostsMetadataEditDialogAction::Cancel),
        SshHostsMetadataEditDialogEvent::Cancel
    );
    d.close();
    assert!(!d.is_visible());
    assert_eq!(
        d.handle_action(&SshHostsMetadataEditDialogAction::Save),
        SshHostsMetadataEditDialogEvent::Cancel
    );
}

#[test]
fn dialog_has_its_buttons() {
    let buttons = dialog_buttons();
    assert_eq!(buttons.len(), 2);
    assert_eq!(buttons[0].label, "Cancel");
    assert_eq!(buttons[0].action, SshHostsMetadataEditDialogAction::Cancel);
    assert_eq!(buttons[1].label, "Save");
    assert_eq!(buttons[1].action, SshHostsMetadataEditDialogAction::Save);
    assert_eq!(dismiss_action(), SshHostsMetadataEditDialogAction::Cancel);
    assert_eq!(submit_action(), SshHostsMetadataEditDialogAction::Save);
}
