use warp_ssh::details::HostDetail;
use warp_ssh::metadata::{
    merge_imported, HostMetadata, ImportResult, MetadataMap, SshHostsMetadataEvent,
    SshHostsMetadataModel,
};

#[test]
fn host_metadata_default_is_empty() {
    let m = HostMetadata::default();
    assert!(m.is_empty());
}

#[test]
fn host_metadata_with_display_name_is_not_empty() {
    let m = HostMetadata {
        display_name: Some("Prod web".to_string()),
        ..Default::default()
    };
    assert!(!m.is_empty());
}

#[test]
fn host_metadata_with_only_tags_is_not_empty() {
    let m = HostMetadata {
        tags: vec!["prod".to_string()],
        ..Default::default()
    };
    assert!(!m.is_empty());
}

#[test]
fn host_metadata_with_only_color_is_not_empty() {
    let m = HostMetadata {
        color: Some("#ff5733".to_string()),
        ..Default::default()
    };
    assert!(!m.is_empty());
}

// ── merge_imported ──────────────────────────────────────────────────

fn metadata_with_display(name: &str) -> HostMetadata {
    HostMetadata {
        display_name: Some(name.to_string()),
        ..Default::default()
    }
}

#[test]
fn merge_into_empty_current_classifies_every_record_as_new() {
    let mut current = MetadataMap::new();
    let mut imported = MetadataMap::new();
    imported.insert("prod-web".to_string(), metadata_with_display("Prod web"));
    imported.insert("staging".to_string(), metadata_with_display("Staging"));

    let result = merge_imported(&mut current, imported);

    assert_eq!(result.imported_new, 2);
    assert_eq!(result.overwritten, 0);
    assert_eq!(result.unchanged, 0);
    assert_eq!(current.len(), 2);
}

#[test]
fn merge_overwrites_when_imported_differs_from_existing() {
    let mut current = MetadataMap::new();
    current.insert("prod-web".to_string(), metadata_with_display("Old name"));
    let mut imported = MetadataMap::new();
    imported.insert("prod-web".to_string(), metadata_with_display("New name"));

    let result = merge_imported(&mut current, imported);

    assert_eq!(result.imported_new, 0);
    assert_eq!(result.overwritten, 1);
    assert_eq!(result.unchanged, 0);
    assert_eq!(
        current
            .get("prod-web")
            .and_then(|m| m.display_name.as_deref()),
        Some("New name"),
    );
}

#[test]
fn merge_classifies_matching_records_as_unchanged() {
    let mut current = MetadataMap::new();
    current.insert("prod-web".to_string(), metadata_with_display("Prod web"));
    let mut imported = MetadataMap::new();
    imported.insert("prod-web".to_string(), metadata_with_display("Prod web"));

    let result = merge_imported(&mut current, imported);

    assert_eq!(result.imported_new, 0);
    assert_eq!(result.overwritten, 0);
    assert_eq!(result.unchanged, 1);
}

#[test]
fn merge_with_mixed_outcomes_reports_all_counts_correctly() {
    let mut current = MetadataMap::new();
    current.insert("prod-web".to_string(), metadata_with_display("Prod web"));
    current.insert("staging".to_string(), metadata_with_display("Staging"));

    let mut imported = MetadataMap::new();
    // staging: same → unchanged
    imported.insert("staging".to_string(), metadata_with_display("Staging"));
    // prod-web: differs → overwritten
    imported.insert("prod-web".to_string(), metadata_with_display("Prod-web v2"));
    // dev: new → imported_new
    imported.insert("dev".to_string(), metadata_with_display("Dev"));

    let result = merge_imported(&mut current, imported);

    assert_eq!(result.imported_new, 1);
    assert_eq!(result.overwritten, 1);
    assert_eq!(result.unchanged, 1);
    assert_eq!(result.total(), 3);
    assert!(result.touched_disk());
    assert_eq!(current.len(), 3);
}

#[test]
fn merge_with_no_changes_does_not_touch_disk() {
    let mut current = MetadataMap::new();
    current.insert("prod-web".to_string(), metadata_with_display("Prod web"));
    let mut imported = MetadataMap::new();
    imported.insert("prod-web".to_string(), metadata_with_display("Prod web"));

    let result = merge_imported(&mut current, imported);

    assert!(!result.touched_disk());
}

#[test]
fn merge_preserves_existing_aliases_not_present_in_import() {
    // Import is additive — existing aliases that aren't in the
    // imported file are NOT removed. Removal happens only via the
    // prune-on-config-change subscription.
    let mut current = MetadataMap::new();
    current.insert("prod-web".to_string(), metadata_with_display("Prod web"));
    current.insert("staging".to_string(), metadata_with_display("Staging"));

    let mut imported = MetadataMap::new();
    imported.insert("dev".to_string(), metadata_with_display("Dev"));

    let _ = merge_imported(&mut current, imported);

    assert_eq!(current.len(), 3);
    assert!(current.contains_key("prod-web"));
    assert!(current.contains_key("staging"));
    assert!(current.contains_key("dev"));
}

#[test]
fn import_result_total_sums_all_three_counts() {
    let r = ImportResult {
        imported_new: 1,
        overwritten: 2,
        unchanged: 3,
    };
    assert_eq!(r.total(), 6);
}

#[test]
fn import_result_touched_disk_excludes_unchanged() {
    assert!(!ImportResult::default().touched_disk());
    assert!(!ImportResult {
        unchanged: 5,
        ..Default::default()
    }
    .touched_disk());
    assert!(ImportResult {
        imported_new: 1,
        ..Default::default()
    }
    .touched_disk());
    assert!(ImportResult {
        overwritten: 1,
        ..Default::default()
    }
    .touched_disk());
}

// ── further cases ───────────────────────────────────────────────────

#[test]
fn map_keeps_one_record_per_alias() {
    let mut m = MetadataMap::new();
    assert!(m.is_empty());
    assert_eq!(m.insert("a".to_string(), metadata_with_display("1")), None);
    assert_eq!(m.insert("b".to_string(), metadata_with_display("2")), None);
    assert_eq!(
        m.insert("a".to_string(), metadata_with_display("3")),
        Some(metadata_with_display("1"))
    );
    assert_eq!(m.len(), 2);
    let copy = m.clone();
    assert_eq!(m.remove("a"), Some(metadata_with_display("3")));
    assert_eq!(m.remove("a"), None);
    assert_eq!(m.len(), 1);
    assert_eq!(copy.len(), 2);
    assert_eq!(copy.get("a"), Some(&metadata_with_display("3")));
    assert!(!copy.contains_key("c"));
}

#[test]
fn set_reports_changes_only() {
    let mut s = SshHostsMetadataModel::new_for_testing();
    let updated = Some(SshHostsMetadataEvent::Updated);
    assert_eq!(s.set("a".to_string(), metadata_with_display("1")), updated);
    assert_eq!(s.set("a".to_string(), metadata_with_display("1")), None);
    assert_eq!(s.set("a".to_string(), metadata_with_display("2")), updated);
    assert_eq!(s.get("a"), Some(&metadata_with_display("2")));
    assert_eq!(s.set("a".to_string(), HostMetadata::default()), updated);
    assert_eq!(s.get("a"), None);
    assert_eq!(s.set("a".to_string(), HostMetadata::default()), None);
}

#[test]
fn second_import_changes_nothing() {
    let mut imported = MetadataMap::new();
    imported.insert("a".to_string(), metadata_with_display("A"));
    imported.insert("b".to_string(), metadata_with_display("B"));
    let mut s = SshHostsMetadataModel::new(MetadataMap::new());
    let (first, event) = s.import(imported.clone());
    assert_eq!(first.imported_new, 2);
    assert_eq!(event, Some(SshHostsMetadataEvent::Updated));
    let (second, event) = s.import(imported);
    assert_eq!(second.unchanged, 2);
    assert_eq!(second.total(), 2);
    assert_eq!(event, None);
    assert_eq!(s.records().len(), 2);
}

#[test]
fn pruning_drops_the_records_of_unknown_aliases() {
    let mut s = SshHostsMetadataModel::new_for_testing();
    s.set("a".to_string(), metadata_with_display("A"));
    s.set("b".to_string(), metadata_with_display("B"));
    s.set("c".to_string(), metadata_with_display("C"));
    let hosts = vec![
        HostDetail::new("b".to_string()),
        HostDetail::new("d".to_string()),
    ];
    assert_eq!(
        s.prune_to_known_aliases(&hosts),
        Some(SshHostsMetadataEvent::Updated)
    );
    assert_eq!(s.records().len(), 1);
    assert_eq!(s.get("b"), Some(&metadata_with_display("B")));
    assert_eq!(s.prune_to_known_aliases(&hosts), None);
}

#[test]
fn blank_records_are_not_imported() {
    let mut imported = MetadataMap::new();
    imported.insert("x".to_string(), HostMetadata::default());
    let mut s = SshHostsMetadataModel::new_for_testing();
    let (result, event) = s.import(imported.clone());
    assert_eq!(s.get("x"), None);
    assert!(s.records().is_empty());
    assert_eq!(event, None);
    assert_eq!(result.total(), 1);

    // A blank record wins over another, which is then gone.
    s.set("x".to_string(), metadata_with_display("X"));
    s.set("y".to_string(), metadata_with_display("Y"));
    let (result, event) = s.import(imported.clone());
    assert_eq!(result.overwritten, 1);
    assert_eq!(event, Some(SshHostsMetadataEvent::Updated));
    assert_eq!(s.get("x"), None);
    assert_eq!(s.records().len(), 1);
    assert_eq!(s.get("y"), Some(&metadata_with_display("Y")));

    // The others of the same import are taken over.
    imported.insert("z".to_string(), metadata_with_display("Z"));
    let (_, event) = s.import(imported);
    assert_eq!(event, Some(SshHostsMetadataEvent::Updated));
    assert_eq!(s.get("z"), Some(&metadata_with_display("Z")));
    assert_eq!(s.records().len(), 2);
}

#[test]
fn blank_records_are_not_loaded() {
    let mut loaded = MetadataMap::new();
    loaded.insert("x".to_string(), HostMetadata::default());
    loaded.insert("y".to_string(), metadata_with_display("Y"));
    let s = SshHostsMetadataModel::new(loaded);
    assert_eq!(s.get("x"), None);
    assert_eq!(s.get("y"), Some(&metadata_with_display("Y")));
    assert_eq!(s.records().len(), 1);
}

#[test]
fn records_differ_in_every_field() {
    let base = HostMetadata {
        display_name: Some("n".to_string()),
        notes: Some("o".to_string()),
        tags: vec!["t".to_string()],
        color: Some("c".to_string()),
    };
    let variants = vec![
        HostMetadata { display_name: None, ..base.clone() },
        HostMetadata { notes: Some("x".to_string()), ..base.clone() },
        HostMetadata { tags: vec![], ..base.clone() },
        HostMetadata { tags: vec!["u".to_string()], ..base.clone() },
        HostMetadata { color: None, ..base.clone() },
    ];
    for v in variants {
        let mut current = MetadataMap::new();
        current.insert("a".to_string(), base.clone());
        let mut imported = MetadataMap::new();
        imported.insert("a".to_string(), v.clone());
        assert_eq!(merge_imported(&mut current, imported).overwritten, 1);
        assert_eq!(current.get("a"), Some(&v));
    }
}

#[test]
fn all_records_of_a_store_are_restored_in_an_empty_one() {
    let full = HostMetadata {
        display_name: Some("n".to_string()),
        notes: Some("o".to_string()),
        tags: vec!["t".to_string(), "u".to_string()],
        color: Some("c".to_string()),
    };
    let mut first = SshHostsMetadataModel::new_for_testing();
    first.set("a".to_string(), full.clone());
    first.set("b".to_string(), metadata_with_display("B"));
    let mut second = SshHostsMetadataModel::new_for_testing();
    let (result, _) = second.import(first.records().clone());
    assert_eq!(
        result,
        ImportResult {
            imported_new: 2,
            overwritten: 0,
            unchanged: 0
        }
    );
    assert_eq!(second.get("a"), Some(&full));
    assert_eq!(second.get("b"), first.get("b"));
    assert_eq!(second.records().len(), 2);
}
