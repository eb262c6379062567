//! What becomes of the records that the user keeps about hosts, field by field.

use vstd::prelude::*;

use crate::details::HostDetail;
use crate::edit_dialog::{
    dialog_for, dialog_title, empty_form, filled, form_of, hidden, metadata_view, nonblank,
    or_empty, record_of, resolves, tags_of, Dialog, Form, MetadataForm, SshHostsMetadataEditDialogAction,
    SshHostsMetadataEditDialogEvent,
};
use crate::metadata::{
    added, blank, compact, compacted, confirmed, counts, distinct, entries_map, has_entry,
    imported_into, known, lemma_import_one, replaced, HostMetadata, ImportResult, Metadata,
};
use crate::text::{
    is_space, joined, lemma_split_on_adds, lemma_split_on_single, split_on, texts, trim,
};
use crate::text_laws::{all_space, law_trim_takes_outer_white_space};

verus! {

/// A record is blank exactly where none of its four fields is set.
pub proof fn law_blank_records_have_nothing_set(m: Metadata)
    ensures
        m == blank() <==> m.display_name is None && m.notes is None && m.tags.len() == 0
            && m.color is None,
{
    if m.display_name is None && m.notes is None && m.tags.len() == 0 && m.color is None {
        assert(m =~= blank());
    }
}

/// A record is viewed field by field.
pub proof fn law_metadata_is_viewed_field_by_field(m: HostMetadata, form: MetadataForm)
    ensures
        m.display_name is None <==> m@.display_name is None,
        m.display_name is Some ==> m@.display_name == Some(m.display_name->0@),
        m.notes is None <==> m@.notes is None,
        m.notes is Some ==> m@.notes == Some(m.notes->0@),
        m.color is None <==> m@.color is None,
        m.color is Some ==> m@.color == Some(m.color->0@),
        m@.tags == texts(m.tags@),
        metadata_view(Some(&m)) == Some(m@),
        metadata_view(None) is None,
        form@.display_name == form.display_name@,
        form@.notes == form.notes@,
        form@.tags == form.tags@,
        form@.color == form.color@,
{
}

/// Entries with different aliases make a map in which each alias has the record that stands
/// beside it, and no other alias has one.
pub proof fn law_entries_make_a_map(
    entries: Seq<(String, HostMetadata)>,
    i: int,
    alias: Seq<char>,
)
    requires
        0 <= i < entries.len(),
        forall|j: int| 0 <= j < entries.len() && j != i ==> (#[trigger] entries[j]).0@
            != entries[i].0@,
    ensures
        entries_map(entries).dom().contains(entries[i].0@),
        entries_map(entries)[entries[i].0@] == entries[i].1@,
        has_entry(entries, entries[i].0@),
        entries_map(entries).dom().contains(alias) <==> has_entry(entries, alias),
        (forall|j: int| 0 <= j < entries.len() ==> (#[trigger] entries[j]).0@ != alias)
            ==> !entries_map(entries).dom().contains(alias),
{
    assert(entries[i].0@ == entries[i].0@);
}

/// Entries are distinct exactly where no alias stands at two places.
pub proof fn law_distinct_entries(entries: Seq<(String, HostMetadata)>, i: int, j: int)
    requires
        0 <= i < j < entries.len(),
    ensures
        distinct(entries) ==> entries[i].0@ != entries[j].0@,
        entries[i].0@ == entries[j].0@ ==> !distinct(entries),
{
}

/// An imported record is new where the alias had none, overwrites where it had another, and is
/// unchanged where it had the same; nothing that is not imported counts.
pub proof fn law_imports_are_told_apart(
    current: Map<Seq<char>, Metadata>,
    imported: Map<Seq<char>, Metadata>,
    alias: Seq<char>,
)
    ensures
        added(current, imported).contains(alias) <==> imported.dom().contains(alias)
            && !current.dom().contains(alias),
        replaced(current, imported).contains(alias) <==> imported.dom().contains(alias)
            && current.dom().contains(alias) && current[alias] != imported[alias],
        confirmed(current, imported).contains(alias) <==> imported.dom().contains(alias)
            && current.dom().contains(alias) && current[alias] == imported[alias],
{
}

/// Nothing imported counts as nothing, and each further record adds one to exactly one of the
/// three counts: to the new ones, the overwritten ones or the unchanged ones, as the record
/// that its alias had before says.
pub proof fn law_each_import_counts_once(
    current: Map<Seq<char>, Metadata>,
    imported: Map<Seq<char>, Metadata>,
    alias: Seq<char>,
    m: Metadata,
    none: ImportResult,
    before: ImportResult,
    after: ImportResult,
)
    requires
        imported.dom().finite(),
        !imported.dom().contains(alias),
        counts(current, Map::empty(), none),
        counts(current, imported, before),
        counts(current, imported.insert(alias, m), after),
    ensures
        none.imported_new == 0,
        none.overwritten == 0,
        none.unchanged == 0,
        !current.dom().contains(alias) ==> after == (ImportResult {
            imported_new: (before.imported_new + 1) as usize,
            ..before
        }),
        current.dom().contains(alias) && current[alias] != m ==> after == (ImportResult {
            overwritten: (before.overwritten + 1) as usize,
            ..before
        }),
        current.dom().contains(alias) && current[alias] == m ==> after == (ImportResult {
            unchanged: (before.unchanged + 1) as usize,
            ..before
        }),
{
    let nothing = Map::<Seq<char>, Metadata>::empty();
    assert(added(current, nothing) =~= Set::empty());
    assert(replaced(current, nothing) =~= Set::empty());
    assert(confirmed(current, nothing) =~= Set::empty());
    lemma_import_one(current, imported, alias, m);
}

/// After an import an alias has the imported record where one was imported, and otherwise the
/// one it had, and in neither case a blank one; no other alias has a record.
pub proof fn law_import_takes_over(
    current: Map<Seq<char>, Metadata>,
    imported: Map<Seq<char>, Metadata>,
    alias: Seq<char>,
)
    ensures
        ({
            let after = imported_into(current, imported);
            &&& imported.dom().contains(alias) ==> (after.dom().contains(alias) <==> imported[alias]
                != blank())
            &&& !imported.dom().contains(alias) ==> (after.dom().contains(alias)
                <==> current.dom().contains(alias) && current[alias] != blank())
            &&& after.dom().contains(alias) && imported.dom().contains(alias) ==> after[alias]
                == imported[alias]
            &&& after.dom().contains(alias) && !imported.dom().contains(alias) ==> after[alias]
                == current[alias]
        }),
{
}

/// Leaving blank records out leaves exactly the others, as they are.
pub proof fn law_only_blank_records_are_left_out(
    records: Map<Seq<char>, Metadata>,
    alias: Seq<char>,
)
    ensures
        compacted(records).dom().contains(alias) <==> records.dom().contains(alias)
            && records[alias] != blank(),
        compacted(records).dom().contains(alias) ==> compacted(records)[alias] == records[alias],
        compact(records) && records.dom().contains(alias) ==> records[alias] != blank(),
        compact(records) ==> compacted(records) == records,
{
    if compact(records) {
        assert(compacted(records) =~= records);
    }
}

/// An alias is known exactly where a host has it.
pub proof fn law_hosts_are_known_by_alias(hosts: Seq<HostDetail>, i: int, alias: Seq<char>)
    requires
        0 <= i < hosts.len(),
    ensures
        known(hosts, hosts[i].alias@),
        (forall|j: int| 0 <= j < hosts.len() ==> (#[trigger] hosts[j]).alias@ != alias) ==> !known(
            hosts,
            alias,
        ),
        !known(Seq::empty(), alias),
{
    assert(hosts[i]@.alias == hosts[i].alias@);
}

/// What is typed into a field is kept without the white space around it, and a field of
/// nothing but white space is not kept at all.
pub proof fn law_fields_are_kept_without_outer_white_space(s: Seq<char>)
    ensures
        filled(s) is None <==> all_space(s),
        filled(s) is Some ==> filled(s) == Some(trim(s)) && trim(s).len() > 0,
{
    let (lead, tail) = law_trim_takes_outer_white_space(s);
    let t = trim(s);
    if t.len() > 0 {
        assert(s[lead.len() as int] == t[0]);
    } else {
        assert(s =~= lead + tail);
        assert forall|i: int| 0 <= i < s.len() implies is_space(#[trigger] s[i]) by {
            if i < lead.len() {
                assert(s[i] == lead[i]);
            } else {
                assert(s[i] == tail[i - lead.len()]);
            }
        }
    }
}

/// The tags of a list are what stands between its commas, each kept as a field is: a comma and
/// a piece without commas add the tag in that piece, where it is not blank. No tag is dropped,
/// merged or moved.
pub proof fn law_tags_stand_between_commas(list: Seq<char>, piece: Seq<char>)
    requires
        forall|i: int| 0 <= i < piece.len() ==> #[trigger] piece[i] != ',',
    ensures
        ({
            let tag = match filled(piece) {
                Some(t) => seq![t],
                None => Seq::empty(),
            };
            &&& tags_of(piece) == tag
            &&& tags_of(list + seq![','] + piece) == tags_of(list) + tag
        }),
{
    assert(!piece.contains(','));
    lemma_split_on_single(piece, ',');
    lemma_split_on_adds(list, piece, ',');
    assert(list + seq![','] + piece =~= list.push(',') + piece);
    let one = seq![piece];
    assert(one.drop_last() =~= Seq::<Seq<char>>::empty());
    assert(nonblank(one.drop_last()) =~= Seq::<Seq<char>>::empty());
    assert(split_on(list, ',').push(piece).drop_last() =~= split_on(list, ','));
    assert(tags_of(list) + Seq::<Seq<char>>::empty() =~= tags_of(list));
}

/// Each field of the dialog is filled from its own field of the record, and the record that is
/// saved has each of its fields from its own field of the dialog.
pub proof fn law_fields_keep_to_themselves(m: Metadata, f: Form)
    ensures
        m.display_name is Some ==> form_of(m).display_name == m.display_name->0,
        m.display_name is None ==> form_of(m).display_name.len() == 0,
        m.notes is Some ==> form_of(m).notes == m.notes->0,
        m.notes is None ==> form_of(m).notes.len() == 0,
        m.color is Some ==> form_of(m).color == m.color->0,
        m.color is None ==> form_of(m).color.len() == 0,
        form_of(m).tags == joined(m.tags, seq![',', ' ']),
        record_of(f).display_name == filled(f.display_name),
        record_of(f).notes == filled(f.notes),
        record_of(f).tags == tags_of(f.tags),
        record_of(f).color == filled(f.color),
        empty_form().display_name.len() == 0,
        empty_form().notes.len() == 0,
        empty_form().tags.len() == 0,
        empty_form().color.len() == 0,
        or_empty(None).len() == 0,
        or_empty(Some(f.notes)) == f.notes,
{
    reveal_strlit(", ");
    assert(", "@ =~= seq![',', ' ']);
}

/// The dialog opens for the alias it is asked for, filled from the record there is, or empty
/// where there is none; once hidden it is for no alias, and what was typed stays.
pub proof fn law_dialog_opens_and_hides(alias: Seq<char>, m: Metadata, d: Dialog)
    ensures
        dialog_for(alias, Some(m)).visible,
        dialog_for(alias, None).visible,
        dialog_for(alias, Some(m)).alias == Some(alias),
        dialog_for(alias, None).alias == Some(alias),
        dialog_for(alias, Some(m)).form == form_of(m),
        dialog_for(alias, None).form == empty_form(),
        !hidden(d).visible,
        hidden(d).alias is None,
        hidden(d).form == d.form,
        dialog_title(Some(alias)) == "Edit metadata · "@ + alias,
        dialog_title(None) == "Edit metadata"@,
{
}

/// Saving sets the record that the fields stand for, for the alias that the dialog is open
/// for; cancelling never does, and neither does saving in a dialog that is open for none.
pub proof fn law_saving_sets_the_record(
    d: Dialog,
    action: SshHostsMetadataEditDialogAction,
    event: SshHostsMetadataEditDialogEvent,
)
    requires
        resolves(d, action, event),
    ensures
        action is Cancel ==> event is Cancel,
        action is Save && d.alias is None ==> event is Cancel,
        action is Save && d.alias is Some ==> (event matches SshHostsMetadataEditDialogEvent::Save {
            alias,
            metadata,
        } && alias@ == d.alias->0 && metadata@.display_name == filled(d.form.display_name)
            && metadata@.notes == filled(d.form.notes) && metadata@.tags == tags_of(d.form.tags)
            && metadata@.color == filled(d.form.color)),
{
}

} // verus!
