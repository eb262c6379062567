//! What the settings page shows and does, piece by piece.

use vstd::prelude::*;

use crate::details::Detail;
use crate::edit_dialog::{empty_form, form_of, Form};
use crate::metadata::{ImportResult, Metadata};
use crate::numbers::decimal;
use crate::settings_page::{
    acts, agent_text, connects, description_text, empty_state_text, export_filename, identities_text,
    imported_text, plain_row, private_count, record_for, row_of, row_views, rows_of, shows,
    shows_form, target_text, unless_empty, DialogField, HostRow, Page, PageEffect, RowAction,
    SshAgentStatus, SshHostsSettingsPageAction, SshIdentity,
};
use crate::text::{joined, str_view, string_view, texts};

verus! {

/// The target of a host is its host name, or its alias where it has none. A user stands before
/// it with an `@`, and a port behind it with a `:`, whatever the rest is; nothing else of the
/// host shows.
pub proof fn law_target_is_put_together(d: Detail)
    ensures
        d.user is None && d.port is None && d.hostname is Some ==> target_text(d) == d.hostname->0,
        d.user is None && d.port is None && d.hostname is None ==> target_text(d) == d.alias,
        d.user is Some ==> target_text(d) == d.user->0 + seq!['@'] + target_text(
            (Detail { user: None, ..d }),
        ),
        d.port is Some ==> target_text(d) == target_text((Detail { port: None, ..d })) + seq![':']
            + decimal(d.port->0 as nat),
        unless_empty(target_text(d)) is None <==> target_text(d).len() == 0,
        target_text(d).len() > 0 ==> unless_empty(target_text(d)) == Some(target_text(d)),
{
    if d.user is Some {
        assert(target_text(d) =~= d.user->0 + seq!['@'] + target_text(
            (Detail { user: None, ..d }),
        ));
    }
    if d.port is Some {
        assert(target_text(d) =~= target_text((Detail { port: None, ..d })) + seq![':'] + decimal(
            d.port->0 as nat,
        ));
    }
    if d.user is None && d.port is None {
        assert(target_text(d) =~= if d.hostname is Some {
            d.hostname->0
        } else {
            d.alias
        });
    }
}

/// What a row says of the host comes from the configuration alone, whatever the user keeps
/// about it: its target, its identity files, the hosts it is reached through, and the command.
pub proof fn law_row_shows_the_configuration(d: Detail, metadata: Option<Metadata>)
    ensures
        ({
            let row = row_of(d, metadata);
            &&& row.target == unless_empty(target_text(d))
            &&& d.identity_files.len() == 0 <==> row.identity_line is None
            &&& d.identity_files.len() > 0 ==> row.identity_line == Some(
                "Identity: "@ + joined(d.identity_files, ", "@),
            )
            &&& d.proxy_jump is None <==> row.proxy_line is None
            &&& d.proxy_jump is Some ==> row.proxy_line == Some("ProxyJump: "@ + d.proxy_jump->0)
            &&& row.command == "ssh "@ + d.alias
        }),
{
}

/// What the user keeps about a host is shown as it is kept: notes, tags and color, and the
/// given name as the heading with the alias below it. Without a record, and without a given
/// name, the alias is the heading.
pub proof fn law_row_shows_the_record(d: Detail, m: Metadata)
    ensures
        row_of(d, Some(m)).notes == m.notes,
        row_of(d, Some(m)).tags == m.tags,
        row_of(d, Some(m)).color == m.color,
        m.display_name is Some ==> row_of(d, Some(m)).label == m.display_name->0 && row_of(
            d,
            Some(m),
        ).alias_line == Some("alias: "@ + d.alias),
        m.display_name is None ==> row_of(d, Some(m)).label == d.alias && row_of(
            d,
            Some(m),
        ).alias_line is None,
        row_of(d, None).label == d.alias,
        row_of(d, None).alias_line is None,
        row_of(d, None).notes is None,
        row_of(d, None).tags.len() == 0,
        row_of(d, None).color is None,
        plain_row(d) == row_of(d, None),
{
}

/// There is one row for each host, in the order of the hosts, each with the record of its own
/// alias.
pub proof fn law_one_row_for_each_host(
    hosts: Seq<Detail>,
    records: Map<Seq<char>, Metadata>,
    i: int,
)
    requires
        0 <= i < hosts.len(),
    ensures
        rows_of(hosts, records).len() == hosts.len(),
        records.dom().contains(hosts[i].alias) ==> rows_of(hosts, records)[i] == row_of(
            hosts[i],
            Some(records[hosts[i].alias]),
        ),
        !records.dom().contains(hosts[i].alias) ==> rows_of(hosts, records)[i] == row_of(
            hosts[i],
            None,
        ),
        record_for(records, hosts[i].alias) is Some <==> records.dom().contains(hosts[i].alias),
        records.dom().contains(hosts[i].alias) ==> record_for(records, hosts[i].alias) == Some(
            records[hosts[i].alias],
        ),
{
}

/// A row is viewed field by field, and a list of rows row by row.
pub proof fn law_rows_are_viewed_field_by_field(rows: Seq<HostRow>, i: int, o: Option<&str>)
    requires
        0 <= i < rows.len(),
    ensures
        row_views(rows).len() == rows.len(),
        row_views(rows)[i].label == rows[i].label@,
        row_views(rows)[i].alias_line == string_view(rows[i].alias_line),
        row_views(rows)[i].target == string_view(rows[i].target),
        row_views(rows)[i].identity_line == string_view(rows[i].identity_line),
        row_views(rows)[i].proxy_line == string_view(rows[i].proxy_line),
        row_views(rows)[i].notes == string_view(rows[i].notes),
        row_views(rows)[i].tags == texts(rows[i].tags@),
        row_views(rows)[i].color == string_view(rows[i].color),
        row_views(rows)[i].command == rows[i].command@,
        o is None <==> str_view(o) is None,
        o is Some ==> str_view(o) == Some(o->0@),
{
}

/// A click on a row opens a terminal first and then runs `ssh` and the alias in it, and does
/// nothing else.
pub proof fn law_click_opens_a_terminal_then_connects(
    actions: Seq<RowAction>,
    alias: Seq<char>,
)
    requires
        connects(actions, alias),
    ensures
        actions.len() == 2,
        actions[0] is AddTerminalTab,
        actions[0]->hide_homepage,
        actions[1] is RunCommand,
        actions[1]->RunCommand_0@ == "ssh "@ + alias,
{
}

/// What is said of an agent that answers names how many keys it holds, in the singular for one
/// and in the plural for any other number; one that does not answer is told from one that is
/// not there.
pub proof fn law_agent_is_told(keys_loaded: usize)
    ensures
        keys_loaded != 1 ==> agent_text(SshAgentStatus::Available { keys_loaded }) == "Agent: "@
            + decimal(keys_loaded as nat) + " keys loaded"@,
        agent_text(SshAgentStatus::Available { keys_loaded: 1 }) == "Agent: "@ + decimal(1)
            + " key loaded"@,
        agent_text(SshAgentStatus::NotConfigured) == "Agent: not configured"@,
        agent_text(SshAgentStatus::Stale) == "Agent: stale socket"@,
{
    reveal_strlit("Agent: 1 key loaded");
    reveal_strlit("Agent: ");
    reveal_strlit(" key loaded");
    reveal_with_fuel(decimal, 2);
    assert(decimal(1) =~= seq!['1']);
    assert("Agent: 1 key loaded"@ =~= "Agent: "@ + decimal(1) + " key loaded"@);
}

/// Each key with its private key there counts once.
pub proof fn law_private_keys_are_counted(a: Seq<SshIdentity>, b: Seq<SshIdentity>, key: SshIdentity)
    ensures
        private_count(Seq::empty()) == 0,
        key.has_private_key ==> private_count(seq![key]) == 1,
        !key.has_private_key ==> private_count(seq![key]) == 0,
        private_count(a + b) == private_count(a) + private_count(b),
        0 <= private_count(b) <= b.len(),
    decreases b.len(),
{
    let one = seq![key];
    assert(one.drop_last() =~= Seq::<SshIdentity>::empty());
    assert(private_count(one.drop_last()) == 0);
    if b.len() == 0 {
        assert(a + b =~= a);
    } else {
        law_private_keys_are_counted(a, b.drop_last(), key);
        assert((a + b).drop_last() =~= a + b.drop_last());
    }
}

/// What is said of the keys names how many there are, and, where they are not all there, how
/// many are not counted as private.
pub proof fn law_keys_are_told(identities: Seq<SshIdentity>)
    ensures
        identities.len() == 0 ==> identities_text(identities) == "Keys in ~/.ssh: none visible"@,
        identities.len() > 0 && private_count(identities) == identities.len() ==> identities_text(
            identities,
        ) == "Keys in ~/.ssh: "@ + decimal(identities.len()),
        identities.len() > 0 && private_count(identities) != identities.len() ==> identities_text(
            identities,
        ) == "Keys in ~/.ssh: "@ + decimal(identities.len()) + " ("@ + decimal(
            (identities.len() - private_count(identities)) as nat,
        ) + " private-key-only)"@,
{
}

/// The user is told where an import came from and what it did, each of the three numbers by
/// its name, or that it found nothing.
pub proof fn law_import_is_told(path: Seq<char>, result: ImportResult)
    ensures
        result.imported_new == 0 && result.overwritten == 0 && result.unchanged == 0
            ==> imported_text(path, result) == "Imported from "@ + path
            + ": no host records found."@,
        result.imported_new > 0 || result.overwritten > 0 || result.unchanged > 0 ==> imported_text(
            path,
            result,
        ) == "Imported from "@ + path + ": "@ + decimal(result.imported_new as nat) + " new, "@
            + decimal(result.overwritten as nat) + " overwritten, "@ + decimal(
            result.unchanged as nat,
        ) + " unchanged."@,
{
}

/// The dialog shows the name, the notes, the tags and the color, in this order, each with what
/// was typed into it.
pub proof fn law_dialog_shows_what_was_typed(fields: Seq<DialogField>, form: Form)
    requires
        shows_form(fields, form),
    ensures
        fields.len() == 4,
        fields[0].label@ == "Display name"@,
        fields[0].placeholder@ == "Custom name shown instead of the alias"@,
        fields[0].text@ == form.display_name,
        fields[1].label@ == "Notes"@,
        fields[1].placeholder@ == "Free-text notes about this host"@,
        fields[1].text@ == form.notes,
        fields[2].label@ == "Tags (comma-separated)"@,
        fields[2].placeholder@ == "Comma-separated tags, e.g. prod, us-east"@,
        fields[2].text@ == form.tags,
        fields[3].label@ == "Color (hex, e.g. #ff5733)"@,
        fields[3].placeholder@ == "Hex color, e.g. #ff5733"@,
        fields[3].text@ == form.color,
        shows(fields[0], fields[0].label@, fields[0].placeholder@, form.display_name),
{
}

/// Asking for the editor opens the dialog for that alias and no other, with the record it has;
/// the other actions leave the page as it is and each have an effect of their own. An export
/// proposes its file name, and the home directory where it is known.
pub proof fn law_actions_do_what_they_say(
    before: Page,
    records: Map<Seq<char>, Metadata>,
    home: Option<Seq<char>>,
    action: SshHostsSettingsPageAction,
    effect: PageEffect,
    after: Page,
)
    requires
        acts(before, records, home, action, effect, after),
    ensures
        after.rows == before.rows,
        after.agent_status == before.agent_status,
        after.identities == before.identities,
        !(action is OpenMetadataEditor) ==> after.dialog == before.dialog,
        action is OpenMetadataEditor ==> effect is Redraw && after.dialog.visible
            && after.dialog.alias == Some(action->OpenMetadataEditor_0@),
        action is OpenMetadataEditor && records.dom().contains(action->OpenMetadataEditor_0@)
            ==> after.dialog.form == form_of(records[action->OpenMetadataEditor_0@]),
        action is OpenMetadataEditor && !records.dom().contains(action->OpenMetadataEditor_0@)
            ==> after.dialog.form == empty_form(),
        action is ExportMetadata ==> effect is PickExportFile && effect->default_filename@
            == "ssh_hosts_metadata.toml"@ && string_view(effect->default_directory) == home,
        action is ImportMetadata ==> effect is PickImportFile,
        action is RefreshDiagnostics ==> effect is ProbeDiagnostics,
{
}

/// The texts of the page that never change.
pub proof fn law_page_has_its_texts()
    ensures
        export_filename() == "ssh_hosts_metadata.toml"@,
        description_text()
            == "Hosts found in your ~/.ssh/config. Edit the file directly to add, remove, or rename hosts; this list refreshes automatically when the file changes on disk."@,
        empty_state_text()
            == "No SSH hosts found. Add a `Host` block to ~/.ssh/config to populate this list."@,
{
}

} // verus!
