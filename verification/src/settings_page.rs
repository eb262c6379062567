//! The settings page that lists the hosts: what it shows, and what follows from what
//! the user does on it.
//!
//! The page is data. Whoever draws it takes the texts from here, and carries out the
//! [`PageEffect`] that an action has.

use vstd::prelude::*;

use crate::details::{detail_views, Detail, HostDetail};
use crate::edit_dialog::{
    dialog_for, dialog_title, empty_form, form_of, hidden, law_show_then_save_keeps_the_record,
    metadata_view, record_of, typed, Dialog, Form, MetadataForm, SshHostsMetadataEditDialog,
    SshHostsMetadataEditDialogEvent,
};
use crate::metadata::{
    blank, with_record, HostMetadata, ImportResult, Metadata, SshHostsMetadataEvent,
    SshHostsMetadataModel,
};
use crate::numbers::{decimal, push_decimal};
use crate::text::{
    copy_text, copy_texts, join, joined, push_text, str_view, string_view, texts,
};

verus! {

/// The file name that an export proposes.
pub open spec fn export_filename() -> Seq<char> {
    "ssh_hosts_metadata.toml"@
}

/// What the user does on the page.
#[derive(Debug, PartialEq, Eq)]
pub enum SshHostsSettingsPageAction {
    /// Open the dialog for the record of this alias.
    OpenMetadataEditor(String),
    /// Write all records to a file of the user's choice.
    ExportMetadata,
    /// Read records from a file of the user's choice.
    ImportMetadata,
    /// Look again at the agent and at the keys.
    RefreshDiagnostics,
}

impl Clone for SshHostsSettingsPageAction {
    fn clone(&self) -> (r: Self)
        ensures
            match (*self, r) {
                (
                    SshHostsSettingsPageAction::OpenMetadataEditor(a),
                    SshHostsSettingsPageAction::OpenMetadataEditor(b),
                ) => a@ == b@,
                (a, b) => a == b,
            },
    {
        match self {
            SshHostsSettingsPageAction::OpenMetadataEditor(
                alias,
            ) => SshHostsSettingsPageAction::OpenMetadataEditor(alias.clone()),
            SshHostsSettingsPageAction::ExportMetadata => SshHostsSettingsPageAction::ExportMetadata,
            SshHostsSettingsPageAction::ImportMetadata => SshHostsSettingsPageAction::ImportMetadata,
            SshHostsSettingsPageAction::RefreshDiagnostics => {
                SshHostsSettingsPageAction::RefreshDiagnostics
            },
        }
    }
}

/// What is left to do after an action.
#[derive(Debug, PartialEq, Eq)]
pub enum PageEffect {
    /// Draw the page again.
    Redraw,
    /// Let the user choose where to write, with this name proposed, in the home directory
    /// where it is known.
    PickExportFile { default_filename: String, default_directory: Option<String> },
    /// Let the user choose what to read.
    PickImportFile,
    /// Probe the agent and look for keys.
    ProbeDiagnostics,
}

/// How the ssh agent is.
#[derive(Debug, Clone, Copy, PartialEq, Eq, Structural)]
pub enum SshAgentStatus {
    /// It answers, and holds this many keys.
    Available { keys_loaded: usize },
    /// There is none.
    NotConfigured,
    /// Its socket is there, but nobody answers.
    Stale,
}

/// A key among the user's files.
#[derive(Debug, Clone, Copy, PartialEq, Eq, Structural)]
pub struct SshIdentity {
    /// Whether the private key is there too.
    pub has_private_key: bool,
}

/// Where a connection to the host goes: `user@hostname:port` as far as given, the
/// alias standing in for the host name.
pub open spec fn target_text(d: Detail) -> Seq<char> {
    let user = match d.user {
        Some(u) => u + seq!['@'],
        None => Seq::empty(),
    };
    let host = match d.hostname {
        Some(h) => h,
        None => d.alias,
    };
    let port = match d.port {
        Some(p) => seq![':'] + decimal(p as nat),
        None => Seq::empty(),
    };
    user + host + port
}

/// The text, unless it is empty.
pub open spec fn unless_empty(s: Seq<char>) -> Option<Seq<char>> {
    if s.len() == 0 {
        None
    } else {
        Some(s)
    }
}

/// Where a connection to the host goes, or `None` where there is nothing to say.
pub fn format_target(host: &HostDetail) -> (r: Option<String>)
    ensures
        string_view(r) == unless_empty(target_text(host@)),
{
    let mut s = String::new();
    if let Some(user) = &host.user {
        push_text(&mut s, user.as_str());
        s.push('@');
    }
    match &host.hostname {
        Some(name) => push_text(&mut s, name.as_str()),
        None => push_text(&mut s, host.alias.as_str()),
    }
    if let Some(port) = host.port {
        s.push(':');
        push_decimal(&mut s, port as u64);
    }
    assert(s@ =~= target_text(host@));
    if s.as_str().is_empty() {
        None
    } else {
        Some(s)
    }
}

/// What is shown of one host.
#[derive(Debug, PartialEq, Eq)]
pub struct HostRow {
    /// The heading.
    pub label: String,
    /// The alias, where the heading is another name.
    pub alias_line: Option<String>,
    /// Where a connection goes.
    pub target: Option<String>,
    /// The identity files.
    pub identity_line: Option<String>,
    /// The hosts that a connection goes through.
    pub proxy_line: Option<String>,
    /// The user's notes.
    pub notes: Option<String>,
    /// The user's tags.
    pub tags: Vec<String>,
    /// The user's color, as written; one that is no color is not drawn.
    pub color: Option<String>,
    /// What a click runs; see [`row_click`].
    pub command: String,
}

/// A [`HostRow`] as a mathematical value.
#[verifier::ext_equal]
pub struct Row {
    pub label: Seq<char>,
    pub alias_line: Option<Seq<char>>,
    pub target: Option<Seq<char>>,
    pub identity_line: Option<Seq<char>>,
    pub proxy_line: Option<Seq<char>>,
    pub notes: Option<Seq<char>>,
    pub tags: Seq<Seq<char>>,
    pub color: Option<Seq<char>>,
    pub command: Seq<char>,
}

impl View for HostRow {
    type V = Row;

    open spec fn view(&self) -> Row {
        Row {
            label: self.label@,
            alias_line: string_view(self.alias_line),
            target: string_view(self.target),
            identity_line: string_view(self.identity_line),
            proxy_line: string_view(self.proxy_line),
            notes: string_view(self.notes),
            tags: texts(self.tags@),
            color: string_view(self.color),
            command: self.command@,
        }
    }
}

/// What is shown of a host for which the user keeps nothing.
pub open spec fn plain_row(d: Detail) -> Row {
    Row {
        label: d.alias,
        alias_line: None,
        target: unless_empty(target_text(d)),
        identity_line: if d.identity_files.len() == 0 {
            None
        } else {
            Some("Identity: "@ + joined(d.identity_files, ", "@))
        },
        proxy_line: match d.proxy_jump {
            Some(p) => Some("ProxyJump: "@ + p),
            None => None,
        },
        notes: None,
        tags: Seq::empty(),
        color: None,
        command: "ssh "@ + d.alias,
    }
}

/// What is shown of a host. A name that the user gave is the heading, and the alias
/// then stands below it.
pub open spec fn row_of(d: Detail, metadata: Option<Metadata>) -> Row {
    match metadata {
        None => plain_row(d),
        Some(m) => Row {
            label: match m.display_name {
                Some(n) => n,
                None => d.alias,
            },
            alias_line: match m.display_name {
                Some(_) => Some("alias: "@ + d.alias),
                None => None,
            },
            notes: m.notes,
            tags: m.tags,
            color: m.color,
            ..plain_row(d)
        },
    }
}

/// `front` followed by `rest`.
fn line(front: &str, rest: &str) -> (r: String)
    ensures
        r@ == front@ + rest@,
{
    let mut out = front.to_owned();
    push_text(&mut out, rest);
    out
}

/// What is shown of a host.
pub fn host_row(host: &HostDetail, metadata: Option<&HostMetadata>) -> (r: HostRow)
    ensures
        r@ == row_of(host@, metadata_view(metadata)),
{
    let alias = host.alias.as_str();
    let identity_line: Option<String> = if host.identity_files.len() == 0 {
        None
    } else {
        let files = join(&host.identity_files, ", ");
        Some(line("Identity: ", files.as_str()))
    };
    assert(texts(host.identity_files@).len() == host.identity_files@.len());
    let proxy_line: Option<String> = match &host.proxy_jump {
        Some(p) => Some(line("ProxyJump: ", p.as_str())),
        None => None,
    };
    let mut row = HostRow {
        label: host.alias.clone(),
        alias_line: None,
        target: format_target(host),
        identity_line,
        proxy_line,
        notes: None,
        tags: Vec::new(),
        color: None,
        command: line("ssh ", alias),
    };
    assert(row@ =~= plain_row(host@));
    if let Some(m) = metadata {
        if let Some(name) = &m.display_name {
            row.label = name.clone();
            row.alias_line = Some(line("alias: ", alias));
        }
        row.notes = copy_text(&m.notes);
        row.tags = copy_texts(&m.tags);
        row.color = copy_text(&m.color);
    }
    assert(row@ =~= row_of(host@, metadata_view(metadata)));
    row
}

/// What the workspace is to do.
#[derive(Debug, PartialEq, Eq)]
pub enum RowAction {
    /// Open a terminal in a new tab, which then has the input.
    AddTerminalTab { hide_homepage: bool },
    /// Run a command in the terminal that has the input.
    RunCommand(String),
}

/// Whether these are the actions of a click on the row of a host: a new terminal, then
/// the connection in it.
pub open spec fn connects(actions: Seq<RowAction>, alias: Seq<char>) -> bool {
    &&& actions.len() == 2
    &&& actions[0] == (RowAction::AddTerminalTab { hide_homepage: true })
    &&& actions[1] matches RowAction::RunCommand(command)
    &&& command@ == "ssh "@ + alias
}

/// What a click on the row of a host does, in this order: it opens a terminal in a new
/// tab, with the homepage hidden, and runs `ssh` with the alias there.
pub fn row_click(host: &HostDetail) -> (r: Vec<RowAction>)
    ensures
        connects(r@, host@.alias),
{
    let mut actions: Vec<RowAction> = Vec::new();
    actions.push(RowAction::AddTerminalTab { hide_homepage: true });
    actions.push(RowAction::RunCommand(line("ssh ", host.alias.as_str())));
    actions
}

/// A button of the page.
#[derive(Debug, PartialEq, Eq)]
pub struct PageButton {
    pub label: String,
    /// What a click does.
    pub action: SshHostsSettingsPageAction,
}

/// The button next to the row of a host, which opens the dialog for its record.
pub fn edit_button(host: &HostDetail) -> (r: PageButton)
    ensures
        r.label@ == "Edit"@,
        r.action matches SshHostsSettingsPageAction::OpenMetadataEditor(alias) && alias@
            == host.alias@,
{
    PageButton {
        label: "Edit".to_owned(),
        action: SshHostsSettingsPageAction::OpenMetadataEditor(host.alias.clone()),
    }
}

/// The buttons of the page itself, in the order in which they stand: the first next to
/// what is said of the agent and the keys, the other two below.
pub fn page_buttons() -> (r: Vec<PageButton>)
    ensures
        r@.len() == 3,
        r@[0].label@ == "Refresh"@,
        r@[0].action == SshHostsSettingsPageAction::RefreshDiagnostics,
        r@[1].label@ == "Export\u{2026}"@,
        r@[1].action == SshHostsSettingsPageAction::ExportMetadata,
        r@[2].label@ == "Import\u{2026}"@,
        r@[2].action == SshHostsSettingsPageAction::ImportMetadata,
{
    let mut buttons: Vec<PageButton> = Vec::new();
    buttons.push(
        PageButton {
            label: "Refresh".to_owned(),
            action: SshHostsSettingsPageAction::RefreshDiagnostics,
        },
    );
    buttons.push(
        PageButton {
            label: "Export\u{2026}".to_owned(),
            action: SshHostsSettingsPageAction::ExportMetadata,
        },
    );
    buttons.push(
        PageButton {
            label: "Import\u{2026}".to_owned(),
            action: SshHostsSettingsPageAction::ImportMetadata,
        },
    );
    buttons
}

/// The record of an alias.
pub open spec fn record_for(
    records: Map<Seq<char>, Metadata>,
    alias: Seq<char>,
) -> Option<Metadata> {
    if records.dom().contains(alias) {
        Some(records[alias])
    } else {
        None
    }
}

/// The views of a list of rows.
pub open spec fn row_views(rows: Seq<HostRow>) -> Seq<Row> {
    rows.map_values(|r: HostRow| r@)
}

/// What is shown of the hosts, one row each, in their order.
pub open spec fn rows_of(hosts: Seq<Detail>, records: Map<Seq<char>, Metadata>) -> Seq<Row> {
    hosts.map_values(|d: Detail| row_of(d, record_for(records, d.alias)))
}

/// What is shown of the hosts.
pub fn host_rows(hosts: &[HostDetail], metadata: &SshHostsMetadataModel) -> (r: Vec<HostRow>)
    ensures
        row_views(r@) == rows_of(detail_views(hosts@), metadata@),
{
    let ghost all = rows_of(detail_views(hosts@), metadata@);
    let mut out: Vec<HostRow> = Vec::new();
    let mut i: usize = 0;
    while i < hosts.len()
        invariant
            i <= hosts@.len(),
            all == rows_of(detail_views(hosts@), metadata@),
            row_views(out@) == all.take(i as int),
        decreases hosts.len() - i,
    {
        let ghost before = row_views(out@);
        let row = host_row(&hosts[i], metadata.get(hosts[i].alias.as_str()));
        assert(detail_views(hosts@)[i as int] == hosts@[i as int]@);
        assert(all[i as int] == row@);
        out.push(row);
        assert(row_views(out@) =~= before.push(row@));
        assert(all.take(i + 1) =~= all.take(i as int).push(all[i as int]));
        i += 1;
    }
    assert(all.take(all.len() as int) =~= all);
    out
}

/// What is said of the agent.
pub open spec fn agent_text(status: SshAgentStatus) -> Seq<char> {
    match status {
        SshAgentStatus::Available { keys_loaded } => if keys_loaded == 1 {
            "Agent: 1 key loaded"@
        } else {
            "Agent: "@ + decimal(keys_loaded as nat) + " keys loaded"@
        },
        SshAgentStatus::NotConfigured => "Agent: not configured"@,
        SshAgentStatus::Stale => "Agent: stale socket"@,
    }
}

/// What is said of the agent.
pub fn agent_label(status: &SshAgentStatus) -> (r: String)
    ensures
        r@ == agent_text(*status),
{
    match status {
        SshAgentStatus::Available { keys_loaded } => if *keys_loaded == 1 {
            "Agent: 1 key loaded".to_owned()
        } else {
            let mut out = "Agent: ".to_owned();
            push_decimal(&mut out, *keys_loaded as u64);
            push_text(&mut out, " keys loaded");
            out
        },
        SshAgentStatus::NotConfigured => "Agent: not configured".to_owned(),
        SshAgentStatus::Stale => "Agent: stale socket".to_owned(),
    }
}

/// How many of the keys have their private key there.
pub open spec fn private_count(identities: Seq<SshIdentity>) -> int
    decreases identities.len(),
{
    if identities.len() == 0 {
        0
    } else {
        private_count(identities.drop_last()) + if identities.last().has_private_key {
            1int
        } else {
            0
        }
    }
}

/// What is said of the keys.
pub open spec fn identities_text(identities: Seq<SshIdentity>) -> Seq<char> {
    let n = identities.len() as int;
    let p = private_count(identities);
    if n == 0 {
        "Keys in ~/.ssh: none visible"@
    } else if n == p {
        "Keys in ~/.ssh: "@ + decimal(n as nat)
    } else {
        "Keys in ~/.ssh: "@ + decimal(n as nat) + " ("@ + decimal((n - p) as nat)
            + " private-key-only)"@
    }
}

/// What is said of the keys.
pub fn identities_label(identities: &[SshIdentity]) -> (r: String)
    ensures
        r@ == identities_text(identities@),
{
    let n: usize = identities.len();
    let mut p: usize = 0;
    let mut i: usize = 0;
    while i < n
        invariant
            n == identities@.len(),
            i <= n,
            p <= i,
            p == private_count(identities@.take(i as int)),
        decreases n - i,
    {
        assert(identities@.take(i + 1).drop_last() =~= identities@.take(i as int));
        if identities[i].has_private_key {
            p += 1;
        }
        i += 1;
    }
    assert(identities@.take(n as int) =~= identities@);
    if n == 0 {
        return "Keys in ~/.ssh: none visible".to_owned();
    }
    let mut out = "Keys in ~/.ssh: ".to_owned();
    push_decimal(&mut out, n as u64);
    if n != p {
        push_text(&mut out, " (");
        push_decimal(&mut out, (n - p) as u64);
        push_text(&mut out, " private-key-only)");
    }
    assert(out@ =~= identities_text(identities@));
    out
}

/// What the page shows.
#[derive(Debug, PartialEq, Eq)]
pub struct PageContent {
    /// The heading of the page.
    pub title: String,
    /// What the page is about.
    pub description: String,
    /// How the agent is.
    pub agent_label: String,
    /// Which keys there are.
    pub identities_label: String,
    /// The hosts.
    pub rows: Vec<HostRow>,
    /// What stands in place of hosts where there are none.
    pub empty_state: Option<String>,
}

/// What the page is about.
pub open spec fn description_text() -> Seq<char> {
    "Hosts found in your ~/.ssh/config. Edit the file directly to add, remove, or rename hosts; this list refreshes automatically when the file changes on disk."@
}

/// What stands in place of hosts where there are none.
pub open spec fn empty_state_text() -> Seq<char> {
    "No SSH hosts found. Add a `Host` block to ~/.ssh/config to populate this list."@
}

/// What the settings search finds the page by.
pub fn search_terms() -> (r: &'static str)
    ensures
        r@ == "ssh hosts remote connection config alias hostname proxy identity"@,
{
    "ssh hosts remote connection config alias hostname proxy identity"
}

/// A field of the dialog as it is shown.
#[derive(Debug, PartialEq, Eq)]
pub struct DialogField {
    pub label: String,
    /// What stands in the field while it is empty.
    pub placeholder: String,
    pub text: String,
}

/// Whether a field shows these texts.
pub open spec fn shows(
    f: DialogField,
    label: Seq<char>,
    placeholder: Seq<char>,
    text: Seq<char>,
) -> bool {
    f.label@ == label && f.placeholder@ == placeholder && f.text@ == text
}

/// Whether these are the fields of the dialog.
pub open spec fn shows_form(fields: Seq<DialogField>, form: Form) -> bool {
    &&& fields.len() == 4
    &&& shows(
        fields[0],
        "Display name"@,
        "Custom name shown instead of the alias"@,
        form.display_name,
    )
    &&& shows(fields[1], "Notes"@, "Free-text notes about this host"@, form.notes)
    &&& shows(
        fields[2],
        "Tags (comma-separated)"@,
        "Comma-separated tags, e.g. prod, us-east"@,
        form.tags,
    )
    &&& shows(fields[3], "Color (hex, e.g. #ff5733)"@, "Hex color, e.g. #ff5733"@, form.color)
}

/// The dialog as it is shown.
#[derive(Debug, PartialEq, Eq)]
pub struct DialogContent {
    pub title: String,
    pub fields: Vec<DialogField>,
}

/// A field of the dialog.
fn field(label: &str, placeholder: &str, text: &str) -> (r: DialogField)
    ensures
        shows(r, label@, placeholder@, text@),
{
    DialogField {
        label: label.to_owned(),
        placeholder: placeholder.to_owned(),
        text: text.to_owned(),
    }
}

/// The settings page.
#[derive(Debug)]
pub struct SshHostsSettingsPageView {
    rows: usize,
    metadata_edit_dialog: SshHostsMetadataEditDialog,
    agent_status: SshAgentStatus,
    identities: Vec<SshIdentity>,
}

/// A [`SshHostsSettingsPageView`] as a mathematical value.
#[verifier::ext_equal]
pub struct Page {
    /// For how many rows there is state, such as where the mouse is.
    pub rows: nat,
    pub dialog: Dialog,
    pub agent_status: SshAgentStatus,
    pub identities: Seq<SshIdentity>,
}

impl View for SshHostsSettingsPageView {
    type V = Page;

    closed spec fn view(&self) -> Page {
        Page {
            rows: self.rows as nat,
            dialog: self.metadata_edit_dialog@,
            agent_status: self.agent_status,
            identities: self.identities@,
        }
    }
}

/// Whether `effect` and `after` are what an action leads to.
pub open spec fn acts(
    before: Page,
    records: Map<Seq<char>, Metadata>,
    home: Option<Seq<char>>,
    action: SshHostsSettingsPageAction,
    effect: PageEffect,
    after: Page,
) -> bool {
    match action {
        SshHostsSettingsPageAction::OpenMetadataEditor(alias) => {
            &&& effect == PageEffect::Redraw
            &&& after == (Page {
                dialog: dialog_for(alias@, record_for(records, alias@)),
                ..before
            })
        },
        SshHostsSettingsPageAction::ExportMetadata => {
            &&& effect matches PageEffect::PickExportFile { default_filename, default_directory }
            &&& default_filename@ == export_filename()
            &&& string_view(default_directory) == home
            &&& after == before
        },
        SshHostsSettingsPageAction::ImportMetadata => {
            effect == PageEffect::PickImportFile && after == before
        },
        SshHostsSettingsPageAction::RefreshDiagnostics => {
            effect == PageEffect::ProbeDiagnostics && after == before
        },
    }
}

impl SshHostsSettingsPageView {
    /// The page for these hosts, with what is known of the agent and the keys.
    pub fn new(
        hosts: &[HostDetail],
        agent_status: SshAgentStatus,
        identities: Vec<SshIdentity>,
    ) -> (r: Self)
        ensures
            r@ == (Page {
                rows: hosts@.len(),
                dialog: (Dialog { visible: false, alias: None, form: empty_form() }),
                agent_status,
                identities: identities@,
            }),
    {
        SshHostsSettingsPageView {
            rows: hosts.len(),
            metadata_edit_dialog: SshHostsMetadataEditDialog::new(),
            agent_status,
            identities,
        }
    }

    /// For how many rows there is state.
    pub fn row_count(&self) -> (r: usize)
        ensures
            r == self@.rows,
    {
        self.rows
    }

    /// The dialog.
    pub fn dialog(&self) -> (r: &SshHostsMetadataEditDialog)
        ensures
            r@ == self@.dialog,
    {
        &self.metadata_edit_dialog
    }

    /// Takes over what the user typed into the dialog.
    pub fn set_form(&mut self, form: MetadataForm)
        ensures
            final(self)@ == (Page {
                dialog: (Dialog { form: form@, ..old(self)@.dialog }),
                ..old(self)@
            }),
    {
        self.metadata_edit_dialog.set_form(form);
    }

    /// Follows a change of the hosts.
    pub fn hosts_updated(&mut self, new_hosts: &[HostDetail])
        ensures
            final(self)@ == (Page { rows: new_hosts@.len(), ..old(self)@ }),
    {
        self.rows = new_hosts.len();
    }

    /// Takes over the outcome of a probe.
    pub fn set_diagnostics(&mut self, agent_status: SshAgentStatus, identities: Vec<SshIdentity>)
        ensures
            final(self)@ == (Page { agent_status, identities: identities@, ..old(self)@ }),
    {
        self.agent_status = agent_status;
        self.identities = identities;
    }

    /// Carries out what the user did, as far as the page can, and returns what is left
    /// to do. `home` is the home directory where it is known.
    pub fn handle_action(
        &mut self,
        action: &SshHostsSettingsPageAction,
        metadata: &SshHostsMetadataModel,
        home: Option<&str>,
    ) -> (r: PageEffect)
        ensures
            acts(old(self)@, metadata@, str_view(home), *action, r, final(self)@),
    {
        match action {
            SshHostsSettingsPageAction::OpenMetadataEditor(alias) => {
                self.metadata_edit_dialog.show(alias.clone(), metadata.get(alias.as_str()));
                PageEffect::Redraw
            },
            SshHostsSettingsPageAction::ExportMetadata => PageEffect::PickExportFile {
                default_filename: "ssh_hosts_metadata.toml".to_owned(),
                default_directory: match home {
                    Some(dir) => Some(dir.to_owned()),
                    None => None,
                },
            },
            SshHostsSettingsPageAction::ImportMetadata => PageEffect::PickImportFile,
            SshHostsSettingsPageAction::RefreshDiagnostics => PageEffect::ProbeDiagnostics,
        }
    }

    /// Follows the way the user closed the dialog: a saved record is set, and the
    /// dialog is hidden either way.
    pub fn handle_metadata_edit_dialog_event(
        &mut self,
        event: SshHostsMetadataEditDialogEvent,
        metadata: &mut SshHostsMetadataModel,
    ) -> (r: Option<SshHostsMetadataEvent>)
        ensures
            final(self)@ == (Page { dialog: hidden(old(self)@.dialog), ..old(self)@ }),
            final(metadata)@ == match event {
                SshHostsMetadataEditDialogEvent::Save { alias, metadata: m } => with_record(
                    old(metadata)@,
                    alias@,
                    m@,
                ),
                SshHostsMetadataEditDialogEvent::Cancel => old(metadata)@,
            },
            r is Some <==> final(metadata)@ != old(metadata)@,
    {
        let changed: Option<SshHostsMetadataEvent> = match event {
            SshHostsMetadataEditDialogEvent::Save { alias, metadata: m } => metadata.set(alias, m),
            SshHostsMetadataEditDialogEvent::Cancel => None,
        };
        self.metadata_edit_dialog.close();
        changed
    }

    /// The dialog as it is shown, where it is.
    pub fn get_modal_content(&self) -> (r: Option<DialogContent>)
        ensures
            match r {
                Some(content) => self@.dialog.visible && content.title@ == dialog_title(
                    self@.dialog.alias,
                ) && shows_form(content.fields@, self@.dialog.form),
                None => !self@.dialog.visible,
            },
    {
        if !self.metadata_edit_dialog.is_visible() {
            return None;
        }
        let form = self.metadata_edit_dialog.form();
        let mut fields: Vec<DialogField> = Vec::new();
        fields.push(
            field(
                "Display name",
                "Custom name shown instead of the alias",
                form.display_name.as_str(),
            ),
        );
        fields.push(field("Notes", "Free-text notes about this host", form.notes.as_str()));
        fields.push(
            field(
                "Tags (comma-separated)",
                "Comma-separated tags, e.g. prod, us-east",
                form.tags.as_str(),
            ),
        );
        fields.push(
            field("Color (hex, e.g. #ff5733)", "Hex color, e.g. #ff5733", form.color.as_str()),
        );
        Some(DialogContent { title: self.metadata_edit_dialog.title(), fields })
    }

    /// What the page shows.
    pub fn content(&self, hosts: &[HostDetail], metadata: &SshHostsMetadataModel) -> (r:
        PageContent)
        ensures
            r.title@ == "SSH hosts"@,
            r.description@ == description_text(),
            r.agent_label@ == agent_text(self@.agent_status),
            r.identities_label@ == identities_text(self@.identities),
            row_views(r.rows@) == rows_of(detail_views(hosts@), metadata@),
            string_view(r.empty_state) == if hosts@.len() == 0 {
                Some(empty_state_text())
            } else {
                None
            },
    {
        let empty_state: Option<String> = if hosts.len() == 0 {
            Some(
                "No SSH hosts found. Add a `Host` block to ~/.ssh/config to populate this list.".to_owned(),
            )
        } else {
            None
        };
        PageContent {
            title: "SSH hosts".to_owned(),
            description:
                "Hosts found in your ~/.ssh/config. Edit the file directly to add, remove, or rename hosts; this list refreshes automatically when the file changes on disk.".to_owned(),
            agent_label: agent_label(&self.agent_status),
            identities_label: identities_label(self.identities.as_slice()),
            rows: host_rows(hosts, metadata),
            empty_state,
        }
    }
}

/// The file to read after the user was asked to choose: the first of the chosen ones, and
/// none where nothing was chosen or the choice failed.
pub fn import_choice<E>(chosen: Result<Vec<String>, E>) -> (r: Option<String>)
    ensures
        string_view(r) == match chosen {
            Ok(paths) => if paths@.len() > 0 {
                Some(paths@[0]@)
            } else {
                None
            },
            Err(_) => None,
        },
{
    match chosen {
        Ok(paths) => if paths.len() > 0 {
            Some(paths[0].clone())
        } else {
            None
        },
        Err(_) => None,
    }
}

/// A short message to the user.
#[derive(Debug, PartialEq, Eq)]
pub struct Toast {
    /// Whether it tells of a failure.
    pub is_error: bool,
    pub text: String,
}

/// What the user is told after an export of so many bytes to `path`, or of its
/// failure.
pub fn export_toast(path: &str, result: &Result<usize, String>) -> (r: Toast)
    ensures
        match *result {
            Ok(bytes) => !r.is_error && r.text@ == "Exported SSH host metadata to "@ + path@ + " ("@
                + decimal(bytes as nat) + " bytes)."@,
            Err(err) => r.is_error && r.text@ == "Export failed: "@ + err@,
        },
{
    match result {
        Ok(bytes) => {
            let mut text = line("Exported SSH host metadata to ", path);
            push_text(&mut text, " (");
            push_decimal(&mut text, *bytes as u64);
            push_text(&mut text, " bytes).");
            Toast { is_error: false, text }
        },
        Err(err) => Toast { is_error: true, text: line("Export failed: ", err.as_str()) },
    }
}

/// What the user is told after an import.
pub open spec fn imported_text(path: Seq<char>, result: ImportResult) -> Seq<char> {
    if result.imported_new + result.overwritten + result.unchanged == 0 {
        "Imported from "@ + path + ": no host records found."@
    } else {
        "Imported from "@ + path + ": "@ + decimal(result.imported_new as nat) + " new, "@
            + decimal(result.overwritten as nat) + " overwritten, "@ + decimal(
            result.unchanged as nat,
        ) + " unchanged."@
    }
}

/// What the user is told after an import from `path`, or of its failure.
pub fn import_toast(path: &str, result: &Result<ImportResult, String>) -> (r: Toast)
    ensures
        match *result {
            Ok(import) => !r.is_error && r.text@ == imported_text(path@, import),
            Err(err) => r.is_error && r.text@ == "Import failed: "@ + err@,
        },
{
    match result {
        Ok(import) => {
            let mut text = line("Imported from ", path);
            if import.imported_new == 0 && import.overwritten == 0 && import.unchanged == 0 {
                push_text(&mut text, ": no host records found.");
            } else {
                push_text(&mut text, ": ");
                push_decimal(&mut text, import.imported_new as u64);
                push_text(&mut text, " new, ");
                push_decimal(&mut text, import.overwritten as u64);
                push_text(&mut text, " overwritten, ");
                push_decimal(&mut text, import.unchanged as u64);
                push_text(&mut text, " unchanged.");
            }
            Toast { is_error: false, text }
        },
        Err(err) => Toast { is_error: true, text: line("Import failed: ", err.as_str()) },
    }
}

/// A host always has something to show as its target, unless both its alias and its
/// host name are empty.
pub proof fn law_target_is_shown(d: Detail)
    requires
        d.alias.len() > 0,
        d.hostname is Some ==> d.hostname->0.len() > 0,
    ensures
        unless_empty(target_text(d)) == Some(target_text(d)),
{
}

/// Whatever the user keeps about a host, a click on its row connects to its alias in a
/// new terminal, the heading is the given name or else the alias, and the alias stands
/// below the heading exactly where a name is given.
pub proof fn law_click_connects_to_the_alias(
    d: Detail,
    metadata: Option<Metadata>,
    actions: Seq<RowAction>,
)
    requires
        connects(actions, d.alias),
    ensures
        ({
            let row = row_of(d, metadata);
            let name = match metadata {
                Some(m) => m.display_name,
                None => None,
            };
            &&& actions[0] == (RowAction::AddTerminalTab { hide_homepage: true })
            &&& actions[1] matches RowAction::RunCommand(command)
            &&& command@ == row.command
            &&& row.command == "ssh "@ + d.alias
            &&& name is Some ==> row.label == name->0 && row.alias_line == Some(
                "alias: "@ + d.alias,
            )
            &&& name is None ==> row.label == d.alias && row.alias_line is None
        }),
{
}

/// Opening the dialog and saving at once changes no record: neither where there is
/// one that the user could have typed, nor where there is none.
pub proof fn law_open_then_save_changes_nothing(
    records: Map<Seq<char>, Metadata>,
    alias: Seq<char>,
)
    requires
        records.dom().contains(alias) ==> typed(records[alias]) && records[alias] != blank(),
    ensures
        with_record(
            records,
            alias,
            record_of(dialog_for(alias, record_for(records, alias)).form),
        ) == records,
{
    if records.dom().contains(alias) {
        law_show_then_save_keeps_the_record(alias, records[alias]);
        assert(records.insert(alias, records[alias]) =~= records);
    } else {
        reveal_strlit(", ");
        law_show_then_save_keeps_the_record(alias, blank());
        assert(form_of(blank()) =~= empty_form());
        assert(records.remove(alias) =~= records);
    }
}

} // verus!
