//! The dialog in which the user edits what is kept about a host.

use vstd::prelude::*;

use crate::metadata::{HostMetadata, Metadata};
use crate::text::{
    is_space, is_trimmed, join, joined, lemma_split_on_adds, lemma_split_on_single,
    lemma_trim_fixes_trimmed, lemma_trim_is_trimmed, push_text, slices, split, split_on,
    string_view, texts, to_chars, to_text, trim, trimmed,
};

verus! {

/// The text without white space at its ends, or nothing where nothing is left.
pub open spec fn filled(s: Seq<char>) -> Option<Seq<char>> {
    if trim(s).len() == 0 {
        None
    } else {
        Some(trim(s))
    }
}

/// The text without white space at its ends, or `None` where nothing is left.
pub fn trimmed_or_none(s: &str) -> (r: Option<String>)
    ensures
        string_view(r) == filled(s@),
{
    let chars = to_chars(s);
    let rest = trimmed(chars.as_slice());
    if rest.len() == 0 {
        None
    } else {
        Some(to_text(rest))
    }
}

/// The pieces that are not blank, trimmed, in order.
pub open spec fn nonblank(pieces: Seq<Seq<char>>) -> Seq<Seq<char>>
    decreases pieces.len(),
{
    if pieces.len() == 0 {
        Seq::empty()
    } else {
        let before = nonblank(pieces.drop_last());
        match filled(pieces.last()) {
            Some(tag) => before.push(tag),
            None => before,
        }
    }
}

/// The tags of a comma-separated list.
pub open spec fn tags_of(s: Seq<char>) -> Seq<Seq<char>> {
    nonblank(split_on(s, ','))
}

/// The tags of a comma-separated list: trimmed, without blank ones, in the order of
/// the list, repetitions included.
pub fn parse_tag_list(s: &str) -> (r: Vec<String>)
    ensures
        texts(r@) == tags_of(s@),
{
    let chars = to_chars(s);
    let pieces = split(chars.as_slice(), ',');
    let ghost all = split_on(s@, ',');
    let mut out: Vec<String> = Vec::new();
    let mut i: usize = 0;
    assert(texts(out@) =~= Seq::<Seq<char>>::empty());
    while i < pieces.len()
        invariant
            i <= pieces@.len(),
            all == slices(pieces@),
            texts(out@) == nonblank(all.take(i as int)),
        decreases pieces.len() - i,
    {
        let ghost before = texts(out@);
        assert(all[i as int] == pieces@[i as int]@);
        assert(all.take(i + 1).drop_last() =~= all.take(i as int));
        let tag = trimmed(pieces[i]);
        if tag.len() > 0 {
            out.push(to_text(tag));
            assert(texts(out@) =~= before.push(tag@));
        }
        i += 1;
    }
    assert(all.take(all.len() as int) =~= all);
    out
}

/// What the fields of the dialog hold, as the user sees and types it.
#[derive(Debug, PartialEq, Eq)]
pub struct MetadataForm {
    pub display_name: String,
    pub notes: String,
    /// The tags, separated by commas.
    pub tags: String,
    pub color: String,
}

/// A [`MetadataForm`] as a mathematical value.
#[verifier::ext_equal]
pub struct Form {
    pub display_name: Seq<char>,
    pub notes: Seq<char>,
    pub tags: Seq<char>,
    pub color: Seq<char>,
}

impl View for MetadataForm {
    type V = Form;

    open spec fn view(&self) -> Form {
        Form {
            display_name: self.display_name@,
            notes: self.notes@,
            tags: self.tags@,
            color: self.color@,
        }
    }
}

/// The text, or an empty one.
pub open spec fn or_empty(o: Option<Seq<char>>) -> Seq<char> {
    match o {
        Some(s) => s,
        None => Seq::empty(),
    }
}

/// The fields without content.
pub open spec fn empty_form() -> Form {
    Form {
        display_name: Seq::empty(),
        notes: Seq::empty(),
        tags: Seq::empty(),
        color: Seq::empty(),
    }
}

/// The fields filled from a record.
pub open spec fn form_of(m: Metadata) -> Form {
    Form {
        display_name: or_empty(m.display_name),
        notes: or_empty(m.notes),
        tags: joined(m.tags, ", "@),
        color: or_empty(m.color),
    }
}

/// The record that the fields stand for.
pub open spec fn record_of(f: Form) -> Metadata {
    Metadata {
        display_name: filled(f.display_name),
        notes: filled(f.notes),
        tags: tags_of(f.tags),
        color: filled(f.color),
    }
}

impl MetadataForm {
    /// Fields without content.
    pub fn empty() -> (r: Self)
        ensures
            r@ == empty_form(),
    {
        MetadataForm {
            display_name: String::new(),
            notes: String::new(),
            tags: String::new(),
            color: String::new(),
        }
    }

    /// Fields filled from a record.
    pub fn from_metadata(m: &HostMetadata) -> (r: Self)
        ensures
            r@ == form_of(m@),
    {
        MetadataForm {
            display_name: text_or_empty(&m.display_name),
            notes: text_or_empty(&m.notes),
            tags: join(&m.tags, ", "),
            color: text_or_empty(&m.color),
        }
    }
}

/// The text, or an empty one.
fn text_or_empty(o: &Option<String>) -> (r: String)
    ensures
        r@ == or_empty(string_view(*o)),
{
    match o {
        Some(s) => s.clone(),
        None => String::new(),
    }
}

/// How the user closes the dialog.
#[derive(Debug, PartialEq, Eq)]
pub enum SshHostsMetadataEditDialogEvent {
    /// The record is to be set, and the dialog hidden.
    Save { alias: String, metadata: HostMetadata },
    /// The dialog is to be hidden.
    Cancel,
}

/// What the user does in the dialog.
#[derive(Debug, Clone, Copy, PartialEq, Eq, Structural)]
pub enum SshHostsMetadataEditDialogAction {
    Cancel,
    Save,
}

/// A button of the dialog.
#[derive(Debug, PartialEq, Eq)]
pub struct DialogButton {
    pub label: String,
    /// What a click does.
    pub action: SshHostsMetadataEditDialogAction,
}

/// The buttons of the dialog, in the order in which they stand.
pub fn dialog_buttons() -> (r: Vec<DialogButton>)
    ensures
        r@.len() == 2,
        r@[0].label@ == "Cancel"@,
        r@[0].action == SshHostsMetadataEditDialogAction::Cancel,
        r@[1].label@ == "Save"@,
        r@[1].action == SshHostsMetadataEditDialogAction::Save,
{
    let mut buttons: Vec<DialogButton> = Vec::new();
    buttons.push(
        DialogButton {
            label: "Cancel".to_owned(),
            action: SshHostsMetadataEditDialogAction::Cancel,
        },
    );
    buttons.push(
        DialogButton { label: "Save".to_owned(), action: SshHostsMetadataEditDialogAction::Save },
    );
    buttons
}

/// What dismissing the dialog does, by key or by a click beside it: it cancels.
pub fn dismiss_action() -> (r: SshHostsMetadataEditDialogAction)
    ensures
        r == SshHostsMetadataEditDialogAction::Cancel,
{
    SshHostsMetadataEditDialogAction::Cancel
}

/// What Enter in one of the fields does: it saves.
pub fn submit_action() -> (r: SshHostsMetadataEditDialogAction)
    ensures
        r == SshHostsMetadataEditDialogAction::Save,
{
    SshHostsMetadataEditDialogAction::Save
}

/// The dialog.
#[derive(Debug)]
pub struct SshHostsMetadataEditDialog {
    visible: bool,
    alias: Option<String>,
    form: MetadataForm,
}

/// A [`SshHostsMetadataEditDialog`] as a mathematical value.
#[verifier::ext_equal]
pub struct Dialog {
    pub visible: bool,
    pub alias: Option<Seq<char>>,
    pub form: Form,
}

impl View for SshHostsMetadataEditDialog {
    type V = Dialog;

    closed spec fn view(&self) -> Dialog {
        Dialog { visible: self.visible, alias: string_view(self.alias), form: self.form@ }
    }
}

/// The view of an optional record behind a reference.
pub open spec fn metadata_view(o: Option<&HostMetadata>) -> Option<Metadata> {
    match o {
        Some(m) => Some(m@),
        None => None,
    }
}

/// The dialog, open for an alias, with the fields filled from its record.
pub open spec fn dialog_for(alias: Seq<char>, record: Option<Metadata>) -> Dialog {
    Dialog {
        visible: true,
        alias: Some(alias),
        form: match record {
            Some(m) => form_of(m),
            None => empty_form(),
        },
    }
}

/// The dialog once it is hidden.
pub open spec fn hidden(d: Dialog) -> Dialog {
    Dialog { visible: false, alias: None, ..d }
}

/// What an action of the user amounts to. Saving without an alias is cancelling.
pub open spec fn resolves(
    d: Dialog,
    action: SshHostsMetadataEditDialogAction,
    event: SshHostsMetadataEditDialogEvent,
) -> bool {
    match event {
        SshHostsMetadataEditDialogEvent::Save { alias, metadata } => {
            &&& action == SshHostsMetadataEditDialogAction::Save
            &&& d.alias == Some(alias@)
            &&& metadata@ == record_of(d.form)
        },
        SshHostsMetadataEditDialogEvent::Cancel => action
            == SshHostsMetadataEditDialogAction::Cancel || d.alias is None,
    }
}

/// The heading of the dialog.
pub open spec fn dialog_title(alias: Option<Seq<char>>) -> Seq<char> {
    match alias {
        Some(a) => "Edit metadata · "@ + a,
        None => "Edit metadata"@,
    }
}

impl SshHostsMetadataEditDialog {
    /// A dialog that is hidden.
    pub fn new() -> (r: Self)
        ensures
            r@ == (Dialog { visible: false, alias: None, form: empty_form() }),
    {
        SshHostsMetadataEditDialog { visible: false, alias: None, form: MetadataForm::empty() }
    }

    /// Opens the dialog for an alias, with the fields filled from its record.
    pub fn show(&mut self, alias: String, metadata: Option<&HostMetadata>)
        ensures
            final(self)@ == dialog_for(alias@, metadata_view(metadata)),
    {
        self.form = match metadata {
            Some(m) => MetadataForm::from_metadata(m),
            None => MetadataForm::empty(),
        };
        self.alias = Some(alias);
        self.visible = true;
    }

    /// Hides the dialog.
    pub fn close(&mut self)
        ensures
            final(self)@ == hidden(old(self)@),
    {
        self.visible = false;
        self.alias = None;
    }

    /// Whether the dialog is shown.
    pub fn is_visible(&self) -> (r: bool)
        ensures
            r == self@.visible,
    {
        self.visible
    }

    /// What the fields hold.
    pub fn form(&self) -> (r: &MetadataForm)
        ensures
            r@ == self@.form,
    {
        &self.form
    }

    /// Takes over what the user typed.
    pub fn set_form(&mut self, form: MetadataForm)
        ensures
            final(self)@ == (Dialog { form: form@, ..old(self)@ }),
    {
        self.form = form;
    }

    /// The record that the fields stand for.
    pub fn collect_metadata(&self) -> (r: HostMetadata)
        ensures
            r@ == record_of(self@.form),
    {
        HostMetadata {
            display_name: trimmed_or_none(self.form.display_name.as_str()),
            notes: trimmed_or_none(self.form.notes.as_str()),
            tags: parse_tag_list(self.form.tags.as_str()),
            color: trimmed_or_none(self.form.color.as_str()),
        }
    }

    /// What an action of the user amounts to.
    pub fn handle_action(&self, action: &SshHostsMetadataEditDialogAction) -> (r:
        SshHostsMetadataEditDialogEvent)
        ensures
            resolves(self@, *action, r),
    {
        match action {
            SshHostsMetadataEditDialogAction::Cancel => SshHostsMetadataEditDialogEvent::Cancel,
            SshHostsMetadataEditDialogAction::Save => match &self.alias {
                None => SshHostsMetadataEditDialogEvent::Cancel,
                Some(alias) => SshHostsMetadataEditDialogEvent::Save {
                    alias: alias.clone(),
                    metadata: self.collect_metadata(),
                },
            },
        }
    }

    /// The heading of the dialog.
    pub fn title(&self) -> (r: String)
        ensures
            r@ == dialog_title(self@.alias),
    {
        match &self.alias {
            Some(alias) => {
                let mut out = "Edit metadata · ".to_owned();
                push_text(&mut out, alias.as_str());
                out
            },
            None => "Edit metadata".to_owned(),
        }
    }
}

/// Whether a tag can stand in a comma-separated list.
pub open spec fn plain_tag(tag: Seq<char>) -> bool {
    tag.len() > 0 && is_trimmed(tag) && !tag.contains(',')
}

/// Whether every text of a record is one that the user could have typed: not blank,
/// without white space at its ends, and without commas in tags.
pub open spec fn typed(m: Metadata) -> bool {
    &&& m.display_name is Some ==> m.display_name->0.len() > 0 && is_trimmed(m.display_name->0)
    &&& m.notes is Some ==> m.notes->0.len() > 0 && is_trimmed(m.notes->0)
    &&& m.color is Some ==> m.color->0.len() > 0 && is_trimmed(m.color->0)
    &&& forall|i: int| 0 <= i < m.tags.len() ==> plain_tag(#[trigger] m.tags[i])
}

proof fn lemma_filled_or_empty(o: Option<Seq<char>>)
    requires
        o is Some ==> o->0.len() > 0 && is_trimmed(o->0),
    ensures
        filled(or_empty(o)) == o,
{
    if o is Some {
        lemma_trim_fixes_trimmed(o->0);
    }
}

proof fn lemma_tags_read_back(tags: Seq<Seq<char>>)
    requires
        forall|i: int| 0 <= i < tags.len() ==> plain_tag(#[trigger] tags[i]),
    ensures
        tags_of(joined(tags, ", "@)) == tags,
    decreases tags.len(),
{
    reveal_strlit(", ");
    let whole = joined(tags, ", "@);
    if tags.len() == 0 {
        assert(split_on(whole, ',') =~= seq![Seq::<char>::empty()]);
        let pieces = seq![Seq::<char>::empty()];
        assert(pieces.drop_last() =~= Seq::<Seq<char>>::empty());
        assert(nonblank(pieces.drop_last()) =~= Seq::<Seq<char>>::empty());
        assert(trim(Seq::<char>::empty()) =~= Seq::<char>::empty());
        assert(nonblank(pieces) =~= tags);
    } else if tags.len() == 1 {
        let tag = tags[0];
        lemma_split_on_single(tag, ',');
        lemma_trim_fixes_trimmed(tag);
        let pieces = seq![tag];
        assert(pieces.drop_last() =~= Seq::<Seq<char>>::empty());
        assert(nonblank(pieces.drop_last()) =~= Seq::<Seq<char>>::empty());
        assert(nonblank(pieces) =~= tags);
    } else {
        let front = tags.drop_last();
        let tag = tags.last();
        assert(tag == tags[tags.len() - 1]);
        assert forall|i: int| 0 <= i < front.len() implies plain_tag(#[trigger] front[i]) by {
            assert(front[i] == tags[i]);
        }
        lemma_tags_read_back(front);
        let head = joined(front, ", "@);
        let piece = seq![' '] + tag;
        assert(!piece.contains(',')) by {
            if piece.contains(',') {
                let i = choose|i: int| 0 <= i < piece.len() && piece[i] == ',';
                assert(tag[i - 1] == ',');
            }
        }
        assert(whole =~= head.push(',') + piece);
        lemma_split_on_adds(head, piece, ',');
        assert(trim(piece) == tag) by {
            assert(is_space(' '));
            assert(piece.drop_first() =~= tag);
            lemma_trim_fixes_trimmed(tag);
        }
        let pieces = split_on(head, ',');
        assert(pieces.push(piece).drop_last() =~= pieces);
        assert(front.push(tag) =~= tags);
    }
}

/// Opening the dialog for a record and saving it as it is gives the record back.
pub proof fn law_show_then_save_keeps_the_record(alias: Seq<char>, m: Metadata)
    requires
        typed(m),
    ensures
        record_of(dialog_for(alias, Some(m)).form) == m,
{
    lemma_filled_or_empty(m.display_name);
    lemma_filled_or_empty(m.notes);
    lemma_filled_or_empty(m.color);
    lemma_tags_read_back(m.tags);
    assert(record_of(form_of(m)) =~= m);
}

/// Whatever the user types, what is saved could have been typed as it is: saving is
/// settled after the first time.
pub proof fn law_saved_records_are_settled(f: Form)
    ensures
        typed(record_of(f)),
        record_of(form_of(record_of(f))) == record_of(f),
{
    lemma_filled_is_typed(f.display_name);
    lemma_filled_is_typed(f.notes);
    lemma_filled_is_typed(f.color);
    lemma_split_pieces_plain(f.tags);
    lemma_nonblank_plain(split_on(f.tags, ','));
    law_show_then_save_keeps_the_record(Seq::empty(), record_of(f));
}

proof fn lemma_filled_is_typed(s: Seq<char>)
    ensures
        filled(s) is Some ==> filled(s)->0.len() > 0 && is_trimmed(filled(s)->0),
        filled(s) is Some && !s.contains(',') ==> !filled(s)->0.contains(','),
{
    lemma_trim_is_trimmed(s);
    if filled(s) is Some && !s.contains(',') {
        let t = trim(s);
        let (i, j) = choose|i: int, j: int|
            0 <= i <= j <= s.len() && trim(s) == #[trigger] s.subrange(i, j);
        if t.contains(',') {
            let k = choose|k: int| 0 <= k < t.len() && t[k] == ',';
            assert(s[i + k] == ',');
        }
    }
}

proof fn lemma_split_pieces_plain(s: Seq<char>)
    ensures
        forall|i: int|
            0 <= i < split_on(s, ',').len() ==> !(#[trigger] split_on(s, ',')[i]).contains(','),
        split_on(s, ',').len() > 0,
    decreases s.len(),
{
    if s.len() > 0 {
        let before = split_on(s.drop_last(), ',');
        lemma_split_pieces_plain(s.drop_last());
        let after = split_on(s, ',');
        assert forall|i: int| 0 <= i < after.len() implies !(#[trigger] after[i]).contains(',') by {
            if i < before.len() - 1 || s.last() == ',' {
                if i < before.len() {
                    assert(after[i] == before[i]);
                }
            } else {
                let last = before[before.len() - 1];
                assert(!last.contains(','));
                assert(after[i] == last.push(s.last()));
                if after[i].contains(',') {
                    let k = choose|k: int| 0 <= k < after[i].len() && after[i][k] == ',';
                    assert(last[k] == ',');
                }
            }
        }
    }
}

proof fn lemma_nonblank_plain(pieces: Seq<Seq<char>>)
    requires
        forall|i: int| 0 <= i < pieces.len() ==> !(#[trigger] pieces[i]).contains(','),
    ensures
        forall|i: int|
            0 <= i < nonblank(pieces).len() ==> plain_tag(#[trigger] nonblank(pieces)[i]),
    decreases pieces.len(),
{
    if pieces.len() > 0 {
        let front = pieces.drop_last();
        assert forall|i: int| 0 <= i < front.len() implies !(#[trigger] front[i]).contains(
            ',',
        ) by {
            assert(front[i] == pieces[i]);
        }
        lemma_nonblank_plain(front);
        assert(!pieces[pieces.len() - 1].contains(','));
        lemma_filled_is_typed(pieces.last());
        let before = nonblank(front);
        let after = nonblank(pieces);
        assert forall|i: int| 0 <= i < after.len() implies plain_tag(#[trigger] after[i]) by {
            if i < before.len() {
                assert(after[i] == before[i]);
            }
        }
    }
}

} // verus!
