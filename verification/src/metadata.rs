//! What the user keeps about each host: a name to show, notes, tags and a color.
//!
//! The records are keyed by alias. Reading and writing files is left to the caller;
//! a [`SshHostsMetadataEvent`] says when there is something to write.

use vstd::prelude::*;

use crate::details::HostDetail;
use crate::text::{copy_text, copy_texts, same_option, same_text, same_texts, string_view, texts};

verus! {

/// What the user keeps about one host.
#[derive(Debug, PartialEq, Eq)]
pub struct HostMetadata {
    /// A name to show in place of the alias.
    pub display_name: Option<String>,
    /// Notes.
    pub notes: Option<String>,
    /// Tags.
    pub tags: Vec<String>,
    /// A color, such as `#ff5733`, as the user wrote it.
    pub color: Option<String>,
}

/// A [`HostMetadata`] as a mathematical value.
#[verifier::ext_equal]
pub struct Metadata {
    pub display_name: Option<Seq<char>>,
    pub notes: Option<Seq<char>>,
    pub tags: Seq<Seq<char>>,
    pub color: Option<Seq<char>>,
}

impl View for HostMetadata {
    type V = Metadata;

    open spec fn view(&self) -> Metadata {
        Metadata {
            display_name: string_view(self.display_name),
            notes: string_view(self.notes),
            tags: texts(self.tags@),
            color: string_view(self.color),
        }
    }
}

/// A record in which nothing is set.
pub open spec fn blank() -> Metadata {
    Metadata { display_name: None, notes: None, tags: Seq::empty(), color: None }
}

impl Default for HostMetadata {
    fn default() -> (r: Self)
        ensures
            r@ == blank(),
    {
        let r = HostMetadata { display_name: None, notes: None, tags: Vec::new(), color: None };
        assert(r@ =~= blank());
        r
    }
}

impl Clone for HostMetadata {
    fn clone(&self) -> (r: Self)
        ensures
            r@ == self@,
    {
        HostMetadata {
            display_name: copy_text(&self.display_name),
            notes: copy_text(&self.notes),
            tags: copy_texts(&self.tags),
            color: copy_text(&self.color),
        }
    }
}

impl HostMetadata {
    /// Whether nothing is set.
    pub fn is_empty(&self) -> (r: bool)
        ensures
            r == (self@ == blank()),
    {
        let r = self.display_name.is_none() && self.notes.is_none() && self.tags.len() == 0
            && self.color.is_none();
        assert(texts(self.tags@).len() == self.tags@.len());
        assert(r ==> self@ =~= blank());
        r
    }
}

/// Whether two records are the same.
pub fn same_metadata(a: &HostMetadata, b: &HostMetadata) -> (r: bool)
    ensures
        r == (a@ == b@),
{
    let r = same_option(&a.display_name, &b.display_name) && same_option(&a.notes, &b.notes)
        && same_texts(&a.tags, &b.tags) && same_option(&a.color, &b.color);
    assert(r ==> a@ =~= b@);
    r
}

/// The events that the store of metadata gives rise to.
#[derive(Debug, Clone, Copy, PartialEq, Eq, Structural)]
pub enum SshHostsMetadataEvent {
    /// Records changed: they are to be written, and whoever shows them is to look
    /// again.
    Updated,
}

/// What an import did.
#[derive(Debug, Clone, Copy, PartialEq, Eq, Structural)]
pub struct ImportResult {
    /// How many aliases had no record before.
    pub imported_new: usize,
    /// How many aliases had another record before.
    pub overwritten: usize,
    /// How many aliases had the same record before.
    pub unchanged: usize,
}

impl Default for ImportResult {
    fn default() -> (r: Self)
        ensures
            r.imported_new == 0,
            r.overwritten == 0,
            r.unchanged == 0,
    {
        ImportResult { imported_new: 0, overwritten: 0, unchanged: 0 }
    }
}

impl ImportResult {
    /// How many records were read.
    pub fn total(&self) -> (r: usize)
        requires
            self.imported_new + self.overwritten + self.unchanged <= usize::MAX,
        ensures
            r == self.imported_new + self.overwritten + self.unchanged,
    {
        self.imported_new + self.overwritten + self.unchanged
    }

    /// Whether a record was added or changed.
    pub fn touched_disk(&self) -> (r: bool)
        ensures
            r == (self.imported_new + self.overwritten > 0),
    {
        self.imported_new > 0 || self.overwritten > 0
    }
}

/// Whether no alias occurs twice.
pub open spec fn distinct(entries: Seq<(String, HostMetadata)>) -> bool {
    forall|i: int, j: int|
        0 <= i < j < entries.len() ==> (#[trigger] entries[i]).0@ != (#[trigger] entries[j]).0@
}

/// Whether there is an entry for `alias`.
pub open spec fn has_entry(entries: Seq<(String, HostMetadata)>, alias: Seq<char>) -> bool {
    exists|i: int| 0 <= i < entries.len() && (#[trigger] entries[i]).0@ == alias
}

/// The map that entries stand for.
pub open spec fn entries_map(entries: Seq<(String, HostMetadata)>) -> Map<Seq<char>, Metadata> {
    Map::new(
        |alias: Seq<char>| has_entry(entries, alias),
        |alias: Seq<char>|
            {
                let i = choose|i: int|
                    0 <= i < entries.len() && (#[trigger] entries[i]).0@ == alias;
                entries[i].1@
            },
    )
}

proof fn lemma_entry(entries: Seq<(String, HostMetadata)>, i: int)
    requires
        distinct(entries),
        0 <= i < entries.len(),
    ensures
        entries_map(entries).dom().contains(entries[i].0@),
        entries_map(entries)[entries[i].0@] == entries[i].1@,
{
    let alias = entries[i].0@;
    assert(has_entry(entries, alias));
    let j = choose|j: int| 0 <= j < entries.len() && (#[trigger] entries[j]).0@ == alias;
    if i < j {
        assert(entries[i].0@ != entries[j].0@);
    } else if j < i {
        assert(entries[j].0@ != entries[i].0@);
    }
}

proof fn lemma_entries_push(entries: Seq<(String, HostMetadata)>, e: (String, HostMetadata))
    requires
        distinct(entries),
        !has_entry(entries, e.0@),
    ensures
        distinct(entries.push(e)),
        entries_map(entries.push(e)) == entries_map(entries).insert(e.0@, e.1@),
{
    let grown = entries.push(e);
    assert(distinct(grown));
    let m = entries_map(entries);
    let n = entries_map(grown);
    assert forall|k: Seq<char>| n.dom().contains(k) <==> #[trigger] m.insert(
        e.0@,
        e.1@,
    ).dom().contains(k) by {
        if has_entry(grown, k) {
            let i = choose|i: int| 0 <= i < grown.len() && (#[trigger] grown[i]).0@ == k;
            if i < entries.len() {
                assert(entries[i].0@ == k);
            }
        }
        if has_entry(entries, k) {
            let i = choose|i: int| 0 <= i < entries.len() && (#[trigger] entries[i]).0@ == k;
            assert(grown[i].0@ == k);
        }
        if k == e.0@ {
            assert(grown[entries.len() as int].0@ == k);
        }
    }
    assert forall|k: Seq<char>| n.dom().contains(k) implies #[trigger] n[k] == m.insert(
        e.0@,
        e.1@,
    )[k] by {
        let i = choose|i: int| 0 <= i < grown.len() && (#[trigger] grown[i]).0@ == k;
        lemma_entry(grown, i);
        if i < entries.len() {
            assert(entries[i].0@ == k);
            lemma_entry(entries, i);
        }
    }
    assert(n =~= m.insert(e.0@, e.1@));
}

proof fn lemma_entries_remove(entries: Seq<(String, HostMetadata)>, i: int)
    requires
        distinct(entries),
        0 <= i < entries.len(),
    ensures
        distinct(entries.remove(i)),
        entries_map(entries.remove(i)) == entries_map(entries).remove(entries[i].0@),
{
    let alias = entries[i].0@;
    let rest = entries.remove(i);
    assert forall|a: int, b: int| 0 <= a < b < rest.len() implies (#[trigger] rest[a]).0@ != (
    #[trigger] rest[b]).0@ by {
        let x = if a < i {
            a
        } else {
            a + 1
        };
        let y = if b < i {
            b
        } else {
            b + 1
        };
        assert(rest[a] == entries[x] && rest[b] == entries[y]);
        assert(entries[x].0@ != entries[y].0@);
    }
    let m = entries_map(entries);
    let n = entries_map(rest);
    assert forall|k: Seq<char>| n.dom().contains(k) <==> #[trigger] m.remove(
        alias,
    ).dom().contains(k) by {
        if has_entry(rest, k) {
            let j = choose|j: int| 0 <= j < rest.len() && (#[trigger] rest[j]).0@ == k;
            let x = if j < i {
                j
            } else {
                j + 1
            };
            assert(entries[x].0@ == k);
            if x < i {
                assert(entries[x].0@ != entries[i].0@);
            } else {
                assert(entries[i].0@ != entries[x].0@);
            }
        }
        if has_entry(entries, k) && k != alias {
            let j = choose|j: int| 0 <= j < entries.len() && (#[trigger] entries[j]).0@ == k;
            if j < i {
                assert(rest[j].0@ == k);
            } else {
                assert(rest[j - 1].0@ == k);
            }
        }
    }
    assert forall|k: Seq<char>| n.dom().contains(k) implies #[trigger] n[k] == m.remove(
        alias,
    )[k] by {
        let j = choose|j: int| 0 <= j < rest.len() && (#[trigger] rest[j]).0@ == k;
        lemma_entry(rest, j);
        let x = if j < i {
            j
        } else {
            j + 1
        };
        assert(rest[j] == entries[x]);
        lemma_entry(entries, x);
    }
    assert(n =~= m.remove(alias));
}

proof fn lemma_entries_finite(entries: Seq<(String, HostMetadata)>)
    requires
        distinct(entries),
    ensures
        entries_map(entries).dom().finite(),
        entries_map(entries).dom().len() == entries.len(),
    decreases entries.len(),
{
    if entries.len() == 0 {
        assert(entries_map(entries).dom() =~= Set::empty());
    } else {
        let front = entries.drop_last();
        let e = entries.last();
        assert(entries =~= front.push(e));
        assert(distinct(front));
        if has_entry(front, e.0@) {
            let i = choose|i: int| 0 <= i < front.len() && (#[trigger] front[i]).0@ == e.0@;
            assert(entries[i].0@ != entries[entries.len() - 1].0@);
        }
        lemma_entries_finite(front);
        lemma_entries_push(front, e);
        assert(!entries_map(front).dom().contains(e.0@));
        assert(entries_map(entries).dom() =~= entries_map(front).dom().insert(e.0@));
    }
}

/// Records by alias; no alias has two.
#[derive(Debug)]
pub struct MetadataMap {
    entries: Vec<(String, HostMetadata)>,
}

impl View for MetadataMap {
    type V = Map<Seq<char>, Metadata>;

    closed spec fn view(&self) -> Map<Seq<char>, Metadata> {
        entries_map(self.entries@)
    }
}

impl MetadataMap {
    #[verifier::type_invariant]
    closed spec fn one_each(&self) -> bool {
        distinct(self.entries@)
    }

    /// A map without records.
    pub fn new() -> (r: Self)
        ensures
            r@ == Map::<Seq<char>, Metadata>::empty(),
    {
        let r = MetadataMap { entries: Vec::new() };
        assert(r@ =~= Map::<Seq<char>, Metadata>::empty());
        r
    }

    /// How many aliases have a record.
    pub fn len(&self) -> (r: usize)
        ensures
            self@.dom().finite(),
            r == self@.dom().len(),
    {
        proof {
            use_type_invariant(self);
            lemma_entries_finite(self.entries@);
        }
        self.entries.len()
    }

    /// Whether no alias has a record.
    pub fn is_empty(&self) -> (r: bool)
        ensures
            r == (self@ == Map::<Seq<char>, Metadata>::empty()),
    {
        proof {
            use_type_invariant(self);
            lemma_entries_finite(self.entries@);
            if self.entries@.len() == 0 {
                assert(self@ =~= Map::<Seq<char>, Metadata>::empty());
            }
        }
        self.entries.len() == 0
    }

    /// The aliases with their records, in no particular order.
    pub fn entries(&self) -> (r: &[(String, HostMetadata)])
        ensures
            distinct(r@),
            entries_map(r@) == self@,
    {
        proof {
            use_type_invariant(self);
        }
        self.entries.as_slice()
    }

    /// The place of an alias, if it has one.
    fn find(&self, alias: &str) -> (r: Option<usize>)
        ensures
            match r {
                Some(i) => i < self.entries@.len() && self.entries@[i as int].0@ == alias@,
                None => !has_entry(self.entries@, alias@),
            },
    {
        let mut i: usize = 0;
        while i < self.entries.len()
            invariant
                i <= self.entries@.len(),
                forall|k: int| 0 <= k < i ==> (#[trigger] self.entries@[k]).0@ != alias@,
            decreases self.entries.len() - i,
        {
            if same_text(self.entries[i].0.as_str(), alias) {
                return Some(i);
            }
            i += 1;
        }
        None
    }

    /// The record of an alias.
    pub fn get(&self, alias: &str) -> (r: Option<&HostMetadata>)
        ensures
            match r {
                Some(m) => self@.dom().contains(alias@) && m@ == self@[alias@],
                None => !self@.dom().contains(alias@),
            },
    {
        proof {
            use_type_invariant(self);
        }
        match self.find(alias) {
            Some(i) => {
                proof {
                    lemma_entry(self.entries@, i as int);
                }
                Some(&self.entries[i].1)
            },
            None => None,
        }
    }

    /// Whether an alias has a record.
    pub fn contains_key(&self, alias: &str) -> (r: bool)
        ensures
            r == self@.dom().contains(alias@),
    {
        self.get(alias).is_some()
    }

    /// Sets the record of an alias and returns the one it had.
    pub fn insert(&mut self, alias: String, metadata: HostMetadata) -> (r: Option<HostMetadata>)
        ensures
            final(self)@ == old(self)@.insert(alias@, metadata@),
            match r {
                Some(m) => old(self)@.dom().contains(alias@) && m@ == old(self)@[alias@],
                None => !old(self)@.dom().contains(alias@),
            },
    {
        let r = self.remove(alias.as_str());
        proof {
            use_type_invariant(&*self);
        }
        let ghost m = self@;
        assert(!m.dom().contains(alias@));
        let mut whole = MetadataMap::new();
        std::mem::swap(&mut whole, self);
        let MetadataMap { entries } = whole;
        let mut entries = entries;
        proof {
            assert(!has_entry(entries@, alias@));
            lemma_entries_push(entries@, (alias, metadata));
        }
        entries.push((alias, metadata));
        *self = MetadataMap { entries };
        assert(self@ =~= old(self)@.insert(alias@, metadata@));
        r
    }

    /// Removes the record of an alias and returns it.
    pub fn remove(&mut self, alias: &str) -> (r: Option<HostMetadata>)
        ensures
            final(self)@ == old(self)@.remove(alias@),
            match r {
                Some(m) => old(self)@.dom().contains(alias@) && m@ == old(self)@[alias@],
                None => !old(self)@.dom().contains(alias@),
            },
    {
        proof {
            use_type_invariant(&*self);
        }
        match self.find(alias) {
            None => {
                assert(self@ =~= old(self)@.remove(alias@));
                None
            },
            Some(i) => {
                let mut whole = MetadataMap::new();
                std::mem::swap(&mut whole, self);
                let MetadataMap { entries } = whole;
                let mut entries = entries;
                proof {
                    lemma_entry(entries@, i as int);
                    lemma_entries_remove(entries@, i as int);
                }
                let (_, metadata) = entries.remove(i);
                *self = MetadataMap { entries };
                Some(metadata)
            },
        }
    }
}

impl Clone for MetadataMap {
    fn clone(&self) -> (r: Self)
        ensures
            r@ == self@,
    {
        proof {
            use_type_invariant(self);
        }
        let mut entries: Vec<(String, HostMetadata)> = Vec::new();
        let mut i: usize = 0;
        while i < self.entries.len()
            invariant
                distinct(self.entries@),
                i == entries@.len(),
                i <= self.entries@.len(),
                forall|k: int|
                    0 <= k < i ==> (#[trigger] entries@[k]).0@ == self.entries@[k].0@
                        && entries@[k].1@ == self.entries@[k].1@,
            decreases self.entries.len() - i,
        {
            let e = &self.entries[i];
            entries.push((e.0.clone(), e.1.clone()));
            i += 1;
        }
        proof {
            lemma_same_map(self.entries@, entries@);
        }
        MetadataMap { entries }
    }
}

proof fn lemma_same_map(a: Seq<(String, HostMetadata)>, b: Seq<(String, HostMetadata)>)
    requires
        distinct(a),
        a.len() == b.len(),
        forall|k: int| 0 <= k < a.len() ==> (#[trigger] b[k]).0@ == a[k].0@ && b[k].1@ == a[k].1@,
    ensures
        distinct(b),
        entries_map(a) == entries_map(b),
{
    assert forall|i: int, j: int| 0 <= i < j < b.len() implies (#[trigger] b[i]).0@ != (
    #[trigger] b[j]).0@ by {
        assert(a[i].0@ != a[j].0@);
    }
    let m = entries_map(a);
    let n = entries_map(b);
    assert forall|k: Seq<char>| #[trigger] m.dom().contains(k) <==> n.dom().contains(k) by {
        if has_entry(a, k) {
            let i = choose|i: int| 0 <= i < a.len() && (#[trigger] a[i]).0@ == k;
            assert(b[i].0@ == k);
        }
        if has_entry(b, k) {
            let i = choose|i: int| 0 <= i < b.len() && (#[trigger] b[i]).0@ == k;
            assert(a[i].0@ == k);
        }
    }
    assert forall|k: Seq<char>| m.dom().contains(k) implies #[trigger] m[k] == n[k] by {
        let i = choose|i: int| 0 <= i < a.len() && (#[trigger] a[i]).0@ == k;
        lemma_entry(a, i);
        assert(b[i].0@ == k);
        lemma_entry(b, i);
    }
    assert(m =~= n);
}

/// The aliases that an import adds.
pub open spec fn added(
    current: Map<Seq<char>, Metadata>,
    imported: Map<Seq<char>, Metadata>,
) -> Set<Seq<char>> {
    imported.dom().difference(current.dom())
}

/// The aliases whose record an import replaces by another.
pub open spec fn replaced(
    current: Map<Seq<char>, Metadata>,
    imported: Map<Seq<char>, Metadata>,
) -> Set<Seq<char>> {
    imported.dom().filter(|k: Seq<char>| current.dom().contains(k) && current[k] != imported[k])
}

/// The aliases whose record an import leaves as it is.
pub open spec fn confirmed(
    current: Map<Seq<char>, Metadata>,
    imported: Map<Seq<char>, Metadata>,
) -> Set<Seq<char>> {
    imported.dom().filter(|k: Seq<char>| current.dom().contains(k) && current[k] == imported[k])
}

/// Whether `r` counts what an import did.
pub open spec fn counts(
    current: Map<Seq<char>, Metadata>,
    imported: Map<Seq<char>, Metadata>,
    r: ImportResult,
) -> bool {
    &&& r.imported_new == added(current, imported).len()
    &&& r.overwritten == replaced(current, imported).len()
    &&& r.unchanged == confirmed(current, imported).len()
}

pub proof fn lemma_import_one(
    current: Map<Seq<char>, Metadata>,
    before: Map<Seq<char>, Metadata>,
    k: Seq<char>,
    v: Metadata,
)
    requires
        before.dom().finite(),
        !before.dom().contains(k),
    ensures
        before.insert(k, v).dom().finite(),
        before.insert(k, v).dom().len() == before.dom().len() + 1,
        added(current, before.insert(k, v)).len() == added(current, before).len() + if current.dom().contains(k) {
            0int
        } else {
            1
        },
        replaced(current, before.insert(k, v)).len() == replaced(current, before).len()
            + if current.dom().contains(k) && current[k] != v {
            1int
        } else {
            0
        },
        confirmed(current, before.insert(k, v)).len() == confirmed(current, before).len()
            + if current.dom().contains(k) && current[k] == v {
            1int
        } else {
            0
        },
{
    let after = before.insert(k, v);
    assert(after.dom() =~= before.dom().insert(k));
    vstd::set_lib::lemma_len_difference(before.dom(), current.dom());
    before.dom().lemma_len_filter(
        |a: Seq<char>| current.dom().contains(a) && current[a] != before[a],
    );
    before.dom().lemma_len_filter(
        |a: Seq<char>| current.dom().contains(a) && current[a] == before[a],
    );
    if !current.dom().contains(k) {
        assert(added(current, after) =~= added(current, before).insert(k));
        assert(replaced(current, after) =~= replaced(current, before));
        assert(confirmed(current, after) =~= confirmed(current, before));
    } else if current[k] != v {
        assert(added(current, after) =~= added(current, before));
        assert(replaced(current, after) =~= replaced(current, before).insert(k));
        assert(confirmed(current, after) =~= confirmed(current, before));
    } else {
        assert(added(current, after) =~= added(current, before));
        assert(replaced(current, after) =~= replaced(current, before));
        assert(confirmed(current, after) =~= confirmed(current, before).insert(k));
    }
}

/// Adds the imported records to `current`. Where an alias has a record in both, the
/// imported one wins; a record without counterpart stays.
pub fn merge_imported(current: &mut MetadataMap, imported: MetadataMap) -> (r: ImportResult)
    ensures
        final(current)@ == old(current)@.union_prefer_right(imported@),
        counts(old(current)@, imported@, r),
        imported@.dom().finite(),
        r.imported_new + r.overwritten + r.unchanged == imported@.dom().len(),
        r.imported_new + r.overwritten + r.unchanged <= usize::MAX,
{
    let ghost start = current@;
    let ghost whole = imported@;
    proof {
        use_type_invariant(&imported);
    }
    let entries = imported.entries();
    let mut result = ImportResult::default();
    let mut i: usize = 0;
    let ghost none = Map::<Seq<char>, Metadata>::empty();
    proof {
        assert(entries_map(entries@.take(0)) =~= none);
        assert(added(start, none) =~= Set::empty());
        assert(replaced(start, none) =~= Set::empty());
        assert(confirmed(start, none) =~= Set::empty());
        assert(start.union_prefer_right(none) =~= start);
    }
    while i < entries.len()
        invariant
            i <= entries@.len(),
            distinct(entries@),
            distinct(entries@.take(i as int)),
            current@ == start.union_prefer_right(entries_map(entries@.take(i as int))),
            entries_map(entries@.take(i as int)).dom().finite(),
            entries_map(entries@.take(i as int)).dom().len() == i,
            counts(start, entries_map(entries@.take(i as int)), result),
            result.imported_new + result.overwritten + result.unchanged == i,
        decreases entries.len() - i,
    {
        let alias = &entries[i].0;
        let metadata = &entries[i].1;
        let ghost k = alias@;
        let ghost v = metadata@;
        let ghost done = entries@.take(i as int);
        let ghost before = entries_map(done);
        let ghost after = before.insert(k, v);
        proof {
            assert(entries@.take(i + 1) =~= done.push(entries@[i as int]));
            if has_entry(done, k) {
                let j = choose|j: int| 0 <= j < done.len() && (#[trigger] done[j]).0@ == k;
                assert(entries@[j].0@ != entries@[i as int].0@);
            }
            lemma_entries_push(done, entries@[i as int]);
            lemma_import_one(start, before, k, v);
            assert(current@.dom().contains(k) <==> start.dom().contains(k));
            assert(start.union_prefer_right(after) =~= start.union_prefer_right(before).insert(
                k,
                v,
            ));
        }
        match current.get(alias.as_str()) {
            Some(existing) => {
                if same_metadata(existing, metadata) {
                    result.unchanged = result.unchanged + 1;
                    assert(current@.insert(k, v) =~= current@);
                } else {
                    let _ = current.insert(alias.clone(), metadata.clone());
                    result.overwritten = result.overwritten + 1;
                }
            },
            None => {
                let _ = current.insert(alias.clone(), metadata.clone());
                result.imported_new = result.imported_new + 1;
            },
        }
        i += 1;
    }
    proof {
        assert(entries@.take(entries@.len() as int) =~= entries@);
    }
    result
}

/// Whether nothing blank is kept.
pub open spec fn compact(records: Map<Seq<char>, Metadata>) -> bool {
    forall|k: Seq<char>| records.dom().contains(k) ==> #[trigger] records[k] != blank()
}

/// The records without the blank ones.
pub open spec fn compacted(records: Map<Seq<char>, Metadata>) -> Map<Seq<char>, Metadata> {
    records.restrict(Set::new(|alias: Seq<char>| records[alias] != blank()))
}

/// The records after an import: the imported records win, and nothing blank is kept.
pub open spec fn imported_into(
    current: Map<Seq<char>, Metadata>,
    imported: Map<Seq<char>, Metadata>,
) -> Map<Seq<char>, Metadata> {
    compacted(current.union_prefer_right(imported))
}

/// The records without the blank ones.
fn without_blank(map: &MetadataMap) -> (r: MetadataMap)
    ensures
        r@ == compacted(map@),
{
    let entries = map.entries();
    let mut kept = MetadataMap::new();
    let mut i: usize = 0;
    proof {
        assert(entries_map(entries@.take(0)) =~= Map::<Seq<char>, Metadata>::empty());
        assert(kept@ =~= compacted(entries_map(entries@.take(0))));
    }
    while i < entries.len()
        invariant
            i <= entries@.len(),
            distinct(entries@),
            distinct(entries@.take(i as int)),
            kept@ == compacted(entries_map(entries@.take(i as int))),
        decreases entries.len() - i,
    {
        let alias = &entries[i].0;
        let metadata = &entries[i].1;
        let ghost done = entries@.take(i as int);
        let ghost m = entries_map(done);
        proof {
            assert(entries@.take(i + 1) =~= done.push(entries@[i as int]));
            if has_entry(done, alias@) {
                let j = choose|j: int| 0 <= j < done.len() && (#[trigger] done[j]).0@ == alias@;
                assert(entries@[j].0@ != entries@[i as int].0@);
            }
            lemma_entries_push(done, entries@[i as int]);
        }
        if !metadata.is_empty() {
            let _ = kept.insert(alias.clone(), metadata.clone());
        }
        assert(kept@ =~= compacted(m.insert(alias@, metadata@)));
        i += 1;
    }
    assert(entries@.take(entries@.len() as int) =~= entries@);
    kept
}

/// The store of what the user keeps about hosts. It keeps no blank records.
#[derive(Debug)]
pub struct SshHostsMetadataModel {
    by_alias: MetadataMap,
}

impl View for SshHostsMetadataModel {
    type V = Map<Seq<char>, Metadata>;

    closed spec fn view(&self) -> Map<Seq<char>, Metadata> {
        self.by_alias@
    }
}

/// The records after one was set: setting a record in which nothing is set removes
/// the record.
pub open spec fn with_record(
    records: Map<Seq<char>, Metadata>,
    alias: Seq<char>,
    metadata: Metadata,
) -> Map<Seq<char>, Metadata> {
    if metadata == blank() {
        records.remove(alias)
    } else {
        records.insert(alias, metadata)
    }
}

/// Whether one of the hosts has this alias.
pub open spec fn known(hosts: Seq<HostDetail>, alias: Seq<char>) -> bool {
    exists|i: int| 0 <= i < hosts.len() && (#[trigger] hosts[i])@.alias == alias
}

/// The records of the aliases that hosts still have.
pub open spec fn pruned(
    records: Map<Seq<char>, Metadata>,
    hosts: Seq<HostDetail>,
) -> Map<Seq<char>, Metadata> {
    records.restrict(Set::new(|alias: Seq<char>| known(hosts, alias)))
}

/// Whether one of the hosts has this alias.
fn is_known(hosts: &[HostDetail], alias: &str) -> (r: bool)
    ensures
        r == known(hosts@, alias@),
{
    let mut i: usize = 0;
    while i < hosts.len()
        invariant
            i <= hosts@.len(),
            forall|k: int| 0 <= k < i ==> (#[trigger] hosts@[k])@.alias != alias@,
        decreases hosts.len() - i,
    {
        if same_text(hosts[i].alias.as_str(), alias) {
            assert(hosts@[i as int]@.alias == alias@);
            return true;
        }
        i += 1;
    }
    false
}

impl SshHostsMetadataModel {
    #[verifier::type_invariant]
    closed spec fn holds_no_blank(&self) -> bool {
        compact(self.by_alias@)
    }

    /// A store with these records; blank ones are left out.
    pub fn new(by_alias: MetadataMap) -> (r: Self)
        ensures
            r@ == compacted(by_alias@),
    {
        SshHostsMetadataModel { by_alias: without_blank(&by_alias) }
    }

    /// A store without records.
    pub fn new_for_testing() -> (r: Self)
        ensures
            r@ == Map::<Seq<char>, Metadata>::empty(),
    {
        SshHostsMetadataModel { by_alias: MetadataMap::new() }
    }

    /// The record of an alias; `None` where the user has set nothing for the host.
    pub fn get(&self, alias: &str) -> (r: Option<&HostMetadata>)
        ensures
            match r {
                Some(m) => self@.dom().contains(alias@) && m@ == self@[alias@] && m@ != blank(),
                None => !self@.dom().contains(alias@),
            },
    {
        proof {
            use_type_invariant(self);
        }
        self.by_alias.get(alias)
    }

    /// All records, as they are to be written.
    pub fn records(&self) -> (r: &MetadataMap)
        ensures
            r@ == self@,
            compact(r@),
    {
        proof {
            use_type_invariant(self);
        }
        &self.by_alias
    }

    /// Sets the record of an alias; one in which nothing is set removes it. There is
    /// an event exactly where the records changed.
    pub fn set(&mut self, alias: String, metadata: HostMetadata) -> (r: Option<
        SshHostsMetadataEvent,
    >)
        ensures
            final(self)@ == with_record(old(self)@, alias@, metadata@),
            r is Some <==> final(self)@ != old(self)@,
            compact(final(self)@),
    {
        proof {
            use_type_invariant(&*self);
            lemma_with_record_compact(self@, alias@, metadata@);
        }
        let ghost before = self@;
        let mut map = MetadataMap::new();
        std::mem::swap(&mut map, &mut self.by_alias);
        let changed: bool = if metadata.is_empty() {
            match map.remove(alias.as_str()) {
                Some(_) => {
                    assert(!map@.dom().contains(alias@));
                    true
                },
                None => {
                    assert(map@ =~= before);
                    false
                },
            }
        } else {
            let replacement = metadata.clone();
            match map.insert(alias, metadata) {
                Some(existing) => {
                    let same = same_metadata(&existing, &replacement);
                    proof {
                        if same {
                            assert(map@ =~= before);
                        } else {
                            assert(map@[alias@] != before[alias@]);
                        }
                    }
                    !same
                },
                None => {
                    assert(map@.dom().contains(alias@));
                    true
                },
            }
        };
        self.by_alias = map;
        if changed {
            Some(SshHostsMetadataEvent::Updated)
        } else {
            None
        }
    }

    /// Takes imported records over, and counts what each of them was. A blank record
    /// wins like any other, and is then left out. There is an event exactly where the
    /// records changed, which is where a record that is not blank was added, or one was
    /// replaced.
    pub fn import(&mut self, imported: MetadataMap) -> (r: (
        ImportResult,
        Option<SshHostsMetadataEvent>,
    ))
        ensures
            final(self)@ == imported_into(old(self)@, imported@),
            counts(old(self)@, imported@, r.0),
            r.0.imported_new + r.0.overwritten + r.0.unchanged == imported@.dom().len(),
            r.0.imported_new + r.0.overwritten + r.0.unchanged <= usize::MAX,
            r.1 is Some <==> final(self)@ != old(self)@,
            r.1 is Some ==> r.0.imported_new + r.0.overwritten > 0,
            compact(imported@) && r.0.imported_new + r.0.overwritten > 0 ==> r.1 is Some,
            compact(final(self)@),
    {
        proof {
            use_type_invariant(&*self);
        }
        let ghost before = self@;
        let ghost more = imported@;
        let mut map = MetadataMap::new();
        std::mem::swap(&mut map, &mut self.by_alias);
        let size: usize = map.len();
        let result = merge_imported(&mut map, imported);
        let kept = without_blank(&map);
        let grown: bool = kept.len() != size;
        proof {
            lemma_import_changes(before, more);
            lemma_compacted(before.union_prefer_right(more));
        }
        self.by_alias = kept;
        if result.overwritten > 0 || grown {
            (result, Some(SshHostsMetadataEvent::Updated))
        } else {
            (result, None)
        }
    }

    /// Drops the records whose alias no host has any more. There is an event exactly
    /// where the records changed.
    pub fn prune_to_known_aliases(&mut self, hosts: &[HostDetail]) -> (r: Option<
        SshHostsMetadataEvent,
    >)
        ensures
            final(self)@ == pruned(old(self)@, hosts@),
            r is Some <==> final(self)@ != old(self)@,
            compact(final(self)@),
    {
        proof {
            use_type_invariant(&*self);
            lemma_pruned_compact(self@, hosts@);
        }
        let ghost before = self@;
        let copied = self.by_alias.clone();
        let entries = copied.entries();
        let mut kept = MetadataMap::new();
        let mut dropped: bool = false;
        let mut i: usize = 0;
        proof {
            assert(entries_map(entries@.take(0)) =~= Map::<Seq<char>, Metadata>::empty());
            assert(pruned(entries_map(entries@.take(0)), hosts@) =~= Map::<
                Seq<char>,
                Metadata,
            >::empty());
        }
        while i < entries.len()
            invariant
                i <= entries@.len(),
                distinct(entries@),
                distinct(entries@.take(i as int)),
                kept@ == pruned(entries_map(entries@.take(i as int)), hosts@),
                dropped <==> exists|k: int|
                    0 <= k < i && !known(hosts@, (#[trigger] entries@[k]).0@),
            decreases entries.len() - i,
        {
            let alias = &entries[i].0;
            let metadata = &entries[i].1;
            let ghost done = entries@.take(i as int);
            let ghost m = entries_map(done);
            proof {
                assert(entries@.take(i + 1) =~= done.push(entries@[i as int]));
                if has_entry(done, alias@) {
                    let j = choose|j: int|
                        0 <= j < done.len() && (#[trigger] done[j]).0@ == alias@;
                    assert(entries@[j].0@ != entries@[i as int].0@);
                }
                lemma_entries_push(done, entries@[i as int]);
            }
            if is_known(hosts, alias.as_str()) {
                let _ = kept.insert(alias.clone(), metadata.clone());
                assert(kept@ =~= pruned(m.insert(alias@, metadata@), hosts@));
            } else {
                dropped = true;
                assert(!known(hosts@, entries@[i as int].0@));
                assert(kept@ =~= pruned(m.insert(alias@, metadata@), hosts@));
            }
            i += 1;
        }
        proof {
            assert(entries@.take(entries@.len() as int) =~= entries@);
            if dropped {
                let k = choose|k: int|
                    0 <= k < entries@.len() && !known(hosts@, (#[trigger] entries@[k]).0@);
                lemma_entry(entries@, k);
                assert(!kept@.dom().contains(entries@[k].0@));
            } else {
                assert forall|a: Seq<char>| before.dom().contains(a) implies known(
                    hosts@,
                    a,
                ) by {
                    let k = choose|k: int|
                        0 <= k < entries@.len() && (#[trigger] entries@[k]).0@ == a;
                    assert(has_entry(entries@, a));
                    assert(known(hosts@, entries@[k].0@));
                }
                assert(kept@ =~= before);
            }
        }
        if dropped {
            self.by_alias = kept;
            Some(SshHostsMetadataEvent::Updated)
        } else {
            None
        }
    }
}

proof fn lemma_compacted(records: Map<Seq<char>, Metadata>)
    ensures
        compact(compacted(records)),
{
    let kept = compacted(records);
    assert forall|k: Seq<char>| kept.dom().contains(k) implies #[trigger] kept[k] != blank() by {
        assert(kept[k] == records[k]);
    }
}

proof fn lemma_with_record_compact(
    records: Map<Seq<char>, Metadata>,
    alias: Seq<char>,
    metadata: Metadata,
)
    requires
        compact(records),
    ensures
        compact(with_record(records, alias, metadata)),
{
    let set = with_record(records, alias, metadata);
    assert forall|k: Seq<char>| set.dom().contains(k) implies #[trigger] set[k] != blank() by {
        if k != alias {
            assert(records[k] != blank());
        }
    }
}

proof fn lemma_pruned_compact(records: Map<Seq<char>, Metadata>, hosts: Seq<HostDetail>)
    requires
        compact(records),
    ensures
        compact(pruned(records, hosts)),
{
    let kept = pruned(records, hosts);
    assert forall|k: Seq<char>| kept.dom().contains(k) implies #[trigger] kept[k] != blank() by {
        assert(records[k] != blank());
    }
}

proof fn lemma_import_changes(
    current: Map<Seq<char>, Metadata>,
    imported: Map<Seq<char>, Metadata>,
)
    requires
        compact(current),
        current.dom().finite(),
        imported.dom().finite(),
        imported_into(current, imported).dom().finite(),
    ensures
        replaced(current, imported).len() > 0 || imported_into(current, imported).dom().len()
            != current.dom().len() <==> imported_into(current, imported) != current,
        imported_into(current, imported) != current ==> added(current, imported).len() + replaced(
            current,
            imported,
        ).len() > 0,
        compact(imported) && added(current, imported).len() + replaced(current, imported).len() > 0
            ==> imported_into(current, imported) != current,
{
    let merged = imported_into(current, imported);
    vstd::set_lib::lemma_len_difference(imported.dom(), current.dom());
    imported.dom().lemma_len_filter(
        |a: Seq<char>| current.dom().contains(a) && current[a] != imported[a],
    );
    if replaced(current, imported).len() > 0 {
        let k = replaced(current, imported).choose();
        assert(replaced(current, imported).contains(k));
        assert(!merged.dom().contains(k) || merged[k] == imported[k]);
    } else {
        assert forall|k: Seq<char>| #[trigger] current.dom().contains(
            k,
        ) implies merged.dom().contains(k) && merged[k] == current[k] by {
            assert(current[k] != blank());
            if imported.dom().contains(k) && current[k] != imported[k] {
                assert(replaced(current, imported).contains(k));
            }
        }
        assert(current.dom().subset_of(merged.dom()));
        if merged.dom().len() == current.dom().len() {
            vstd::set_lib::lemma_subset_equality(current.dom(), merged.dom());
            assert(merged =~= current);
        }
        if added(current, imported).len() == 0 {
            assert forall|k: Seq<char>| #[trigger] merged.dom().contains(
                k,
            ) implies current.dom().contains(k) by {
                if !current.dom().contains(k) {
                    assert(added(current, imported).contains(k));
                }
            }
            assert(merged.dom() =~= current.dom());
            assert(merged =~= current);
        } else if compact(imported) {
            let k = added(current, imported).choose();
            assert(added(current, imported).contains(k));
            assert(imported[k] != blank());
            assert(merged.dom().contains(k));
        }
    }
}

/// What was set is what is found, and the records of other aliases are as before.
pub proof fn law_set_then_get(
    records: Map<Seq<char>, Metadata>,
    alias: Seq<char>,
    metadata: Metadata,
    other: Seq<char>,
)
    ensures
        ({
            let after = with_record(records, alias, metadata);
            &&& metadata != blank() ==> after.dom().contains(alias) && after[alias] == metadata
            &&& metadata == blank() ==> !after.dom().contains(alias)
            &&& other != alias ==> after.dom().contains(other) == records.dom().contains(other)
            &&& other != alias && records.dom().contains(other) ==> after[other] == records[other]
        }),
{
}

/// Merging the same records again changes nothing: every one counts as unchanged.
pub proof fn law_second_merge_changes_nothing(
    current: Map<Seq<char>, Metadata>,
    imported: Map<Seq<char>, Metadata>,
)
    requires
        imported.dom().finite(),
    ensures
        ({
            let merged = current.union_prefer_right(imported);
            &&& merged.union_prefer_right(imported) == merged
            &&& added(merged, imported).len() == 0
            &&& replaced(merged, imported).len() == 0
            &&& confirmed(merged, imported).len() == imported.dom().len()
        }),
{
    let merged = current.union_prefer_right(imported);
    assert(merged.union_prefer_right(imported) =~= merged);
    assert(added(merged, imported) =~= Set::empty());
    assert(replaced(merged, imported) =~= Set::empty());
    assert(confirmed(merged, imported) =~= imported.dom());
}

/// Importing the same records again changes nothing.
pub proof fn law_second_import_changes_nothing(
    current: Map<Seq<char>, Metadata>,
    imported: Map<Seq<char>, Metadata>,
)
    ensures
        imported_into(imported_into(current, imported), imported) == imported_into(
            current,
            imported,
        ),
{
    let once = imported_into(current, imported);
    assert(imported_into(once, imported) =~= once);
}

/// An import touches no record but those it holds: the others stay as they are.
pub proof fn law_import_is_additive(
    current: Map<Seq<char>, Metadata>,
    imported: Map<Seq<char>, Metadata>,
    alias: Seq<char>,
)
    requires
        compact(current),
        current.dom().contains(alias),
        !imported.dom().contains(alias),
    ensures
        imported_into(current, imported).dom().contains(alias),
        imported_into(current, imported)[alias] == current[alias],
{
    assert(current[alias] != blank());
}

/// The imported record of an alias is the one it has afterwards, and none where the
/// imported one is blank.
pub proof fn law_imported_records_win(
    current: Map<Seq<char>, Metadata>,
    imported: Map<Seq<char>, Metadata>,
    alias: Seq<char>,
)
    requires
        imported.dom().contains(alias),
    ensures
        imported_into(current, imported).dom().contains(alias) <==> imported[alias] != blank(),
        imported[alias] != blank() ==> imported_into(current, imported)[alias] == imported[alias],
{
}

/// All records of one store, imported into an empty one, are found there again with every
/// field, and all of them count as new.
pub proof fn law_import_restores_all_records(records: Map<Seq<char>, Metadata>)
    requires
        compact(records),
        records.dom().finite(),
    ensures
        ({
            let empty = Map::<Seq<char>, Metadata>::empty();
            &&& imported_into(empty, records) == records
            &&& added(empty, records).len() == records.dom().len()
            &&& replaced(empty, records).len() == 0
            &&& confirmed(empty, records).len() == 0
        }),
{
    let empty = Map::<Seq<char>, Metadata>::empty();
    assert(imported_into(empty, records) =~= records);
    assert(added(empty, records) =~= records.dom());
    assert(replaced(empty, records) =~= Set::empty());
    assert(confirmed(empty, records) =~= Set::empty());
}

/// Every imported record is counted exactly once.
pub proof fn law_every_import_is_counted(
    current: Map<Seq<char>, Metadata>,
    imported: Map<Seq<char>, Metadata>,
    alias: Seq<char>,
)
    requires
        imported.dom().contains(alias),
    ensures
        added(current, imported).contains(alias) || replaced(current, imported).contains(alias)
            || confirmed(current, imported).contains(alias),
        !(added(current, imported).contains(alias) && replaced(current, imported).contains(alias)),
        !(added(current, imported).contains(alias) && confirmed(current, imported).contains(alias)),
        !(replaced(current, imported).contains(alias) && confirmed(current, imported).contains(
            alias,
        )),
{
}

/// Setting, pruning and importing keep the store free of blank records, whatever is
/// set or imported.
pub proof fn law_store_stays_compact(
    records: Map<Seq<char>, Metadata>,
    alias: Seq<char>,
    metadata: Metadata,
    hosts: Seq<HostDetail>,
    imported: Map<Seq<char>, Metadata>,
)
    requires
        compact(records),
    ensures
        compact(with_record(records, alias, metadata)),
        compact(pruned(records, hosts)),
        compact(imported_into(records, imported)),
        compact(compacted(imported)),
{
    lemma_with_record_compact(records, alias, metadata);
    lemma_pruned_compact(records, hosts);
    lemma_compacted(records.union_prefer_right(imported));
    lemma_compacted(imported);
}

/// After pruning, exactly the aliases that hosts have keep their records.
pub proof fn law_prune_keeps_known(
    records: Map<Seq<char>, Metadata>,
    hosts: Seq<HostDetail>,
    alias: Seq<char>,
)
    ensures
        pruned(records, hosts).dom().contains(alias) <==> records.dom().contains(alias) && known(
            hosts,
            alias,
        ),
        pruned(records, hosts).dom().contains(alias) ==> pruned(records, hosts)[alias]
            == records[alias],
        pruned(pruned(records, hosts), hosts) == pruned(records, hosts),
{
    assert(pruned(pruned(records, hosts), hosts) =~= pruned(records, hosts));
}

} // verus!
