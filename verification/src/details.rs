//! What configuration files say about each host: one record per alias.

use vstd::prelude::*;

use crate::aliases::{dialable, file_names, is_dialable, line_names};
use crate::directives::{
    argument_of, evaluate_match, gate_open, host_argument, lemma_block_keywords_exclude,
    match_active, match_argument, slice_view, split_statements, statements, strip_host_directive,
    strip_keyword, MatchOutcome,
};
use crate::numbers::{parse_port, port_of};
use crate::order::{
    ascending, lemma_ascending_unique, lemma_lt_irreflexive, lemma_lt_total, lemma_lt_transitive,
    lt, precedes,
};
use crate::text::{
    copy_text, copy_texts, same_option, same_texts, slices, split_words, str_view, string_view,
    texts, to_chars, to_text, words,
};

verus! {

/// What the configuration says about one host alias. `None` means that the
/// directive is not given for the host.
#[derive(Debug, PartialEq, Eq, Hash)]
pub struct HostDetail {
    /// The alias, as in `ssh <alias>`.
    pub alias: String,
    /// `HostName`: the name or address to dial.
    pub hostname: Option<String>,
    /// `User`.
    pub user: Option<String>,
    /// `Port`.
    pub port: Option<u16>,
    /// The `IdentityFile` directives, in order.
    pub identity_files: Vec<String>,
    /// `ProxyJump`: a comma-separated list of hops.
    pub proxy_jump: Option<String>,
}

/// A [`HostDetail`] as a mathematical value.
#[verifier::ext_equal]
pub struct Detail {
    pub alias: Seq<char>,
    pub hostname: Option<Seq<char>>,
    pub user: Option<Seq<char>>,
    pub port: Option<u16>,
    pub identity_files: Seq<Seq<char>>,
    pub proxy_jump: Option<Seq<char>>,
}

impl View for HostDetail {
    type V = Detail;

    open spec fn view(&self) -> Detail {
        Detail {
            alias: self.alias@,
            hostname: string_view(self.hostname),
            user: string_view(self.user),
            port: self.port,
            identity_files: texts(self.identity_files@),
            proxy_jump: string_view(self.proxy_jump),
        }
    }
}

/// The record of a host of which only the alias is known.
pub open spec fn bare(alias: Seq<char>) -> Detail {
    Detail {
        alias,
        hostname: None,
        user: None,
        port: None,
        identity_files: Seq::empty(),
        proxy_jump: None,
    }
}

impl Clone for HostDetail {
    fn clone(&self) -> (r: Self)
        ensures
            r@ == self@,
    {
        HostDetail {
            alias: self.alias.clone(),
            hostname: copy_text(&self.hostname),
            user: copy_text(&self.user),
            port: self.port,
            identity_files: copy_texts(&self.identity_files),
            proxy_jump: copy_text(&self.proxy_jump),
        }
    }
}

/// Whether two records are the same.
pub fn same_detail(a: &HostDetail, b: &HostDetail) -> (r: bool)
    ensures
        r == (a@ == b@),
{
    let same_port: bool = match (a.port, b.port) {
        (Some(x), Some(y)) => x == y,
        (None, None) => true,
        _ => false,
    };
    let r = a.alias == b.alias && same_option(&a.hostname, &b.hostname) && same_option(
        &a.user,
        &b.user,
    ) && same_port && same_texts(&a.identity_files, &b.identity_files) && same_option(
        &a.proxy_jump,
        &b.proxy_jump,
    );
    assert(r ==> a@ =~= b@);
    r
}

/// The same records.
pub fn copy_details(list: &Vec<HostDetail>) -> (r: Vec<HostDetail>)
    ensures
        detail_views(r@) == detail_views(list@),
{
    let mut out: Vec<HostDetail> = Vec::new();
    let mut i: usize = 0;
    while i < list.len()
        invariant
            i <= list@.len(),
            detail_views(out@) == detail_views(list@).take(i as int),
        decreases list.len() - i,
    {
        let ghost before = detail_views(out@);
        out.push(list[i].clone());
        assert(detail_views(out@) =~= before.push(list@[i as int]@));
        assert(detail_views(list@).take(i + 1) =~= detail_views(list@).take(i as int).push(
            list@[i as int]@,
        ));
        i += 1;
    }
    assert(detail_views(list@).take(list@.len() as int) =~= detail_views(list@));
    out
}

/// Whether two lists of records are the same.
pub fn same_details(a: &Vec<HostDetail>, b: &Vec<HostDetail>) -> (r: bool)
    ensures
        r == (detail_views(a@) == detail_views(b@)),
{
    let ghost left = detail_views(a@);
    let ghost right = detail_views(b@);
    if a.len() != b.len() {
        assert(left.len() != right.len());
        return false;
    }
    let mut i: usize = 0;
    while i < a.len()
        invariant
            a@.len() == b@.len(),
            left == detail_views(a@),
            right == detail_views(b@),
            i <= a@.len(),
            forall|k: int| 0 <= k < i ==> left[k] == right[k],
        decreases a.len() - i,
    {
        assert(left[i as int] == a@[i as int]@ && right[i as int] == b@[i as int]@);
        if !same_detail(&a[i], &b[i]) {
            return false;
        }
        i += 1;
    }
    assert(left =~= right);
    true
}

impl HostDetail {
    /// The record of a host of which only the alias is known.
    pub fn new(alias: String) -> (r: Self)
        ensures
            r@ == bare(alias@),
    {
        let r = HostDetail {
            alias,
            hostname: None,
            user: None,
            port: None,
            identity_files: Vec::new(),
            proxy_jump: None,
        };
        assert(r@ =~= bare(alias@));
        r
    }
}

/// The first word of a text, or nothing where it has none.
pub open spec fn first_word(rest: Seq<char>) -> Seq<char> {
    if words(rest).len() > 0 {
        words(rest)[0]
    } else {
        Seq::empty()
    }
}

/// The first word of a text.
fn head_word(rest: &[char]) -> (r: Vec<char>)
    ensures
        r@ == first_word(rest@),
{
    let all = split_words(rest);
    if all.len() > 0 {
        let first = all[0];
        assert(slices(all@)[0] == first@);
        let mut out: Vec<char> = Vec::new();
        let mut i: usize = 0;
        while i < first.len()
            invariant
                i <= first@.len(),
                out@ == first@.take(i as int),
            decreases first.len() - i,
        {
            assert(first@.take(i + 1) =~= first@.take(i as int).push(first@[i as int]));
            out.push(first[i]);
            i += 1;
        }
        assert(first@.take(first@.len() as int) =~= first@);
        out
    } else {
        Vec::new()
    }
}

/// A host's record after one more line of its block. `HostName`, `User` and
/// `ProxyJump` replace what was there, `Port` does where its value is a port
/// number, `IdentityFile` adds a file where it names one, and other lines change
/// nothing.
pub open spec fn with_line(d: Detail, line: Seq<char>) -> Detail {
    if let Some(rest) = argument_of(line, "HostName"@) {
        Detail { hostname: Some(first_word(rest)), ..d }
    } else if let Some(rest) = argument_of(line, "User"@) {
        Detail { user: Some(first_word(rest)), ..d }
    } else if let Some(rest) = argument_of(line, "Port"@) {
        match port_of(first_word(rest)) {
            Some(p) => Detail { port: Some(p), ..d },
            None => d,
        }
    } else if let Some(rest) = argument_of(line, "IdentityFile"@) {
        if first_word(rest).len() > 0 {
            Detail { identity_files: d.identity_files.push(first_word(rest)), ..d }
        } else {
            d
        }
    } else if let Some(rest) = argument_of(line, "ProxyJump"@) {
        Detail { proxy_jump: Some(rest), ..d }
    } else {
        d
    }
}

/// Applies one line of a host's block to its record.
fn apply_line(d: HostDetail, line: &[char]) -> (r: HostDetail)
    ensures
        r@ == with_line(d@, line@),
{
    let mut d = d;
    let ghost before = d@;
    if let Some(rest) = strip_keyword(line, "HostName") {
        let word = head_word(rest);
        d.hostname = Some(to_text(word.as_slice()));
    } else if let Some(rest) = strip_keyword(line, "User") {
        let word = head_word(rest);
        d.user = Some(to_text(word.as_slice()));
    } else if let Some(rest) = strip_keyword(line, "Port") {
        let word = head_word(rest);
        if let Some(p) = parse_port(word.as_slice()) {
            d.port = Some(p);
        }
    } else if let Some(rest) = strip_keyword(line, "IdentityFile") {
        let word = head_word(rest);
        if word.len() > 0 {
            let ghost files = texts(d.identity_files@);
            d.identity_files.push(to_text(word.as_slice()));
            assert(texts(d.identity_files@) =~= files.push(word@));
        }
    } else if let Some(rest) = strip_keyword(line, "ProxyJump") {
        d.proxy_jump = Some(to_text(rest));
    }
    assert(d@ =~= with_line(before, line@));
    d
}

/// The names in a list that can be dialled, in order.
pub open spec fn dialable_names(names: Seq<Seq<char>>) -> Seq<Seq<char>>
    decreases names.len(),
{
    if names.len() == 0 {
        Seq::empty()
    } else {
        let before = dialable_names(names.drop_last());
        if dialable(names.last()) {
            before.push(names.last())
        } else {
            before
        }
    }
}

/// The records of hosts of which only the aliases are known.
pub open spec fn bares(names: Seq<Seq<char>>) -> Seq<Detail> {
    names.map_values(|n: Seq<char>| bare(n))
}

/// How far a file has been read: whether the next `Host` line counts, the record
/// of the block that is open, and the records that are complete, in the order in
/// which they became so.
#[verifier::ext_equal]
pub struct Scan {
    pub active: bool,
    pub current: Option<Detail>,
    pub done: Seq<Detail>,
}

/// The complete records once the open block ends.
pub open spec fn closed_off(scan: Scan) -> Seq<Detail> {
    match scan.current {
        Some(d) => scan.done.push(d),
        None => scan.done,
    }
}

/// One more statement. A `Match` or `Host` line ends the open block. A `Host`
/// line that counts opens a block for the first alias it can; its other aliases
/// get records of their own, with nothing but the alias.
pub open spec fn scan_line(scan: Scan, line: Seq<char>, user: Option<Seq<char>>) -> Scan {
    if let Some(rest) = match_argument(line) {
        Scan { active: match_active(rest, user), current: None, done: closed_off(scan) }
    } else if let Some(rest) = host_argument(line) {
        let names = dialable_names(words(rest));
        if scan.active && names.len() > 0 {
            Scan {
                active: true,
                current: Some(bare(names[0])),
                done: closed_off(scan) + bares(names.drop_first()),
            }
        } else {
            Scan { active: true, current: None, done: closed_off(scan) }
        }
    } else {
        Scan {
            current: match scan.current {
                Some(d) => Some(with_line(d, line)),
                None => None,
            },
            ..scan
        }
    }
}

/// How far these statements lead from the start of a file.
pub open spec fn scan(lines: Seq<Seq<char>>, user: Option<Seq<char>>) -> Scan
    decreases lines.len(),
{
    if lines.len() == 0 {
        Scan { active: true, current: None, done: Seq::empty() }
    } else {
        scan_line(scan(lines.drop_last(), user), lines.last(), user)
    }
}

/// The records that one file gives, in the order in which its blocks end.
pub open spec fn file_details(content: Seq<char>, user: Option<Seq<char>>) -> Seq<Detail> {
    closed_off(scan(statements(content), user))
}

/// The records that the files give, file by file.
pub open spec fn all_details(files: Seq<Seq<char>>, user: Option<Seq<char>>) -> Seq<Detail>
    decreases files.len(),
{
    if files.len() == 0 {
        Seq::empty()
    } else {
        all_details(files.drop_last(), user) + file_details(files.last(), user)
    }
}

/// The views of a list of records.
pub open spec fn detail_views(list: Seq<HostDetail>) -> Seq<Detail> {
    list.map_values(|d: HostDetail| d@)
}

/// The aliases of a list of records.
pub open spec fn aliases_of(list: Seq<Detail>) -> Seq<Seq<char>> {
    list.map_values(|d: Detail| d.alias)
}

/// Whether `d` is the first record of `all` with its alias.
pub open spec fn leads(all: Seq<Detail>, d: Detail) -> bool {
    exists|k: int|
        0 <= k < all.len() && #[trigger] all[k] == d && forall|m: int|
            0 <= m < k ==> (#[trigger] all[m]).alias != d.alias
}

/// Whether a list has a record for `alias`.
pub open spec fn lists(list: Seq<Detail>, alias: Seq<char>) -> bool {
    exists|i: int| 0 <= i < list.len() && (#[trigger] list[i]).alias == alias
}

/// Whether `list` is `all` put in order: ascending by alias, with the first
/// record of every alias and no other.
pub open spec fn tidied(all: Seq<Detail>, list: Seq<Detail>) -> bool {
    &&& ascending(aliases_of(list))
    &&& forall|i: int| 0 <= i < list.len() ==> leads(all, #[trigger] list[i])
    &&& forall|k: int| 0 <= k < all.len() ==> lists(list, (#[trigger] all[k]).alias)
}

proof fn lemma_leads_push(all: Seq<Detail>, more: Detail, d: Detail)
    requires
        leads(all, d),
    ensures
        leads(all.push(more), d),
{
    let k = choose|k: int|
        0 <= k < all.len() && #[trigger] all[k] == d && forall|m: int|
            0 <= m < k ==> (#[trigger] all[m]).alias != d.alias;
    let grown = all.push(more);
    assert(grown[k] == d);
    assert forall|m: int| 0 <= m < k implies (#[trigger] grown[m]).alias != d.alias by {
        assert(all[m].alias != d.alias);
    }
}

/// Adds a record to a list in order, unless its alias is there already.
fn add_detail(list: &mut Vec<HostDetail>, d: HostDetail, Ghost(all): Ghost<Seq<Detail>>)
    requires
        tidied(all, detail_views(old(list)@)),
    ensures
        tidied(all.push(d@), detail_views(final(list)@)),
{
    let ghost before = detail_views(list@);
    let ghost new = d@;
    let ghost grown = all.push(new);
    let mut i: usize = 0;
    while i < list.len() && precedes(list[i].alias.as_str(), d.alias.as_str())
        invariant
            i <= list@.len(),
            before == detail_views(list@),
            new == d@,
            forall|k: int| 0 <= k < i ==> lt((#[trigger] before[k]).alias, new.alias),
        decreases list.len() - i,
    {
        assert(before[i as int] == list@[i as int]@);
        i += 1;
    }
    if i < list.len() && !precedes(d.alias.as_str(), list[i].alias.as_str()) {
        proof {
            assert(before[i as int] == list@[i as int]@);
            lemma_lt_total(before[i as int].alias, new.alias);
            assert forall|j: int| 0 <= j < before.len() implies leads(
                grown,
                #[trigger] before[j],
            ) by {
                lemma_leads_push(all, new, before[j]);
            }
            assert forall|k: int| 0 <= k < grown.len() implies lists(
                before,
                (#[trigger] grown[k]).alias,
            ) by {
                if k < all.len() {
                    assert(lists(before, all[k].alias));
                } else {
                    assert(before[i as int].alias == new.alias);
                }
            }
        }
        return;
    }
    proof {
        if i < list.len() {
            assert(before[i as int] == list@[i as int]@);
        }
    }
    list.insert(i, d);
    proof {
        let after = detail_views(list@);
        assert(after =~= before.insert(i as int, new));
        let keys = aliases_of(before);
        let new_keys = aliases_of(after);
        assert forall|a: int, b: int| 0 <= a < b < new_keys.len() implies lt(
            #[trigger] new_keys[a],
            #[trigger] new_keys[b],
        ) by {
            if a < i {
                assert(keys[a] == before[a].alias);
                assert(new_keys[a] == keys[a]);
            } else if a > i {
                assert(new_keys[a] == keys[a - 1]);
            }
            if b > i {
                assert(new_keys[b] == keys[b - 1]);
            } else if b < i {
                assert(new_keys[b] == keys[b]);
            }
            if a == i {
                assert(keys[i as int] == before[i as int].alias);
                if b - 1 > i {
                    lemma_lt_transitive(new.alias, keys[i as int], keys[b - 1]);
                }
            }
        }
        assert forall|m: int| 0 <= m < all.len() implies (#[trigger] all[m]).alias
            != new.alias by {
            assert(lists(before, all[m].alias));
            let j = choose|j: int|
                0 <= j < before.len() && (#[trigger] before[j]).alias == all[m].alias;
            lemma_lt_irreflexive(new.alias);
            assert(keys[j] == before[j].alias);
            if j >= i {
                assert(keys[i as int] == before[i as int].alias);
                if j > i {
                    lemma_lt_transitive(new.alias, keys[i as int], keys[j]);
                }
            }
        }
        assert(leads(grown, new)) by {
            assert(grown[all.len() as int] == new);
            assert forall|m: int| 0 <= m < all.len() implies (#[trigger] grown[m]).alias
                != new.alias by {
                assert(all[m].alias != new.alias);
            }
        }
        assert forall|j: int| 0 <= j < after.len() implies leads(grown, #[trigger] after[j]) by {
            if j < i {
                lemma_leads_push(all, new, before[j]);
            } else if j > i {
                lemma_leads_push(all, new, before[j - 1]);
            }
        }
        assert forall|k: int| 0 <= k < grown.len() implies lists(
            after,
            (#[trigger] grown[k]).alias,
        ) by {
            if k < all.len() {
                assert(lists(before, all[k].alias));
                let j = choose|j: int|
                    0 <= j < before.len() && (#[trigger] before[j]).alias == all[k].alias;
                if j < i {
                    assert(after[j].alias == all[k].alias);
                } else {
                    assert(after[j + 1].alias == all[k].alias);
                }
            } else {
                assert(after[i as int].alias == new.alias);
            }
        }
    }
}

/// The names in `rest` that can be dialled.
fn split_dialable<'a>(rest: &'a [char]) -> (r: Vec<&'a [char]>)
    ensures
        slices(r@) == dialable_names(words(rest@)),
{
    let names = split_words(rest);
    let ghost all = words(rest@);
    let mut out: Vec<&'a [char]> = Vec::new();
    let mut i: usize = 0;
    assert(slices(out@) =~= Seq::<Seq<char>>::empty());
    while i < names.len()
        invariant
            i <= names@.len(),
            all == slices(names@),
            slices(out@) == dialable_names(all.take(i as int)),
        decreases names.len() - i,
    {
        let ghost before = slices(out@);
        let name = names[i];
        assert(all[i as int] == name@);
        assert(all.take(i + 1).drop_last() =~= all.take(i as int));
        if is_dialable(name) {
            out.push(name);
            assert(slices(out@) =~= before.push(name@));
        }
        i += 1;
    }
    assert(all.take(all.len() as int) =~= all);
    out
}

/// Adds the records of one file's text for `user` to a list in order.
fn collect_details_from_body(
    content: &str,
    user: Option<&str>,
    details: &mut Vec<HostDetail>,
    Ghost(earlier): Ghost<Seq<Detail>>,
)
    requires
        tidied(earlier, detail_views(old(details)@)),
    ensures
        tidied(earlier + file_details(content@, str_view(user)), detail_views(final(details)@)),
{
    let chars = to_chars(content);
    let lines = split_statements(chars.as_slice());
    let user_chars: Vec<char> = match user {
        Some(u) => to_chars(u),
        None => Vec::new(),
    };
    let user_slice: Option<&[char]> = match user {
        Some(_) => Some(user_chars.as_slice()),
        None => None,
    };
    let ghost known = str_view(user);
    let ghost all = statements(content@);
    let mut active: bool = true;
    let mut current: Option<HostDetail> = None;
    let mut i: usize = 0;
    assert(all.take(0) =~= Seq::<Seq<char>>::empty());
    assert(earlier + Seq::<Detail>::empty() =~= earlier);
    while i < lines.len()
        invariant
            i <= lines@.len(),
            all == slices(lines@),
            known == slice_view(user_slice),
            active == scan(all.take(i as int), known).active,
            detail_view(current) == scan(all.take(i as int), known).current,
            tidied(earlier + scan(all.take(i as int), known).done, detail_views(details@)),
        decreases lines.len() - i,
    {
        let line = lines[i];
        let ghost here = scan(all.take(i as int), known);
        proof {
            assert(all[i as int] == line@);
            assert(all.take(i + 1).drop_last() =~= all.take(i as int));
            assert(all.take(i + 1).last() == line@);
        }
        if let Some(rest) = strip_keyword(line, "Match") {
            if let Some(d) = current {
                add_detail(details, d, Ghost(earlier + here.done));
                assert((earlier + here.done).push(d@) =~= earlier + closed_off(here));
            }
            current = None;
            active =
            match evaluate_match(rest, user_slice) {
                MatchOutcome::Active => true,
                MatchOutcome::Inactive => false,
            };
        } else if let Some(rest) = strip_host_directive(line) {
            if let Some(d) = current {
                add_detail(details, d, Ghost(earlier + here.done));
                assert((earlier + here.done).push(d@) =~= earlier + closed_off(here));
            }
            current = None;
            let names = split_dialable(rest);
            let ghost named = dialable_names(words(rest@));
            if active && names.len() > 0 {
                let first = names[0];
                assert(slices(names@)[0] == first@);
                current = Some(HostDetail::new(to_text(first)));
                let ghost extras = bares(named.drop_first());
                let mut k: usize = 1;
                assert(extras.take(0) =~= Seq::<Detail>::empty());
                assert(earlier + closed_off(here) + extras.take(0) =~= earlier + closed_off(here));
                while k < names.len()
                    invariant
                        1 <= k <= names@.len(),
                        named == slices(names@),
                        extras == bares(named.drop_first()),
                        tidied(
                            earlier + closed_off(here) + extras.take(k - 1),
                            detail_views(details@),
                        ),
                    decreases names.len() - k,
                {
                    let extra = names[k];
                    assert(named[k as int] == extra@);
                    assert(extras[k - 1] == bare(extra@));
                    add_detail(
                        details,
                        HostDetail::new(to_text(extra)),
                        Ghost(earlier + closed_off(here) + extras.take(k - 1)),
                    );
                    assert((earlier + closed_off(here) + extras.take(k - 1)).push(bare(extra@))
                        =~= earlier + closed_off(here) + extras.take(k as int));
                    k += 1;
                }
                assert(extras.take(extras.len() as int) =~= extras);
                assert(earlier + closed_off(here) + extras =~= earlier + (closed_off(here)
                    + extras));
            }
            active = true;
        } else {
            if let Some(d) = current {
                current = Some(apply_line(d, line));
            }
        }
        i += 1;
    }
    assert(all.take(all.len() as int) =~= all);
    if let Some(d) = current {
        let ghost end = scan(all, known);
        add_detail(details, d, Ghost(earlier + end.done));
        assert((earlier + end.done).push(d@) =~= earlier + closed_off(end));
    }
}

/// The view of an optional record.
pub open spec fn detail_view(o: Option<HostDetail>) -> Option<Detail> {
    match o {
        Some(d) => Some(d@),
        None => None,
    }
}

/// The records that the files with these texts give for `user`, in order of
/// their aliases; of several records with one alias the first stays.
pub fn host_details_in_files(files: &[String], user: Option<&str>) -> (r: Vec<HostDetail>)
    ensures
        tidied(all_details(texts(files@), str_view(user)), detail_views(r@)),
{
    let mut details: Vec<HostDetail> = Vec::new();
    let ghost bodies = texts(files@);
    let mut f: usize = 0;
    assert(detail_views(details@) =~= Seq::<Detail>::empty());
    while f < files.len()
        invariant
            f <= files@.len(),
            bodies == texts(files@),
            tidied(all_details(bodies.take(f as int), str_view(user)), detail_views(details@)),
        decreases files.len() - f,
    {
        assert(bodies[f as int] == files@[f as int]@);
        assert(bodies.take(f + 1).drop_last() =~= bodies.take(f as int));
        collect_details_from_body(
            files[f].as_str(),
            user,
            &mut details,
            Ghost(all_details(bodies.take(f as int), str_view(user))),
        );
        f += 1;
    }
    assert(bodies.take(bodies.len() as int) =~= bodies);
    details
}

/// The records that one text gives, without a known user and without following
/// its `Include` lines.
pub fn parse_host_details(content: &str) -> (r: Vec<HostDetail>)
    ensures
        tidied(file_details(content@, None), detail_views(r@)),
{
    let mut details: Vec<HostDetail> = Vec::new();
    assert(detail_views(details@) =~= Seq::<Detail>::empty());
    collect_details_from_body(content, None, &mut details, Ghost(Seq::empty()));
    assert(Seq::<Detail>::empty() + file_details(content@, None) =~= file_details(content@, None));
    details
}

/// The order and the choice of records leave only one list.
pub proof fn law_tidied_is_unique(all: Seq<Detail>, a: Seq<Detail>, b: Seq<Detail>)
    requires
        tidied(all, a),
        tidied(all, b),
    ensures
        a == b,
{
    let ka = aliases_of(a);
    let kb = aliases_of(b);
    assert forall|t: Seq<char>| ka.contains(t) implies kb.contains(t) by {
        lemma_same_aliases(all, a, b, t);
    }
    assert forall|t: Seq<char>| kb.contains(t) implies ka.contains(t) by {
        lemma_same_aliases(all, b, a, t);
    }
    lemma_ascending_unique(ka, kb);
    assert(a.len() == ka.len() && b.len() == kb.len());
    assert forall|i: int| 0 <= i < a.len() implies a[i] == b[i] by {
        assert(ka[i] == a[i].alias && kb[i] == b[i].alias);
        assert(leads(all, a[i]) && leads(all, b[i]));
        let k = choose|k: int|
            0 <= k < all.len() && #[trigger] all[k] == a[i] && forall|m: int|
                0 <= m < k ==> (#[trigger] all[m]).alias != a[i].alias;
        let n = choose|n: int|
            0 <= n < all.len() && #[trigger] all[n] == b[i] && forall|m: int|
                0 <= m < n ==> (#[trigger] all[m]).alias != b[i].alias;
        if k < n {
            assert(all[k].alias != b[i].alias);
        } else if n < k {
            assert(all[n].alias != a[i].alias);
        }
    }
    assert(a =~= b);
}

proof fn lemma_same_aliases(all: Seq<Detail>, a: Seq<Detail>, b: Seq<Detail>, t: Seq<char>)
    requires
        tidied(all, a),
        tidied(all, b),
        aliases_of(a).contains(t),
    ensures
        aliases_of(b).contains(t),
{
    let i = choose|i: int| 0 <= i < aliases_of(a).len() && aliases_of(a)[i] == t;
    assert(leads(all, a[i]));
    let k = choose|k: int|
        0 <= k < all.len() && #[trigger] all[k] == a[i] && forall|m: int|
            0 <= m < k ==> (#[trigger] all[m]).alias != a[i].alias;
    assert(lists(b, all[k].alias));
    let j = choose|j: int| 0 <= j < b.len() && (#[trigger] b[j]).alias == all[k].alias;
    assert(aliases_of(b)[j] == t);
}

/// Whether one of the `Host` lines that count lists `name`.
pub open spec fn lines_name(
    lines: Seq<Seq<char>>,
    user: Option<Seq<char>>,
    name: Seq<char>,
) -> bool {
    exists|i: int|
        0 <= i < lines.len() && line_names(#[trigger] lines[i], name) && gate_open(
            lines.take(i),
            user,
        )
}

proof fn lemma_dialable_names(names: Seq<Seq<char>>, t: Seq<char>)
    ensures
        dialable_names(names).contains(t) <==> names.contains(t) && dialable(t),
    decreases names.len(),
{
    if names.len() > 0 {
        let front = names.drop_last();
        let before = dialable_names(front);
        lemma_dialable_names(front, t);
        assert(names =~= front.push(names.last()));
        lemma_push_contains(front, names.last(), t);
        lemma_push_contains(before, names.last(), t);
    }
}

proof fn lemma_push_contains(list: Seq<Seq<char>>, more: Seq<char>, t: Seq<char>)
    ensures
        list.push(more).contains(t) <==> list.contains(t) || t == more,
{
    let grown = list.push(more);
    assert(grown[list.len() as int] == more);
    if list.contains(t) {
        let k = choose|k: int| 0 <= k < list.len() && list[k] == t;
        assert(grown[k] == t);
    }
    if grown.contains(t) && t != more {
        let k = choose|k: int| 0 <= k < grown.len() && grown[k] == t;
        assert(list[k] == t);
    }
}

proof fn lemma_lists_push(list: Seq<Detail>, d: Detail, t: Seq<char>)
    ensures
        lists(list.push(d), t) <==> lists(list, t) || d.alias == t,
{
    let grown = list.push(d);
    assert(grown[list.len() as int] == d);
    if lists(list, t) {
        let k = choose|k: int| 0 <= k < list.len() && (#[trigger] list[k]).alias == t;
        assert(grown[k].alias == t);
    }
    if lists(grown, t) && d.alias != t {
        let k = choose|k: int| 0 <= k < grown.len() && (#[trigger] grown[k]).alias == t;
        assert(list[k].alias == t);
    }
}

proof fn lemma_lists_bares(list: Seq<Detail>, names: Seq<Seq<char>>, t: Seq<char>)
    ensures
        lists(list + bares(names), t) <==> lists(list, t) || names.contains(t),
    decreases names.len(),
{
    if names.len() == 0 {
        assert(list + bares(names) =~= list);
    } else {
        let front = names.drop_last();
        assert(names =~= front.push(names.last()));
        assert(list + bares(names) =~= (list + bares(front)).push(bare(names.last())));
        lemma_lists_bares(list, front, t);
        lemma_lists_push(list + bares(front), bare(names.last()), t);
        lemma_push_contains(front, names.last(), t);
    }
}

proof fn lemma_scan_lists(lines: Seq<Seq<char>>, user: Option<Seq<char>>, t: Seq<char>)
    ensures
        scan(lines, user).active == gate_open(lines, user),
        lists(closed_off(scan(lines, user)), t) <==> lines_name(lines, user, t),
    decreases lines.len(),
{
    if lines.len() > 0 {
        let front = lines.drop_last();
        let line = lines.last();
        let n = front.len() as int;
        let old_scan = scan(front, user);
        let new_scan = scan(lines, user);
        let held = closed_off(old_scan);
        lemma_scan_lists(front, user, t);
        lemma_block_keywords_exclude(line);
        assert(lines.take(n) =~= front);
        assert(lines_name(lines, user, t) <==> lines_name(front, user, t) || (line_names(line, t)
            && gate_open(front, user))) by {
            if lines_name(front, user, t) {
                let i = choose|i: int|
                    0 <= i < front.len() && line_names(#[trigger] front[i], t) && gate_open(
                        front.take(i),
                        user,
                    );
                assert(lines[i] == front[i]);
                assert(lines.take(i) =~= front.take(i));
            }
            if line_names(line, t) && gate_open(front, user) {
                assert(lines[n] == line);
            }
            if lines_name(lines, user, t) {
                let i = choose|i: int|
                    0 <= i < lines.len() && line_names(#[trigger] lines[i], t) && gate_open(
                        lines.take(i),
                        user,
                    );
                if i < n {
                    assert(lines[i] == front[i]);
                    assert(lines.take(i) =~= front.take(i));
                }
            }
        }
        if match_argument(line) is Some {
        } else if let Some(rest) = host_argument(line) {
            let names = dialable_names(words(rest));
            lemma_dialable_names(words(rest), t);
            if old_scan.active && names.len() > 0 {
                let others = names.drop_first();
                lemma_lists_bares(held, others, t);
                lemma_lists_push(held + bares(others), bare(names[0]), t);
                if names.contains(t) && t != names[0] {
                    let k = choose|k: int| 0 <= k < names.len() && names[k] == t;
                    assert(others[k - 1] == t);
                }
                if others.contains(t) {
                    let k = choose|k: int| 0 <= k < others.len() && others[k] == t;
                    assert(names[k + 1] == t);
                }
            }
        } else if let Some(d) = old_scan.current {
            lemma_lists_push(old_scan.done, d, t);
            lemma_lists_push(old_scan.done, with_line(d, line), t);
        }
    }
}

/// The records of a file are those of the aliases that the file names: the list of
/// records and the list of aliases never disagree.
pub proof fn law_records_and_aliases_agree(
    content: Seq<char>,
    user: Option<Seq<char>>,
    alias: Seq<char>,
)
    ensures
        lists(file_details(content, user), alias) <==> file_names(content, user, alias),
{
    lemma_scan_lists(statements(content), user, alias);
}

/// What an outer file says about a host stands, whatever the files after it say.
pub proof fn law_outer_file_wins(
    files: Seq<Seq<char>>,
    user: Option<Seq<char>>,
    list: Seq<Detail>,
    d: Detail,
)
    requires
        files.len() > 0,
        tidied(all_details(files, user), list),
        leads(file_details(files[0], user), d),
    ensures
        list.contains(d),
{
    let all = all_details(files, user);
    let own = file_details(files[0], user);
    lemma_own_details_first(files, user);
    let k = choose|k: int|
        0 <= k < own.len() && #[trigger] own[k] == d && forall|m: int|
            0 <= m < k ==> (#[trigger] own[m]).alias != d.alias;
    assert(all[k] == d);
    assert(lists(list, all[k].alias));
    let j = choose|j: int| 0 <= j < list.len() && (#[trigger] list[j]).alias == d.alias;
    assert(leads(all, list[j]));
    let n = choose|n: int|
        0 <= n < all.len() && #[trigger] all[n] == list[j] && forall|m: int|
            0 <= m < n ==> (#[trigger] all[m]).alias != list[j].alias;
    if n < k {
        assert(own[n].alias != d.alias);
    } else if k < n {
        assert(all[k].alias != list[j].alias);
    }
    assert(list[j] == d);
}

proof fn lemma_own_details_first(files: Seq<Seq<char>>, user: Option<Seq<char>>)
    requires
        files.len() > 0,
    ensures
        file_details(files[0], user).len() <= all_details(files, user).len(),
        forall|i: int|
            0 <= i < file_details(files[0], user).len() ==> #[trigger] all_details(files, user)[i]
                == file_details(files[0], user)[i],
    decreases files.len(),
{
    if files.len() > 1 {
        lemma_own_details_first(files.drop_last(), user);
    } else {
        assert(all_details(files.drop_last(), user) =~= Seq::<Detail>::empty());
    }
}

} // verus!
