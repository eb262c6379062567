//! The list of hosts that is shown, and when it changes.

use vstd::prelude::*;

use crate::details::{
    aliases_of, all_details, copy_details, detail_views, same_details, tidied, Detail, HostDetail,
};
use crate::order::{ascending, lemma_lt_irreflexive, lt};

verus! {

/// What happens to the list of hosts.
#[derive(Debug, PartialEq, Eq)]
pub enum SshHostsEvent {
    /// The list changed; this is the new one.
    HostsUpdated(Vec<HostDetail>),
}

/// The hosts of the user's configuration, as of the last time it was read.
#[derive(Debug)]
pub struct SshHostsModel {
    hosts: Vec<HostDetail>,
}

impl View for SshHostsModel {
    type V = Seq<Detail>;

    closed spec fn view(&self) -> Seq<Detail> {
        detail_views(self.hosts@)
    }
}

impl SshHostsModel {
    /// A model that starts with these hosts.
    pub fn new(hosts: Vec<HostDetail>) -> (r: Self)
        ensures
            r@ == detail_views(hosts@),
    {
        SshHostsModel { hosts }
    }

    /// A model that starts without hosts.
    pub fn new_for_testing() -> (r: Self)
        ensures
            r@ == Seq::<Detail>::empty(),
    {
        let r = SshHostsModel { hosts: Vec::new() };
        assert(r@ =~= Seq::<Detail>::empty());
        r
    }

    /// The hosts.
    pub fn hosts(&self) -> (r: &[HostDetail])
        ensures
            detail_views(r@) == self@,
    {
        self.hosts.as_slice()
    }

    /// Takes over the hosts of a fresh read. There is an event, with the new list,
    /// exactly where the list changed.
    pub fn apply_refresh(&mut self, new_hosts: Vec<HostDetail>) -> (r: Option<SshHostsEvent>)
        ensures
            final(self)@ == detail_views(new_hosts@),
            match r {
                Some(SshHostsEvent::HostsUpdated(list)) => detail_views(new_hosts@) != old(self)@
                    && detail_views(list@) == detail_views(new_hosts@),
                None => detail_views(new_hosts@) == old(self)@,
            },
    {
        if same_details(&new_hosts, &self.hosts) {
            return None;
        }
        self.hosts = copy_details(&new_hosts);
        Some(SshHostsEvent::HostsUpdated(new_hosts))
    }
}

/// Hosts that were read from configuration files stand in ascending order of their
/// aliases, and no alias occurs twice, both in a model that starts with them and in one
/// that takes them over.
pub proof fn law_hosts_are_in_order(
    files: Seq<Seq<char>>,
    user: Option<Seq<char>>,
    model: SshHostsModel,
)
    requires
        tidied(all_details(files, user), model@),
    ensures
        ascending(aliases_of(model@)),
        forall|i: int, j: int|
            0 <= i < j < model@.len() ==> (#[trigger] model@[i]).alias != (
            #[trigger] model@[j]).alias,
{
    let aliases = aliases_of(model@);
    assert forall|i: int, j: int| 0 <= i < j < model@.len() implies (#[trigger] model@[i]).alias
        != (#[trigger] model@[j]).alias by {
        assert(lt(aliases[i], aliases[j]));
        lemma_lt_irreflexive(aliases[i]);
    }
}

} // verus!
