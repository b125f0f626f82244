//! The channel catalog ("jorfile"): an ordered, read-only collection of
//! entries binding a channel instance to a genesis hash and a compatible
//! version requirement.

use vstd::prelude::*;

use crate::common::{nightly_chars, Channel, ChannelView};
use crate::date::Date;
use crate::version::VersionReq;

verus! {

/// A fully specified channel instance: a network name and a date.
pub struct ChannelDesc {
    pub network: String,
    pub date: Date,
}

impl ChannelDesc {
    /// Whether this instance belongs to the nightly partition.
    pub open spec fn spec_is_nightly(&self) -> bool {
        self.network@ == nightly_chars()
    }

    /// Whether this instance belongs to the nightly partition.
    pub fn is_nightly(&self) -> (b: bool)
        ensures
            b == self.spec_is_nightly(),
    {
        let probe = Channel::Specific { network: Some(self.network.clone()), date: None };
        probe.is_nightly()
    }

    /// The network name.
    pub fn channel(&self) -> (r: &String)
        ensures
            *r == self.network,
    {
        &self.network
    }

    /// The date.
    pub fn date(&self) -> (r: Date)
        ensures
            r == self.date,
    {
        self.date
    }

    /// A copy with the same fields.
    pub fn duplicate(&self) -> (r: ChannelDesc)
        ensures
            r == *self,
    {
        ChannelDesc { network: self.network.clone(), date: self.date }
    }
}

/// One catalog record: a channel instance, its genesis block hash, and the
/// binary versions compatible with it. Records are immutable and never
/// written back.
pub struct Entry {
    pub channel: ChannelDesc,
    pub genesis_block_hash: String,
    pub jormungandr_versions: VersionReq,
}

impl Entry {
    /// The channel instance this record describes.
    pub fn channel(&self) -> (r: &ChannelDesc)
        ensures
            *r == self.channel,
    {
        &self.channel
    }

    /// The genesis block hash bound to this channel instance.
    pub fn genesis_block_hash(&self) -> (r: &String)
        ensures
            *r == self.genesis_block_hash,
    {
        &self.genesis_block_hash
    }

    /// The compatible version requirement.
    pub fn jormungandr_versions(&self) -> (r: &VersionReq)
        ensures
            *r == self.jormungandr_versions,
    {
        &self.jormungandr_versions
    }

    /// A copy with the same fields.
    pub fn duplicate(&self) -> (r: Entry)
        ensures
            r == *self,
    {
        Entry {
            channel: self.channel.duplicate(),
            genesis_block_hash: self.genesis_block_hash.clone(),
            jormungandr_versions: self.jormungandr_versions,
        }
    }
}

/// Whether a selector picks a channel instance: an unset field matches any
/// value, a set field must equal exactly, and the two partition selectors
/// split instances by their nightly flag.
pub open spec fn spec_channel_matches(cv: ChannelView, network: Seq<char>, date: Date) -> bool {
    match cv {
        ChannelView::Stable => network != nightly_chars(),
        ChannelView::Nightly => network == nightly_chars(),
        ChannelView::Specific { network: n, date: d } => (n is Some ==> n->0 == network) && (d
            is Some ==> d->0 == date),
    }
}

/// Whether the selector matches the catalog record at `i`.
pub open spec fn spec_matches_at(entries: Seq<Entry>, cv: ChannelView, i: int) -> bool {
    0 <= i < entries.len() && spec_channel_matches(
        cv,
        entries[i].channel.network@,
        entries[i].channel.date,
    )
}

/// Whether `i` is the last catalog record the selector matches.
pub open spec fn spec_last_match(entries: Seq<Entry>, cv: ChannelView, i: int) -> bool {
    spec_matches_at(entries, cv, i) && forall|j: int|
        i < j < entries.len() ==> !#[trigger] spec_matches_at(entries, cv, j)
}

/// Whether the selector picks this channel instance.
pub fn channel_matches(desc: &Channel, cd: &ChannelDesc) -> (b: bool)
    ensures
        b == spec_channel_matches(desc@, cd.network@, cd.date),
{
    match desc {
        Channel::Stable => !cd.is_nightly(),
        Channel::Nightly => cd.is_nightly(),
        Channel::Specific { network, date } => {
            let network_ok = match network {
                Some(n) => *n == cd.network,
                None => true,
            };
            let date_ok = match date {
                Some(d) => *d == cd.date,
                None => true,
            };
            network_ok && date_ok
        },
    }
}

/// The catalog, in document order. Identity of a record is its (network,
/// date) pair; the catalog is loaded wholesale and read-only at runtime.
pub struct Jor {
    pub entries: Vec<Entry>,
}

impl Jor {
    /// A catalog over the given records, in the given order.
    pub fn new(entries: Vec<Entry>) -> (r: Jor)
        ensures
            r.entries == entries,
    {
        Jor { entries }
    }

    /// The records, in document order.
    pub fn entries(&self) -> (r: &Vec<Entry>)
        ensures
            *r == self.entries,
    {
        &self.entries
    }

    /// The last record the selector matches: among several matches, the later
    /// catalog record wins.
    pub fn last_match(&self, desc: &Channel) -> (r: Option<usize>)
        ensures
            r is Some ==> spec_last_match(self.entries@, desc@, r->0 as int),
            r is None ==> forall|i: int| !spec_matches_at(self.entries@, desc@, i),
    {
        let mut i: usize = self.entries.len();
        while i > 0
            invariant
                i <= self.entries@.len(),
                forall|j: int|
                    i <= j < self.entries@.len() ==> !#[trigger] spec_matches_at(
                        self.entries@,
                        desc@,
                        j,
                    ),
            decreases i,
        {
            i = i - 1;
            if channel_matches(desc, &self.entries[i].channel) {
                return Some(i);
            }
        }
        None
    }

    /// The first record on the requested side of the stable/nightly
    /// partition.
    pub fn first_by_nightly(&self, nightly: bool) -> (r: Option<usize>)
        ensures
            r is Some ==> r->0 < self.entries@.len() && self.entries@[
                r->0 as int
            ].channel.spec_is_nightly() == nightly && (forall|j: int|
                0 <= j < r->0 ==> #[trigger] self.entries@[j].channel.spec_is_nightly()
                    != nightly),
            r is None ==> forall|j: int|
                0 <= j < self.entries@.len() ==> #[trigger] self.entries@[j].channel.spec_is_nightly()
                    != nightly,
    {
        let mut i: usize = 0;
        while i < self.entries.len()
            invariant
                i <= self.entries@.len(),
                forall|j: int|
                    0 <= j < i ==> #[trigger] self.entries@[j].channel.spec_is_nightly()
                        != nightly,
            decreases self.entries@.len() - i,
        {
            if self.entries[i].channel.is_nightly() == nightly {
                return Some(i);
            }
            i = i + 1;
        }
        None
    }
}

} // verus!
