//! Channel workspaces: the per-channel directory holding the committed
//! genesis hash and the node's runtime file paths.

use vstd::prelude::*;

use crate::common;
use crate::common::{CommonError, JorupConfig};
use crate::date::spec_date_str;
use crate::jor::{spec_last_match, spec_matches_at, Entry, Jor};
use crate::text::chars_to_string;
use crate::version::VersionReq;

verus! {

/// The genesis hash file of one workspace, as the engine sees it: absent, or
/// committed with some content. Once committed it is never overwritten.
pub struct GenesisFile {
    pub content: Option<String>,
}

impl View for GenesisFile {
    type V = Option<Seq<char>>;

    open spec fn view(&self) -> Option<Seq<char>> {
        match self.content {
            Some(ref s) => Some(s@),
            None => None,
        }
    }
}

/// What a write-if-absent leaves in the file: the new content only where
/// nothing was committed yet.
pub open spec fn spec_write_if_absent(cur: Option<Seq<char>>, new: Seq<char>) -> Option<
    Seq<char>,
> {
    if cur is None {
        Some(new)
    } else {
        cur
    }
}

impl GenesisFile {
    /// Commit content only if none is committed yet; report whether a write
    /// happened, so the caller can mirror it to disk.
    pub fn write_if_absent(&mut self, content: &String) -> (written: bool)
        ensures
            final(self)@ == spec_write_if_absent(old(self)@, content@),
            written == (old(self)@ is None),
    {
        match self.content {
            Some(_) => false,
            None => {
                self.content = Some(content.clone());
                true
            },
        }
    }
}

/// Committing twice leaves the first committed content in place, whatever the
/// second write carries: the genesis file is write-once.
pub proof fn lemma_genesis_write_once(cur: Option<Seq<char>>, h1: Seq<char>, h2: Seq<char>)
    ensures
        spec_write_if_absent(spec_write_if_absent(cur, h1), h2) == spec_write_if_absent(cur, h1),
{
}

/// A resolved channel: the catalog entry it came from, the selector that
/// picked it, and its workspace directory.
pub struct Channel {
    pub entry: Entry,
    pub version: common::Channel,
    pub path: String,
}

/// The workspace directory of an entry: channel root, network, date.
pub open spec fn spec_workspace_path(home: Seq<char>, e: Entry) -> Seq<char> {
    home + "/channel/"@ + e.channel.network@ + "/"@ + spec_date_str(e.channel.date)
}

impl Channel {
    /// The workspace for an entry. The directory tree itself is created by
    /// the caller, idempotently.
    pub fn new(cfg: &JorupConfig, entry: Entry, channel_version: common::Channel) -> (r: Channel)
        ensures
            r.entry == entry,
            r.version == channel_version,
            r.path@ == spec_workspace_path(cfg.home_dir@, entry),
    {
        let mut p = cfg.channel_dir();
        p.append("/");
        p.append(entry.channel.network.as_str());
        p.append("/");
        let mut datev: Vec<char> = Vec::new();
        entry.channel.date.push_chars(&mut datev);
        let dates = chars_to_string(&datev);
        p.append(dates.as_str());
        proof {
            reveal_strlit("/channel");
            reveal_strlit("/channel/");
            reveal_strlit("/");
            assert(p@ =~= spec_workspace_path(cfg.home_dir@, entry));
        }
        Channel { entry, version: channel_version, path: p }
    }

    /// Resolve a channel: an explicit selector picks the last matching
    /// catalog record; with none, the configured default channel picks the
    /// first record on its side of the stable/nightly partition.
    pub fn load(cfg: &JorupConfig, jor: &Jor, requested: Option<&common::Channel>) -> (r: Result<
        Channel,
        CommonError,
    >)
        ensures
            r is Err ==> r->Err_0 == CommonError::NoEntryForChannel,
            r is Ok ==> r->Ok_0.path@ == spec_workspace_path(cfg.home_dir@, r->Ok_0.entry),
            requested is Some ==> ({
                &&& (r is Ok ==> exists|i: int|
                    #[trigger] spec_last_match(jor.entries@, requested->0@, i)
                        && r->Ok_0.entry == jor.entries@[i] && r->Ok_0.version == *requested->0)
                &&& (r is Err <==> forall|i: int| !spec_matches_at(jor.entries@, requested->0@, i))
            }),
            requested is None ==> ({
                &&& (r is Ok ==> exists|i: int|
                    0 <= i < jor.entries@.len() && (#[trigger] jor.entries@[i]).channel.spec_is_nightly()
                        == common::spec_is_nightly(cfg.settings.default@) && r->Ok_0.entry
                        == jor.entries@[i] && r->Ok_0.version == cfg.settings.default)
                &&& (r is Err <==> forall|i: int|
                    0 <= i < jor.entries@.len()
                        ==> (#[trigger] jor.entries@[i]).channel.spec_is_nightly()
                        != common::spec_is_nightly(cfg.settings.default@))
            }),
    {
        match requested {
            Some(desc) => match jor.last_match(desc) {
                Some(i) => {
                    let e = jor.entries[i].duplicate();
                    let c = Self::new(cfg, e, desc.duplicate());
                    Ok(c)
                },
                None => Err(CommonError::NoEntryForChannel),
            },
            None => match cfg.current_entry(jor) {
                Some(i) => {
                    let e = jor.entries[i].duplicate();
                    let c = Self::new(cfg, e, cfg.current_channel().duplicate());
                    Ok(c)
                },
                None => Err(CommonError::NoEntryForChannel),
            },
        }
    }

    /// The selector that picked this channel.
    pub fn channel_version(&self) -> (r: &common::Channel)
        ensures
            *r == self.version,
    {
        &self.version
    }

    /// The catalog entry this channel runs against.
    pub fn entry(&self) -> (r: &Entry)
        ensures
            *r == self.entry,
    {
        &self.entry
    }

    /// The compatible binary versions for this channel.
    pub fn jormungandr_version_req(&self) -> (r: &VersionReq)
        ensures
            *r == self.entry.jormungandr_versions,
    {
        &self.entry.jormungandr_versions
    }

    /// Prepare the workspace: commit the entry's genesis hash to the genesis
    /// file, only if none is committed yet. A committed genesis is never
    /// overwritten, even by a later entry resolving to the same directory.
    pub fn prepare(&self, genesis: &mut GenesisFile) -> (written: bool)
        ensures
            final(genesis)@ == spec_write_if_absent(old(genesis)@, self.entry.genesis_block_hash@),
            written == (old(genesis)@ is None),
    {
        self.install_block0_hash(genesis)
    }

    /// The write-once commit of the genesis hash.
    fn install_block0_hash(&self, genesis: &mut GenesisFile) -> (written: bool)
        ensures
            final(genesis)@ == spec_write_if_absent(old(genesis)@, self.entry.genesis_block_hash@),
            written == (old(genesis)@ is None),
    {
        genesis.write_if_absent(&self.entry.genesis_block_hash)
    }

    /// The workspace directory.
    pub fn dir(&self) -> (r: &String)
        ensures
            *r == self.path,
    {
        &self.path
    }

    /// The node's log file path.
    pub fn get_log_file(&self) -> (r: String)
        ensures
            r@ == self.path@ + "/NODE.logs"@,
    {
        let mut r = self.path.clone();
        r.append("/NODE.logs");
        r
    }

    /// The runner configuration path.
    pub fn get_runner_file(&self) -> (r: String)
        ensures
            r@ == self.path@ + "/running_config.toml"@,
    {
        let mut r = self.path.clone();
        r.append("/running_config.toml");
        r
    }

    /// The genesis hash file path.
    pub fn get_genesis_block_hash(&self) -> (r: String)
        ensures
            r@ == self.path@ + "/genesis.block.hash"@,
    {
        let mut r = self.path.clone();
        r.append("/genesis.block.hash");
        r
    }

    /// The node's storage directory path.
    pub fn get_node_storage(&self) -> (r: String)
        ensures
            r@ == self.path@ + "/node-storage"@,
    {
        let mut r = self.path.clone();
        r.append("/node-storage");
        r
    }

    /// The node's configuration file path.
    pub fn get_node_config(&self) -> (r: String)
        ensures
            r@ == self.path@ + "/node-config.yaml"@,
    {
        let mut r = self.path.clone();
        r.append("/node-config.yaml");
        r
    }

    /// The node's secret file path.
    pub fn get_node_secret(&self) -> (r: String)
        ensures
            r@ == self.path@ + "/node-secret.yaml"@,
    {
        let mut r = self.path.clone();
        r.append("/node-secret.yaml");
        r
    }

    /// The wallet secret file path.
    pub fn get_wallet_secret(&self) -> (r: String)
        ensures
            r@ == self.path@ + "/wallet.secret.key"@,
    {
        let mut r = self.path.clone();
        r.append("/wallet.secret.key");
        r
    }
}

} // verus!
