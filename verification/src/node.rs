//! The node-management commands and the decisions behind them: turning a
//! request into a version requirement, planning an install against the local
//! inventory, and resuming a half-finished install pipeline.

use vstd::prelude::*;

use crate::common::{Channel, CommonError};
use crate::github::GithubError;
use crate::jor::{spec_last_match, spec_matches_at, Jor};
use crate::release::{ReleaseError, ReleaseInventory};
use crate::version::{Version, VersionReq};

verus! {

/// Manage the node's installed versions.
pub enum Command {
    /// Install a version: a specific one, the one a blockchain's channel
    /// requires, or the latest. At most one of the two selectors may be set.
    Install { version: Option<Version>, blockchain: Option<String>, make_default: bool },
    /// List the locally installed releases.
    List,
    /// Remove the release of exactly the given version.
    Remove { version: Version },
}

/// Errors of the download collaborator, as the engine classifies them.
#[derive(Clone, Copy, Debug, PartialEq, Eq, Structural)]
pub enum DownloadError {
    ClientCreateFailed,
    TransferFailed,
}

/// Errors of the node-management commands.
#[derive(Clone, Copy, Debug, PartialEq, Eq, Structural)]
pub enum Error {
    Offline,
    NoValidBlockchain(CommonError),
    GitHub(GithubError),
    MustNotSpecifyBlockchainAndVersion,
    ReleaseLoad(ReleaseError),
    CannotUpdate(DownloadError),
    ReleasesList(ReleaseError),
    RemoveRelease(ReleaseError),
    DownloaderCreate(DownloadError),
}

/// What an install request must do next: use a release already installed, or
/// fetch one satisfying the requirement from the remote feed.
#[derive(Clone, Copy, Debug, PartialEq, Eq, Structural)]
pub enum InstallPlan {
    UseInstalled(Version),
    FetchRemote(VersionReq),
}

/// The remaining step of the install pipeline for one release.
#[derive(Clone, Copy, Debug, PartialEq, Eq, Structural)]
pub enum PipelineStep {
    Download,
    Register,
    Done,
}

/// The version requirement an install request asks for. Giving both a version
/// and a blockchain is a request-time error, raised before anything else;
/// a blockchain selector resolves through the catalog, last match winning.
pub fn requested_requirement(
    jor: &Jor,
    version: Option<Version>,
    blockchain: Option<&Channel>,
) -> (r: Result<VersionReq, Error>)
    ensures
        version is Some && blockchain is Some ==> r is Err && r->Err_0
            == Error::MustNotSpecifyBlockchainAndVersion,
        version is Some && blockchain is None ==> r is Ok && r->Ok_0 == VersionReq::Exact(
            version->0,
        ),
        version is None && blockchain is None ==> r is Ok && r->Ok_0 == VersionReq::Latest,
        version is None && blockchain is Some ==> ({
            &&& (r is Ok ==> exists|i: int|
                #[trigger] spec_last_match(jor.entries@, blockchain->0@, i) && r->Ok_0
                    == jor.entries@[i].jormungandr_versions)
            &&& (r is Err <==> forall|i: int| !spec_matches_at(jor.entries@, blockchain->0@, i))
            &&& (r is Err ==> r->Err_0 == Error::NoValidBlockchain(CommonError::NoEntryForChannel))
        }),
{
    if version.is_some() && blockchain.is_some() {
        return Err(Error::MustNotSpecifyBlockchainAndVersion);
    }
    match version {
        Some(v) => Ok(VersionReq::Exact(v)),
        None => match blockchain {
            None => Ok(VersionReq::Latest),
            Some(desc) => match jor.last_match(desc) {
                Some(i) => Ok(jor.entries[i].jormungandr_versions),
                None => Err(Error::NoValidBlockchain(CommonError::NoEntryForChannel)),
            },
        },
    }
}

/// Plan an install: a release already satisfying the requirement is used as
/// it stands, with no network access; otherwise the remote feed must be
/// consulted, which the offline flag forbids.
pub fn plan_install(inv: &ReleaseInventory, offline: bool, req: &VersionReq) -> (r: Result<
    InstallPlan,
    Error,
>)
    ensures
        (exists|i: int|
            0 <= i < inv.installed@.len() && req.spec_matches(#[trigger] inv.installed@[i])) ==> r
            is Ok && r->Ok_0 is UseInstalled && crate::version::spec_selects(
            inv.installed@,
            *req,
            r->Ok_0->UseInstalled_0,
        ),
        !(exists|i: int|
            0 <= i < inv.installed@.len() && req.spec_matches(#[trigger] inv.installed@[i]))
            ==> ({
            &&& (offline ==> r is Err && r->Err_0 == Error::Offline)
            &&& (!offline ==> r is Ok && r->Ok_0 == InstallPlan::FetchRemote(*req))
        }),
{
    match crate::version::find_best_match(&inv.installed, req) {
        Some(v) => {
            proof {
                crate::release::lemma_selects_gives_match(inv.installed@, *req, v);
            }
            Ok(InstallPlan::UseInstalled(v))
        },
        None => {
            if offline {
                Err(Error::Offline)
            } else {
                Ok(InstallPlan::FetchRemote(*req))
            }
        },
    }
}

/// The pipeline step still owed for a release: a release counts as installed
/// only once its asset is present and its directory is registered, so a run
/// interrupted between the two resumes at the missing step.
pub fn next_pipeline_step(asset_present: bool, registered: bool) -> (r: PipelineStep)
    ensures
        r is Download <==> !asset_present,
        r is Register <==> asset_present && !registered,
        r is Done <==> asset_present && registered,
{
    if !asset_present {
        PipelineStep::Download
    } else if !registered {
        PipelineStep::Register
    } else {
        PipelineStep::Done
    }
}

/// Installing is idempotent: once a version is installed, its own exact
/// requirement is satisfied by the inventory, and whatever the requirement
/// selects among the installed versions under `Exact` is that version again.
pub proof fn lemma_install_idempotent(installed: Seq<Version>, v: Version)
    requires
        installed.contains(v),
    ensures
        exists|i: int|
            0 <= i < installed.len() && VersionReq::Exact(v).spec_matches(#[trigger] installed[i]),
        forall|x: Version| crate::version::spec_selects(installed, VersionReq::Exact(v), x) ==> x
            == v,
{
    let k = choose|k: int| 0 <= k < installed.len() && installed[k] == v;
    assert(VersionReq::Exact(v).spec_matches(installed[k]));
}

} // verus!
