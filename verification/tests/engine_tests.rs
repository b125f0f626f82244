use jorup::channel::{Channel as Workspace, GenesisFile};
use jorup::common::{Channel, JorupConfig};
use jorup::date::Date;
use jorup::github::{find_matching_release, GithubError};
use jorup::jor::{ChannelDesc, Entry, Jor};
use jorup::node::{
    next_pipeline_step, plan_install, requested_requirement, Error, InstallPlan, PipelineStep,
};
use jorup::release::{Release, ReleaseError, ReleaseInventory};
use jorup::version::{Version, VersionReq};

fn v(major: u64, minor: u64, patch: u64) -> Version {
    Version { major, minor, patch }
}

fn entry(network: &str, d: Date, req: VersionReq, hash: &str) -> Entry {
    Entry {
        channel: ChannelDesc { network: String::from(network), date: d },
        genesis_block_hash: String::from(hash),
        jormungandr_versions: req,
    }
}

fn date(year: u64, month: u64, day: u64) -> Date {
    Date { year, month, day }
}

fn cfg() -> JorupConfig {
    JorupConfig::new(String::from("/h"), None, false, None).unwrap()
}

#[test]
fn last_matching_entry_wins() {
    let jor = Jor::new(vec![
        entry("mainnet", date(2020, 1, 1), VersionReq::Latest, "aa"),
        entry("testnet", date(2020, 6, 1), VersionReq::Latest, "bb"),
        entry("mainnet", date(2021, 1, 1), VersionReq::Latest, "cc"),
    ]);
    let desc = Channel::Specific { network: Some(String::from("mainnet")), date: None };
    assert_eq!(jor.last_match(&desc), Some(2));

    let exact = Channel::Specific {
        network: Some(String::from("mainnet")),
        date: Some(date(2020, 1, 1)),
    };
    assert_eq!(jor.last_match(&exact), Some(0));

    let missing = Channel::Specific { network: Some(String::from("othernet")), date: None };
    assert_eq!(jor.last_match(&missing), None);
}

#[test]
fn default_channel_picks_first_of_partition() {
    let jor = Jor::new(vec![
        entry("nightly", date(2021, 1, 1), VersionReq::Latest, "nn"),
        entry("mainnet", date(2021, 1, 1), VersionReq::Latest, "mm"),
        entry("testnet", date(2021, 2, 1), VersionReq::Latest, "tt"),
    ]);
    let c = cfg();
    assert_eq!(c.current_entry(&jor), Some(1));

    let mut nightly_cfg = cfg();
    nightly_cfg.set_default_channel(Channel::Nightly);
    assert_eq!(nightly_cfg.current_entry(&jor), Some(0));
}

#[test]
fn workspace_path_and_accessors() {
    let c = cfg();
    let e = entry("mainnet", date(2021, 1, 1), VersionReq::Latest, "aa");
    let w = Workspace::new(&c, e, Channel::Stable);
    assert_eq!(*w.dir(), "/h/channel/mainnet/2021-01-01");
    assert_eq!(w.get_genesis_block_hash(), "/h/channel/mainnet/2021-01-01/genesis.block.hash");
    assert_eq!(w.get_log_file(), "/h/channel/mainnet/2021-01-01/NODE.logs");
    assert_eq!(w.get_runner_file(), "/h/channel/mainnet/2021-01-01/running_config.toml");
    assert_eq!(w.get_node_storage(), "/h/channel/mainnet/2021-01-01/node-storage");
    assert_eq!(w.get_node_config(), "/h/channel/mainnet/2021-01-01/node-config.yaml");
    assert_eq!(w.get_node_secret(), "/h/channel/mainnet/2021-01-01/node-secret.yaml");
    assert_eq!(w.get_wallet_secret(), "/h/channel/mainnet/2021-01-01/wallet.secret.key");
}

#[test]
fn workspace_load_resolves_entries() {
    let c = cfg();
    let jor = Jor::new(vec![
        entry("mainnet", date(2020, 1, 1), VersionReq::Latest, "aa"),
        entry("mainnet", date(2021, 1, 1), VersionReq::Latest, "cc"),
    ]);
    let desc = Channel::Specific { network: Some(String::from("mainnet")), date: None };
    let w = Workspace::load(&c, &jor, Some(&desc)).unwrap();
    assert_eq!(*w.entry().genesis_block_hash(), "cc");
    assert_eq!(*w.channel_version(), desc);

    let missing = Channel::Specific { network: Some(String::from("othernet")), date: None };
    match Workspace::load(&c, &jor, Some(&missing)) {
        Err(e) => assert_eq!(e, jorup::common::CommonError::NoEntryForChannel),
        Ok(_) => panic!("missing channel must not resolve"),
    }

    let by_default = Workspace::load(&c, &jor, None).unwrap();
    assert_eq!(*by_default.entry().genesis_block_hash(), "aa");
}

#[test]
fn genesis_file_is_write_once() {
    let c = cfg();
    let e1 = entry("mainnet", date(2021, 1, 1), VersionReq::Latest, "first-hash");
    let e2 = entry("mainnet", date(2021, 1, 1), VersionReq::Latest, "second-hash");
    let w1 = Workspace::new(&c, e1, Channel::Stable);
    let w2 = Workspace::new(&c, e2, Channel::Stable);

    let mut genesis = GenesisFile { content: None };
    assert!(w1.prepare(&mut genesis));
    assert_eq!(genesis.content.as_deref(), Some("first-hash"));
    assert!(!w2.prepare(&mut genesis));
    assert_eq!(genesis.content.as_deref(), Some("first-hash"));
}

#[test]
fn inventory_register_is_idempotent() {
    let mut inv = ReleaseInventory::new();
    inv.register(v(1, 0, 0));
    inv.register(v(1, 2, 0));
    inv.register(v(1, 0, 0));
    assert_eq!(inv.list(), vec![v(1, 0, 0), v(1, 2, 0)]);
}

#[test]
fn inventory_from_dir_names_ignores_strays() {
    let names = vec![
        String::from("1.0.0"),
        String::from("not-a-version"),
        String::from("1.2.0"),
        String::from("01.0.0"),
    ];
    let inv = ReleaseInventory::from_dir_names(&names);
    assert_eq!(inv.list(), vec![v(1, 0, 0), v(1, 2, 0)]);
}

#[test]
fn inventory_load_selects_like_the_finder() {
    let c = cfg();
    let mut inv = ReleaseInventory::new();
    inv.register(v(1, 0, 0));
    inv.register(v(1, 2, 0));
    let best = inv.load(&c, &VersionReq::Latest).unwrap();
    assert_eq!(best.version, v(1, 2, 0));
    assert_eq!(*best.dir(), "/h/release/1.2.0");
    assert_eq!(best.get_asset(), "/h/release/1.2.0/asset.tar.gz");

    let exact = inv.load(&c, &VersionReq::exact(v(1, 0, 0))).unwrap();
    assert_eq!(exact.version, v(1, 0, 0));

    let miss = inv.load(&c, &VersionReq::exact(v(9, 0, 0)));
    assert!(matches!(
        miss,
        Err(ReleaseError::NoCompatibleReleaseInstalled(VersionReq::Exact(x))) if x == v(9, 0, 0)
    ));
}

#[test]
fn remove_missing_release_fails_and_changes_nothing() {
    let mut inv = ReleaseInventory::new();
    let r = inv.remove(&v(2, 0, 0));
    assert_eq!(r, Err(ReleaseError::ReleaseNotInstalled(v(2, 0, 0))));
    assert_eq!(inv.list(), Vec::<Version>::new());
}

#[test]
fn remove_installed_release_deletes_exactly_it() {
    let mut inv = ReleaseInventory::new();
    inv.register(v(1, 0, 0));
    inv.register(v(1, 2, 0));
    assert_eq!(inv.remove(&v(1, 0, 0)), Ok(()));
    assert_eq!(inv.list(), vec![v(1, 2, 0)]);
}

#[test]
fn conflicting_selectors_fail_before_anything_else() {
    let jor = Jor::new(Vec::new());
    let desc = Channel::Specific { network: Some(String::from("mainnet")), date: None };
    let r = requested_requirement(&jor, Some(v(1, 0, 0)), Some(&desc));
    assert_eq!(r, Err(Error::MustNotSpecifyBlockchainAndVersion));
}

#[test]
fn requirement_resolution_paths() {
    let jor = Jor::new(vec![entry(
        "mainnet",
        date(2021, 1, 1),
        VersionReq::exact(v(1, 0, 0)),
        "aa",
    )]);
    assert_eq!(requested_requirement(&jor, None, None), Ok(VersionReq::Latest));
    assert_eq!(
        requested_requirement(&jor, Some(v(1, 0, 0)), None),
        Ok(VersionReq::Exact(v(1, 0, 0)))
    );
    let desc = Channel::Specific { network: Some(String::from("mainnet")), date: None };
    assert_eq!(
        requested_requirement(&jor, None, Some(&desc)),
        Ok(VersionReq::Exact(v(1, 0, 0)))
    );
    let missing = Channel::Specific { network: Some(String::from("othernet")), date: None };
    assert_eq!(
        requested_requirement(&jor, None, Some(&missing)),
        Err(Error::NoValidBlockchain(jorup::common::CommonError::NoEntryForChannel))
    );
}

#[test]
fn fresh_install_resolves_latest_remote() {
    // Empty inventory, no selectors: the request resolves Latest against the
    // remote feed and installs the maximum offered version.
    let jor = Jor::new(vec![entry("mainnet", date(2021, 1, 1), VersionReq::Latest, "aa")]);
    let mut inv = ReleaseInventory::new();
    let req = requested_requirement(&jor, None, None).unwrap();
    let plan = plan_install(&inv, false, &req).unwrap();
    assert_eq!(plan, InstallPlan::FetchRemote(VersionReq::Latest));

    let remote_tags = vec![v(1, 0, 0), v(1, 2, 0)];
    let got = find_matching_release(&remote_tags, &req).unwrap();
    assert_eq!(got, v(1, 2, 0));

    let release = Release::new(&cfg(), got);
    assert_eq!(*release.dir(), "/h/release/1.2.0");
    inv.register(got);
    assert_eq!(inv.list(), vec![v(1, 2, 0)]);
}

#[test]
fn satisfied_install_uses_local_release() {
    let mut inv = ReleaseInventory::new();
    inv.register(v(1, 2, 0));
    let plan = plan_install(&inv, false, &VersionReq::exact(v(1, 2, 0))).unwrap();
    assert_eq!(plan, InstallPlan::UseInstalled(v(1, 2, 0)));
    // Even offline: no network access is needed.
    let plan_off = plan_install(&inv, true, &VersionReq::exact(v(1, 2, 0))).unwrap();
    assert_eq!(plan_off, InstallPlan::UseInstalled(v(1, 2, 0)));
}

#[test]
fn offline_install_without_local_release_fails() {
    let inv = ReleaseInventory::new();
    let r = plan_install(&inv, true, &VersionReq::Latest);
    assert_eq!(r, Err(Error::Offline));
}

#[test]
fn remote_feed_misses_are_reported() {
    let tags = vec![v(1, 0, 0)];
    assert_eq!(
        find_matching_release(&tags, &VersionReq::exact(v(2, 0, 0))),
        Err(GithubError::NoMatchingRemoteRelease)
    );
}

#[test]
fn pipeline_resumes_at_the_missing_step() {
    assert_eq!(next_pipeline_step(false, false), PipelineStep::Download);
    assert_eq!(next_pipeline_step(false, true), PipelineStep::Download);
    assert_eq!(next_pipeline_step(true, false), PipelineStep::Register);
    assert_eq!(next_pipeline_step(true, true), PipelineStep::Done);
}
