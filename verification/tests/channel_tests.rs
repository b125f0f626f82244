use jorup::common::{parse_settings, render_settings, Channel, CommonError, JorupConfig, JorupSettings};
use jorup::date::Date;

fn date(year: u64, month: u64, day: u64) -> Date {
    Date { year, month, day }
}

#[test]
fn descriptor_round_trip() {
    let cases = vec![
        Channel::Stable,
        Channel::Nightly,
        Channel::Specific { network: Some(String::from("mainnet")), date: None },
        Channel::Specific { network: Some(String::from("itn_rewards_v1")), date: None },
        Channel::Specific {
            network: Some(String::from("mainnet")),
            date: Some(date(2021, 1, 1)),
        },
        Channel::Specific {
            network: Some(String::from("nightly")),
            date: Some(date(2020, 12, 31)),
        },
        Channel::Specific { network: None, date: Some(date(2021, 1, 1)) },
    ];
    for c in cases {
        let s = c.to_string();
        assert_eq!(Channel::from_str(&s), Ok(c));
    }
}

#[test]
fn descriptor_renders_as_expected() {
    assert_eq!(Channel::Stable.to_string(), "stable");
    assert_eq!(Channel::Nightly.to_string(), "nightly");
    assert_eq!(
        Channel::Specific { network: Some(String::from("mainnet")), date: Some(date(2021, 1, 1)) }
            .to_string(),
        "mainnet-2021-01-01"
    );
    assert_eq!(
        Channel::Specific { network: None, date: Some(date(2021, 1, 1)) }.to_string(),
        "2021-01-01"
    );
}

#[test]
fn descriptor_parse_rejects_malformed() {
    for bad in [
        "", "Main", "main-net", "mainnet-", "mainnet-2021", "mainnet-2021-13-01",
        "2021-13-01", "2021-01-00", "-2021-01-01", "stable-", "9net",
    ] {
        assert_eq!(
            Channel::from_str(bad),
            Err(CommonError::InvalidChannelDescriptor),
            "token {:?} should be rejected",
            bad
        );
    }
}

#[test]
fn nightly_partition_flag() {
    assert!(Channel::Nightly.is_nightly());
    assert!(!Channel::Stable.is_nightly());
    assert!(Channel::Specific {
        network: Some(String::from("nightly")),
        date: Some(date(2021, 1, 1))
    }
    .is_nightly());
    assert!(!Channel::Specific { network: Some(String::from("mainnet")), date: None }
        .is_nightly());
}

#[test]
fn settings_render_exact_document() {
    let st = JorupSettings { default: Channel::Stable };
    assert_eq!(render_settings(&st), "default = \"stable\"\n");
}

#[test]
fn settings_round_trip() {
    for c in [
        Channel::Stable,
        Channel::Nightly,
        Channel::Specific { network: Some(String::from("mainnet")), date: None },
    ] {
        let doc = render_settings(&JorupSettings { default: c.duplicate() });
        let back = parse_settings(&doc).expect("document must parse");
        assert_eq!(back.default, c);
    }
}

#[test]
fn settings_reject_unknown_fields() {
    for bad in [
        "",
        "default = \"stable\"",
        "default = \"stable\"\nextra = 1\n",
        "other = \"stable\"\n",
        "default = \"not a channel\"\n",
        "default = stable\n",
    ] {
        assert_eq!(parse_settings(bad), Err(CommonError::InvalidSettingsDocument));
    }
}

#[test]
fn config_paths_and_flags() {
    let cfg = JorupConfig::new(String::from("/home/u/.jorup"), None, false, None).unwrap();
    assert_eq!(cfg.bin_dir(), "/home/u/.jorup/bin");
    assert_eq!(cfg.channel_dir(), "/home/u/.jorup/channel");
    assert_eq!(cfg.release_dir(), "/home/u/.jorup/release");
    assert_eq!(cfg.jorup_settings_file(), "/home/u/.jorup/settings.toml");
    assert_eq!(cfg.jorfile(), "/home/u/.jorup/jorfile.json");
    assert!(!cfg.offline());
    assert_eq!(*cfg.current_channel(), Channel::Stable);

    let cfg2 = JorupConfig::new(
        String::from("/h"),
        Some(String::from("/tmp/jor.json")),
        true,
        None,
    )
    .unwrap();
    assert_eq!(cfg2.jorfile(), "/tmp/jor.json");
    assert!(cfg2.offline());
}

#[test]
fn config_reads_settings_document() {
    let cfg = JorupConfig::new(
        String::from("/h"),
        None,
        false,
        Some("default = \"nightly\"\n"),
    )
    .unwrap();
    assert_eq!(*cfg.current_channel(), Channel::Nightly);

    let bad = JorupConfig::new(String::from("/h"), None, false, Some("default = nightly\n"));
    assert!(bad.is_err());
}

#[test]
fn set_default_persists_through_reload() {
    let mut cfg = JorupConfig::new(String::from("/h"), None, false, None).unwrap();
    let doc = cfg.set_default_channel(Channel::Nightly);
    let reloaded = parse_settings(&doc).unwrap();
    assert_eq!(reloaded.default, Channel::Nightly);
    assert_eq!(*cfg.current_channel(), Channel::Nightly);
}

#[test]
fn sync_is_explicitly_unavailable_online() {
    let online = JorupConfig::new(String::from("/h"), None, false, None).unwrap();
    assert_eq!(online.sync_jorfile(), Err(CommonError::SyncNotAvailable));

    let offline = JorupConfig::new(String::from("/h"), None, true, None).unwrap();
    assert_eq!(offline.sync_jorfile(), Ok(()));

    let with_file =
        JorupConfig::new(String::from("/h"), Some(String::from("/tmp/j.json")), false, None)
            .unwrap();
    assert_eq!(with_file.sync_jorfile(), Ok(()));
}
