use auto_server::upgrade::{
    check_and_perform_upgrade, check_interval, entry_matches, extract_binary, extract_entry,
    find_entry, get_target_artifact_name, is_newer_version, is_sound_tar, parse_interval,
    recover_entry, releases_url, restart_via_systemd, run_upgrade_loop, split_version, AfterCheck,
    Asset, ExtractError, Release, UpgradePlan,
};
use std::io::Write;
use std::time::Duration;

#[test]
fn test_parse_interval() {
    assert_eq!(parse_interval("1h").unwrap(), Duration::from_secs(3600));
    assert_eq!(parse_interval("24h").unwrap(), Duration::from_secs(24 * 3600));
    assert_eq!(parse_interval("3d").unwrap(), Duration::from_secs(3 * 86400));
    assert_eq!(parse_interval("1w").unwrap(), Duration::from_secs(7 * 86400));
    assert_eq!(parse_interval("1m").unwrap(), Duration::from_secs(30 * 86400));
    assert_eq!(parse_interval("2m").unwrap(), Duration::from_secs(60 * 86400));

    assert_eq!(parse_interval("30m").unwrap(), Duration::from_secs(30 * 30 * 86400));
    assert!(parse_interval("0h").is_err());
}

#[test]
fn parse_interval_messages() {
    assert_eq!(parse_interval("  ").unwrap_err(), "empty interval");
    assert_eq!(parse_interval("h").unwrap_err(), "invalid number");
    assert_eq!(parse_interval("-1h").unwrap_err(), "invalid number");
    assert_eq!(
        parse_interval("5s").unwrap_err(),
        "unknown time unit 's'. Supported units are h (hours), d (days), w (weeks), m (months)."
    );
    assert_eq!(
        parse_interval("0w").unwrap_err(),
        "minimum auto-upgrade interval is 1h"
    );
    assert_eq!(
        parse_interval(" +2h\n").unwrap(),
        Duration::from_secs(2 * 3600)
    );
}

#[test]
fn intervals_that_cannot_be_held() {
    assert!(check_interval("1h"));
    assert!(check_interval("nonsense"));
    assert!(check_interval("7116931142m"));
    assert!(!check_interval("18446744073709551615m"));
}

#[test]
fn test_is_newer_version() {
    assert!(is_newer_version("0.1.0", "0.1.1"));
    assert!(is_newer_version("0.1.0", "1.0.0"));
    assert!(is_newer_version("v0.1.0", "v0.2.0"));
    assert!(is_newer_version("v0.1.0", "0.1.1"));
    assert!(!is_newer_version("0.1.1", "0.1.1"));
    assert!(!is_newer_version("0.1.1", "0.1.0"));
    assert!(!is_newer_version("v1.0.0", "v0.9.9"));

    assert!(is_newer_version("0.1.0-beta1", "0.1.0-rc1"));
    assert!(is_newer_version("0.1.0-beta1", "0.1.0"));
    assert!(!is_newer_version("0.1.0", "0.1.0-beta1"));
    assert!(is_newer_version("0.1.0-rc1", "0.1.1-beta1"));
    assert!(!is_newer_version("0.1.1-beta1", "0.1.0-rc1"));
}

#[test]
fn versions_of_different_lengths() {
    assert!(!is_newer_version("1.0", "1.0.0"));
    assert!(!is_newer_version("1.0.0", "1.0"));
    assert!(is_newer_version("1", "1.0.1"));
    assert!(is_newer_version("1.x", "1.1"));
    assert!(is_newer_version("0.9", "0.10"));
    assert_eq!(split_version("vv1.2-rc.1-x"), ("1.2", Some("rc.1-x")));
    assert_eq!(split_version("1.2"), ("1.2", None));
}

#[test]
fn newer_is_an_order() {
    let versions = ["0.9", "1.0.0-beta", "1.0.0-rc1", "1.0.0", "1.0.1", "2"];
    for (i, a) in versions.iter().enumerate() {
        for (j, b) in versions.iter().enumerate() {
            assert_eq!(is_newer_version(a, b), i < j, "{a} {b}");
        }
    }
}

#[test]
fn artifacts_by_platform() {
    assert_eq!(
        get_target_artifact_name("linux", "x86_64", "gnu"),
        Some("auto-server-linux-x86_64-unknown-linux-gnu")
    );
    assert_eq!(
        get_target_artifact_name("linux", "aarch64", "musl"),
        Some("auto-server-linux-aarch64-unknown-linux-musl")
    );
    assert_eq!(
        get_target_artifact_name("macos", "aarch64", ""),
        Some("auto-server-macos-aarch64-apple-darwin")
    );
    assert_eq!(
        get_target_artifact_name("windows", "x86_64", "msvc"),
        Some("auto-server-windows-x86_64-pc-windows-msvc")
    );
    assert_eq!(get_target_artifact_name("macos", "x86_64", ""), None);
    assert_eq!(get_target_artifact_name("linux", "riscv64", "gnu"), None);
}

fn release(tag: &str, names: &[&str]) -> Release {
    Release {
        tag_name: tag.to_string(),
        assets: names
            .iter()
            .enumerate()
            .map(|(i, n)| Asset {
                name: n.to_string(),
                browser_download_url: format!("https://host/{i}"),
            })
            .collect(),
    }
}

#[test]
fn upgrade_plans() {
    assert!(matches!(
        check_and_perform_upgrade("1.0", &vec![], "app"),
        UpgradePlan::NoRelease
    ));
    assert!(matches!(
        check_and_perform_upgrade("1.0", &vec![release("v1.0", &["app.tar.gz"])], "app"),
        UpgradePlan::UpToDate
    ));
    match check_and_perform_upgrade(
        "1.0",
        &vec![
            release("v1.1", &["other.tar.gz", "app.tar.gz", "app.tar.gz"]),
            release("v9", &[]),
        ],
        "app",
    ) {
        UpgradePlan::Download(url) => assert_eq!(url, "https://host/1"),
        _ => panic!("expected a download"),
    }
    match check_and_perform_upgrade("1.0", &vec![release("v1.1", &["app"])], "app") {
        UpgradePlan::MissingAsset(name) => assert_eq!(name, "app.tar.gz"),
        _ => panic!("expected a missing asset"),
    }
    assert!(releases_url(true).ends_with("/releases"));
    assert!(releases_url(false).ends_with("/releases/latest"));
}

#[test]
fn only_an_upgrade_ends_the_process() {
    assert_eq!(run_upgrade_loop(Some(true)), AfterCheck::Exit(2));
    assert_eq!(run_upgrade_loop(Some(false)), AfterCheck::Wait);
    assert_eq!(run_upgrade_loop(None), AfterCheck::Wait);
}

/// A compressed archive with these files.
fn archive(files: &[(&str, &[u8])]) -> Vec<u8> {
    let encoder = flate2::write::GzEncoder::new(Vec::new(), flate2::Compression::default());
    let mut builder = tar::Builder::new(encoder);
    for (path, body) in files {
        let mut header = tar::Header::new_gnu();
        header.set_size(body.len() as u64);
        header.set_mode(0o755);
        header.set_cksum();
        builder.append_data(&mut header, path, *body).unwrap();
    }
    let mut encoder = builder.into_inner().unwrap();
    encoder.flush().unwrap();
    encoder.finish().unwrap()
}

#[test]
fn extracts_the_first_file_of_that_name() {
    let data = archive(&[
        ("README.md", b"read"),
        ("dist/app", b"first"),
        ("app", b"second"),
    ]);
    assert_eq!(extract_binary(&data, "app"), Ok(b"first".to_vec()));
    assert_eq!(extract_binary(&data, "README.md"), Ok(b"read".to_vec()));
    assert_eq!(extract_binary(&data, "dist"), Err(ExtractError::NotFound));
}

/// The header of an entry `app`, with its checksum.
fn header(magic: &[u8; 8], kind: u8, size: &[u8; 12]) -> Vec<u8> {
    let mut block = vec![0u8; 512];
    block[..3].copy_from_slice(b"app");
    block[124..136].copy_from_slice(size);
    block[156] = kind;
    block[257..265].copy_from_slice(magic);
    block
}

/// Fills the checksum of a header in.
fn summed(mut block: Vec<u8>) -> Vec<u8> {
    block[148..156].copy_from_slice(b"        ");
    let sum: u32 = block.iter().map(|b| *b as u32).sum();
    block[148..156].copy_from_slice(format!("{sum:06o}\0 ").as_bytes());
    block
}

fn zipped(data: &[u8]) -> Vec<u8> {
    let mut encoder = flate2::write::GzEncoder::new(Vec::new(), flate2::Compression::default());
    encoder.write_all(data).unwrap();
    encoder.finish().unwrap()
}

const GNU: &[u8; 8] = b"ustar  \0";
const POSIX: &[u8; 8] = b"ustar\x0000";

#[test]
fn sparse_entries_are_filled_in() {
    let mut block = header(GNU, b'S', b"00000000000\0");
    block[386..398].copy_from_slice(b"00000002000\0");
    block[398..410].copy_from_slice(b"00000000000\0");
    block[483..495].copy_from_slice(b"00000002000\0");
    let tar = summed(block);
    assert!(is_sound_tar(&tar));
    assert_eq!(extract_binary(&zipped(&tar), "app"), Ok(vec![0; 1024]));
    assert_eq!(extract_entry(&tar, "app"), Ok(vec![0; 1024]));
}

#[test]
fn oversized_entries_are_refused() {
    // A size in the archive that the next position would overflow on.
    let mut block = header(GNU, b'S', b"\x80\0\0\0\xff\xff\xff\xff\xff\xff\xfc\0");
    block[482] = 1;
    let mut tar = summed(block.clone());
    tar.extend_from_slice(&[0; 512]);
    assert!(!is_sound_tar(&tar));
    assert_eq!(
        extract_binary(&zipped(&tar), "app"),
        Err(ExtractError::Oversized)
    );
    // Without further headers the entry is only one that cannot be read.
    block[482] = 0;
    let tar = summed(block);
    assert!(is_sound_tar(&tar));
    assert_eq!(
        extract_binary(&zipped(&tar), "app"),
        Err(ExtractError::Unreadable)
    );

    // A size in base 256 that is not out of bounds.
    let mut block = header(GNU, b'S', b"\x80\0\0\0\0\0\0\x02\0\0\0\0");
    block[482] = 1;
    assert!(is_sound_tar(&summed(block)));

    // A real size beyond what octal digits hold.
    let mut block = header(GNU, b'S', b"00000000000\0");
    block[483] = 0x80;
    assert!(!is_sound_tar(&summed(block.clone())));
    // The same in something that is no header.
    assert!(is_sound_tar(&block));
    block[257..265].copy_from_slice(POSIX);
    assert!(is_sound_tar(&summed(block)));

    // Further headers, and an extension that gives an entry another size.
    let mut block = header(GNU, b'S', b"00000000000\0");
    block[482] = 1;
    let sparse = summed(block);
    assert!(is_sound_tar(&sparse));
    assert!(is_sound_tar(&[sparse.clone(), b"20 size=123456789\n".to_vec()].concat()));
    let large = b"29 size=18446744073709550592\n".to_vec();
    assert!(!is_sound_tar(&[sparse.clone(), large.clone()].concat()));
    assert!(is_sound_tar(&large));
    assert!(is_sound_tar(&sparse[..511]));
    assert!(is_sound_tar(&[]));
}

#[test]
fn damaged_archives_yield_what_stands_before_the_damage() {
    let whole = archive(&[("app", b"first"), ("other", b"second")]);
    assert_eq!(extract_binary(&whole, "app"), Ok(b"first".to_vec()));
    // The checksum is missing, or does not match.
    let mut changed = whole.clone();
    let crc = changed.len() - 8;
    changed[crc] ^= 1;
    for damaged in [&whole[..whole.len() - 1], &changed[..]] {
        assert_eq!(extract_binary(damaged, "app"), Ok(b"first".to_vec()));
        assert_eq!(extract_binary(damaged, "other"), Ok(b"second".to_vec()));
        assert_eq!(
            extract_binary(damaged, "absent"),
            Err(ExtractError::Unreadable)
        );
    }
    assert_eq!(
        extract_binary(&whole[..20], "app"),
        Err(ExtractError::Unreadable)
    );
    // Only the first member counts.
    let two = [whole, b"rest".to_vec()].concat();
    assert_eq!(extract_binary(&two, "app"), Ok(b"first".to_vec()));
}

#[test]
fn files_that_are_cut_off() {
    let mut tar = summed(header(GNU, b'0', b"00000000012\0"));
    tar.extend_from_slice(b"0123456");
    // An archive that ends too early is read as far as it goes.
    assert_eq!(find_entry(&tar, "app"), Ok(0));
    assert_eq!(find_entry(&tar, "other"), Err(ExtractError::Unreadable));
    assert_eq!(extract_entry(&tar, "app"), Ok(b"0123456".to_vec()));
    assert_eq!(extract_binary(&zipped(&tar), "app"), Ok(b"0123456".to_vec()));
    // In a damaged one such a file does not count.
    assert_eq!(recover_entry(&tar, "app"), Err(ExtractError::Unreadable));
    let file = zipped(&tar);
    assert_eq!(
        extract_binary(&file[..file.len() - 1], "app"),
        Err(ExtractError::Unreadable)
    );
    tar.extend_from_slice(b"789");
    assert_eq!(recover_entry(&tar, "app"), Ok(b"0123456789".to_vec()));
    assert_eq!(recover_entry(&tar, "other"), Err(ExtractError::Unreadable));
}

#[test]
fn extract_errors() {
    assert_eq!(
        extract_binary(b"not an archive", "app"),
        Err(ExtractError::Unreadable)
    );
    assert_eq!(
        extract_binary(&archive(&[]), "app"),
        Err(ExtractError::NotFound)
    );
}

#[test]
fn file_names_of_paths() {
    assert!(entry_matches(b"app", "app"));
    assert!(entry_matches(b"./dist/app", "app"));
    assert!(entry_matches(b"dist/app/", "app"));
    assert!(entry_matches(b"dist/app/.", "app"));
    assert!(!entry_matches(b"app/..", "app"));
    assert!(!entry_matches(b"app/x", "app"));
    assert!(!entry_matches(b"", "app"));
    assert!(!entry_matches(b"/", "app"));
}

#[test]
fn restarts_the_unit_of_the_control_group() {
    assert_eq!(
        restart_via_systemd("0::/system.slice/auto-server.service\n").unwrap(),
        ["restart", "--no-block", "auto-server.service"]
    );
    assert_eq!(
        restart_via_systemd(
            "1:name=x:/\n0::/user.slice/user-1000.slice/user@1000.service/app.slice/a.service\n"
        )
        .unwrap(),
        ["--user", "restart", "--no-block", "a.service"]
    );
    assert_eq!(
        restart_via_systemd("0::/a.service/b.service/leaf").unwrap(),
        ["restart", "--no-block", "b.service"]
    );
    // The first line that mentions a service decides.
    assert!(restart_via_systemd("0::/x.service.d\n0::/b.service\n").is_none());
    assert!(restart_via_systemd("0::/init.scope\n").is_none());
    assert!(restart_via_systemd("").is_none());
}
