use pifu::acquire::{Action, Event, Phase, ToolAcquisition, ToolSpec, AcquireError, MAX_ATTEMPTS};
use pifu::app_image::{default_exclude_libs, parse_ldd_output, parse_library_line, split_words};
use pifu::archive::{ar_members, check_entry_size, plan_entries, ArchiveError, EntryKind, WalkEntry, DEFAULT_FILE_MODE, DIR_MODE};
use pifu::deb::{generate_control, generate_md5sum, md5_hex, push_hex, DebConfig, PackageMetadata, StagedFile};
use pifu::text::push_decimal;
use pifu::platform::{arch_name, config_file, primary_config_file, select_targets, Arch, CmdlineError, PlatformTarget};

fn walk(path: &str, is_dir: bool, size: u64, mode: Option<u32>) -> WalkEntry {
    WalkEntry { path: path.to_string(), is_dir, size, mode, mtime: 1_700_000_000 }
}

fn tool() -> ToolSpec {
    ToolSpec {
        arch: Arch::X86_64,
        url: "https://example.org/tool".to_string(),
        filename: "tool.AppImage".to_string(),
        sha256: "abc123".to_string(),
    }
}

#[test]
fn ldd_line_yields_one_library() {
    let out = "\tlibfoo.so.1 => /usr/lib/libfoo.so.1 (0x00007f0000000000)\n";
    let libs = parse_ldd_output(out);
    assert_eq!(libs.len(), 1);
    assert_eq!(libs[0].name, "libfoo.so.1");
    assert_eq!(libs[0].path, "/usr/lib/libfoo.so.1");
}

#[test]
fn ldd_output_skips_malformed_lines() {
    let out = "\tlinux-vdso.so.1 (0x00007ffd)\n\tlibbar.so => not found\n  libc.so.6   =>\t/lib/libc.so.6   (0x1)\n/lib64/ld-linux-x86-64.so.2 (0x2)";
    let libs = parse_ldd_output(out);
    assert_eq!(libs.len(), 1);
    assert_eq!(libs[0].name, "libc.so.6");
    assert_eq!(libs[0].path, "/lib/libc.so.6");
    assert!(parse_ldd_output("").is_empty());
    assert!(parse_library_line("a => b (c").is_none());
}

#[test]
fn words_split_on_any_white_space() {
    assert_eq!(split_words("  a\tbb \n c  "), vec!["a", "bb", "c"]);
    assert!(split_words("   ").is_empty());
}

#[test]
fn default_excluded_libraries() {
    assert_eq!(default_exclude_libs(), vec!["libc.so.6", "libdl.so.2", "libm.so.6", "libpthread.so.0"]);
}

#[test]
fn arch_names() {
    assert_eq!(arch_name(Arch::X86), "i386");
    assert_eq!(arch_name(Arch::X86_64), "amd64");
    assert_eq!(arch_name(Arch::AArch64), "arm64");
}

#[test]
fn control_file_text() {
    let meta = PackageMetadata {
        name: "demo".to_string(),
        version: "1.0".to_string(),
        author: "A <a@b.c>".to_string(),
        description: "A demo".to_string(),
    };
    let deb = DebConfig {
        section: Some("utils".to_string()),
        priority: "optional".to_string(),
        depends: Some("libc6".to_string()),
        conflicts: None,
        breaks: None,
        replaces: None,
        provides: Some("demo-bin".to_string()),
    };
    let text = generate_control(&meta, &deb, Arch::X86_64, 1024);
    assert_eq!(
        text,
        "Package: demo\nVersion: 1.0\nArchitecture: amd64\nSection: utils\nPriority: optional\n\
         Standards-Version: 3.9.4\nMaintainer: A <a@b.c>\nInstalled-Size: 1024\nDepends: libc6\n\
         Provides: demo-bin\nDescription: A demo\n"
    );
    let text = generate_control(&meta, &deb, Arch::X86, 0);
    assert!(text.contains("Installed-Size: 0\n"));
    assert!(text.contains("Architecture: i386\n"));
}

#[test]
fn md5_digest_is_hex_and_deterministic() {
    assert_eq!(md5_hex(b""), "d41d8cd98f00b204e9800998ecf8427e");
    assert_eq!(md5_hex(b"abc"), "900150983cd24fb0d6963f7d28e17f72");
    assert_eq!(md5_hex(b"abc"), md5_hex(b"abc"));
    assert_ne!(md5_hex(b"abc"), md5_hex(b"abd"));
}

#[test]
fn md5sums_list() {
    let files = vec![
        StagedFile { path: "usr/bin/a".to_string(), content: b"abc".to_vec() },
        StagedFile { path: "usr/share/b".to_string(), content: Vec::new() },
    ];
    assert_eq!(
        generate_md5sum(&files),
        "900150983cd24fb0d6963f7d28e17f72 usr/bin/a\nd41d8cd98f00b204e9800998ecf8427e usr/share/b\n"
    );
    assert_eq!(generate_md5sum(&Vec::new()), "");
}

#[test]
fn os_values_select_targets() {
    assert_eq!(
        select_targets(None).unwrap(),
        vec![PlatformTarget::Deb, PlatformTarget::Rpm, PlatformTarget::AppImage, PlatformTarget::Nsis]
    );
    let oses = vec!["win".to_string(), "linux".to_string()];
    assert_eq!(
        select_targets(Some(&oses)).unwrap(),
        vec![PlatformTarget::Nsis, PlatformTarget::Deb, PlatformTarget::Rpm, PlatformTarget::AppImage]
    );
    let bad = vec!["linux".to_string(), "mac".to_string()];
    match select_targets(Some(&bad)) {
        Err(CmdlineError::InvalidOs(o)) => assert_eq!(o, "mac"),
        Ok(_) => panic!("expected an error"),
    }
}

#[test]
fn config_file_choice() {
    assert_eq!(primary_config_file(None), "pkg/pifu.toml");
    assert_eq!(primary_config_file(Some("my.toml")), "my.toml");
    assert_eq!(config_file("pkg/pifu.toml", true), "pkg/pifu.toml");
    assert_eq!(config_file("pkg/pifu.toml", false), "pifu.toml");
}

#[test]
fn archive_plan_skips_root_and_orders_dirs_first() {
    let w = vec![
        walk("", true, 4096, Some(0o700)),
        walk("usr", true, 4096, Some(0o700)),
        walk("usr\\bin", true, 4096, Some(0o700)),
        walk("usr\\bin\\app", false, 1234, Some(0o750)),
        walk("README", false, 10, None),
    ];
    let es = plan_entries(&w, '\\').unwrap();
    let paths: Vec<&str> = es.iter().map(|e| e.path.as_str()).collect();
    assert_eq!(paths, vec!["usr", "usr/bin", "usr/bin/app", "README"]);
    assert_eq!(es[0].kind, EntryKind::Directory);
    assert_eq!(es[0].size, 0);
    assert_eq!(es[0].mode, DIR_MODE);
    assert_eq!(es[2].kind, EntryKind::File);
    assert_eq!(es[2].size, 1234);
    assert_eq!(es[2].mode, 0o750);
    assert_eq!(es[2].mtime, 1_700_000_000);
    assert_eq!(es[3].mode, DEFAULT_FILE_MODE);
    assert_eq!(ar_members(&w), vec!["usr\\bin\\app", "README"]);
}

#[test]
fn size_mismatch_is_an_error() {
    let es = plan_entries(&vec![walk("a", false, 5, Some(0o644))], '/').unwrap();
    assert!(check_entry_size(&es[0], 5).is_ok());
    assert!(check_entry_size(&es[0], 4).is_err());
}

#[test]
fn cache_hit_downloads_nothing() {
    let t = tool();
    let mut acq = ToolAcquisition::new(&t.sha256);
    assert_eq!(acq.next(&Event::CacheChecked(Some("abc123".to_string()))), Action::UseCached);
    assert_eq!(acq.phase, Phase::Acquired);
    assert!(matches!(acq.outcome(&t), Some(Ok(()))));
}

#[test]
fn three_mismatches_give_up() {
    let t = tool();
    let mut acq = ToolAcquisition::new(&t.sha256);
    let mut downloads = 0;
    let mut action = acq.next(&Event::CacheChecked(Some("stale".to_string())));
    while action == Action::Download {
        downloads += 1;
        assert!(acq.outcome(&t).is_none());
        action = acq.next(&Event::Fetched(Some("bad".to_string())));
    }
    assert_eq!(downloads, MAX_ATTEMPTS);
    assert_eq!(action, Action::GiveUp);
    match acq.outcome(&t) {
        Some(Err(AcquireError::ToolAcquisition(f))) => assert_eq!(f, "tool.AppImage"),
        _ => panic!("expected failure"),
    }
}

#[test]
fn verified_download_is_promoted() {
    let t = tool();
    let mut acq = ToolAcquisition::new(&t.sha256);
    assert_eq!(acq.next(&Event::CacheChecked(None)), Action::Download);
    assert_eq!(acq.next(&Event::Fetched(None)), Action::Download);
    assert_eq!(acq.next(&Event::Fetched(Some("abc123".to_string()))), Action::Promote);
    assert_eq!(acq.attempts, 2);
    assert!(matches!(acq.outcome(&t), Some(Ok(()))));
    assert_eq!(acq.next(&Event::Fetched(None)), Action::Ignore);
}

#[test]
fn hex_and_decimal_digits() {
    let mut s = String::from("x");
    push_hex(&mut s, &[0x00, 0x0f, 0xa5, 0xff]);
    assert_eq!(s, "x000fa5ff");
    let mut d = String::new();
    push_decimal(&mut d, 18446744073709551615);
    assert_eq!(d, "18446744073709551615");
    let mut z = String::new();
    push_decimal(&mut z, 0);
    assert_eq!(z, "0");
}

#[test]
fn unix_backslash_is_part_of_the_name() {
    let w = vec![walk("", true, 0, None), walk("a\\b", false, 3, Some(0o644)), walk("..\\x", false, 1, Some(0o644))];
    let es = plan_entries(&w, '/').unwrap();
    let paths: Vec<&str> = es.iter().map(|e| e.path.as_str()).collect();
    assert_eq!(paths, vec!["a\\b", "..\\x"]);
}

#[test]
fn escaping_archive_paths_are_refused() {
    let w = vec![walk("", true, 0, None), walk("ok", false, 1, None), walk("..\\x", false, 1, None)];
    match plan_entries(&w, '\\') {
        Err(ArchiveError::UnsafePath(p)) => assert_eq!(p, "../x"),
        _ => panic!("expected UnsafePath"),
    }
    match plan_entries(&vec![walk("a/../../b", false, 1, None)], '/') {
        Err(ArchiveError::UnsafePath(p)) => assert_eq!(p, "a/../../b"),
        _ => panic!("expected UnsafePath"),
    }
    assert!(plan_entries(&vec![walk("a/..b/c..", false, 1, None)], '/').is_ok());
}

#[test]
fn ldd_library_goes_to_libs_under_bare_name() {
    let out = "libfoo.so.1 => /usr/lib/libfoo.so.1 (0x00007f1234560000)\n";
    let libs = parse_ldd_output(out);
    let dests: Vec<String> = libs.iter().map(|l| pifu::fileset::join("libs", &l.name)).collect();
    assert_eq!(dests, vec!["libs/libfoo.so.1"]);
    assert_eq!(libs[0].path, "/usr/lib/libfoo.so.1");
}

#[test]
fn directory_after_its_contents_is_refused() {
    let w = vec![walk("usr/bin/app", false, 1, None), walk("usr/bin", true, 0, None)];
    match plan_entries(&w, '/') {
        Err(ArchiveError::OutOfOrder(p)) => assert_eq!(p, "usr/bin"),
        _ => panic!("expected OutOfOrder"),
    }
    let ok = vec![walk("usr", true, 0, None), walk("usr/bin", true, 0, None), walk("usrx", true, 0, None)];
    assert_eq!(plan_entries(&ok, '/').unwrap().len(), 3);
}
