use pifu::fileset::{overwritten, resolve_entry, resolve_layers, FileSetEntry, ResolveError};
use pifu::glob::{glob_matches, match_root};
use pifu::placeholder::{expand, MacroContext, MacroError};

fn ctx() -> MacroContext {
    MacroContext {
        name: "demo".to_string(),
        version: "1.2.0".to_string(),
        build_id: "42".to_string(),
        arch: "x86_64".to_string(),
        platform: "linux".to_string(),
        date: None,
    }
}

fn entry(from: &str, to: &str, exclude: &[&str], optional: bool) -> FileSetEntry {
    FileSetEntry {
        from: from.to_string(),
        to: to.to_string(),
        exclude: exclude.iter().map(|s| s.to_string()).collect(),
        optional,
    }
}

fn strings(v: &[&str]) -> Vec<String> {
    v.iter().map(|s| s.to_string()).collect()
}

#[test]
fn expand_substitutes_every_field() {
    let r = expand("${name}-${version}-${build_id}-${arch}-${platform}.deb", &ctx()).unwrap();
    assert_eq!(r, "demo-1.2.0-42-x86_64-linux.deb");
}

#[test]
fn expand_is_repeatable() {
    let a = expand("out/${name}_${version}", &ctx()).unwrap();
    let b = expand("out/${name}_${version}", &ctx()).unwrap();
    assert_eq!(a, b);
    assert_eq!(a, "out/demo_1.2.0");
}

#[test]
fn expand_rejects_unknown_field() {
    match expand("pkg-${colour}-${name}", &ctx()) {
        Err(MacroError::UnknownMacro(f)) => assert_eq!(f, "colour"),
        Ok(s) => panic!("unexpected expansion {}", s),
    }
}

#[test]
fn expand_date_only_when_enabled() {
    assert!(expand("${date}", &ctx()).is_err());
    let mut c = ctx();
    c.date = Some("20240101".to_string());
    assert_eq!(expand("v${date}", &c).unwrap(), "v20240101");
}

#[test]
fn expand_is_single_pass() {
    let mut c = ctx();
    c.name = "${version}".to_string();
    assert_eq!(expand("${name}", &c).unwrap(), "${version}");
}

#[test]
fn expand_keeps_unterminated_placeholder() {
    assert_eq!(expand("a${name", &ctx()).unwrap(), "a${name");
    assert_eq!(expand("cost $5 {x}", &ctx()).unwrap(), "cost $5 {x}");
    assert_eq!(expand("", &ctx()).unwrap(), "");
}

#[test]
fn glob_star_stays_in_component() {
    assert!(glob_matches("assets/*.png", "assets/icon.png"));
    assert!(!glob_matches("assets/*.png", "assets/sub/icon.png"));
    assert!(!glob_matches("assets/*.png", "assets/icon.jpg"));
}

#[test]
fn glob_double_star_crosses_components() {
    assert!(glob_matches("assets/**/*.png", "assets/sub/deep/icon.png"));
    assert!(glob_matches("assets/**/*.png", "assets/icon.png"));
    assert!(glob_matches("**", "a/b/c"));
}

#[test]
fn glob_question_and_literal() {
    assert!(glob_matches("lib?.so", "liba.so"));
    assert!(!glob_matches("lib?.so", "lib/.so"));
    assert!(glob_matches("README.md", "README.md"));
    assert!(!glob_matches("README.md", "README.mdx"));
}

#[test]
fn match_root_is_directory_before_wildcard() {
    assert_eq!(match_root("assets/*.png"), 7);
    assert_eq!(match_root("a/b/c.txt"), 4);
    assert_eq!(match_root("*.txt"), 0);
}

#[test]
fn glob_entry_maps_below_destination() {
    let e = entry("assets/*.png", "data/${name}/", &[], false);
    let paths = strings(&["assets/icon.png", "assets/logo.png", "src/main.rs"]);
    let r = resolve_entry(&e, "/src", &paths, &ctx()).unwrap();
    let dests: Vec<&str> = r.iter().map(|c| c.destination.as_str()).collect();
    assert_eq!(dests, vec!["data/demo/icon.png", "data/demo/logo.png"]);
    assert_eq!(r[0].source, "/src/assets/icon.png");
    assert_eq!(r[1].source, "/src/assets/logo.png");
}

#[test]
fn literal_entry_maps_one_to_one() {
    let e = entry("bin/app", "usr/bin", &[], false);
    let paths = strings(&["bin/app", "bin/app2"]);
    let r = resolve_entry(&e, "/src/", &paths, &ctx()).unwrap();
    assert_eq!(r.len(), 1);
    assert_eq!(r[0].source, "/src/bin/app");
    assert_eq!(r[0].destination, "usr/bin/app");
}

#[test]
fn excluded_paths_are_dropped() {
    let e = entry("assets/*", "data/", &["*/*.tmp"], false);
    let paths = strings(&["assets/a.txt", "assets/b.tmp"]);
    let r = resolve_entry(&e, "/s", &paths, &ctx()).unwrap();
    assert_eq!(r.len(), 1);
    assert_eq!(r[0].destination, "data/a.txt");
}

#[test]
fn unmatched_required_pattern_fails() {
    let e = entry("docs/*.md", "share/doc", &[], false);
    let paths = strings(&["assets/icon.png"]);
    match resolve_entry(&e, "/s", &paths, &ctx()) {
        Err(ResolveError::NoMatch(p)) => assert_eq!(p, "docs/*.md"),
        _ => panic!("expected NoMatch"),
    }
}

#[test]
fn unmatched_optional_pattern_is_empty() {
    let e = entry("docs/*.md", "share/doc", &[], true);
    let paths = strings(&["assets/icon.png"]);
    let r = resolve_entry(&e, "/s", &paths, &ctx()).unwrap();
    assert!(r.is_empty());
}

#[test]
fn escaping_destination_is_refused() {
    let paths = strings(&["a.txt"]);
    for to in ["../out", "/etc", "data/../../x", ".."] {
        let e = entry("a.txt", to, &[], false);
        match resolve_entry(&e, "/s", &paths, &ctx()) {
            Err(ResolveError::UnsafeDestination(d)) => assert_eq!(d, to),
            _ => panic!("expected UnsafeDestination for {}", to),
        }
    }
    let e = entry("a.txt", "data/..x/", &[], false);
    assert!(resolve_entry(&e, "/s", &paths, &ctx()).is_ok());
}

#[test]
fn unknown_macro_in_destination_fails() {
    let e = entry("a.txt", "${nope}/", &[], false);
    let paths = strings(&["a.txt"]);
    match resolve_entry(&e, "/s", &paths, &ctx()) {
        Err(ResolveError::UnknownMacro(f)) => assert_eq!(f, "nope"),
        _ => panic!("expected UnknownMacro"),
    }
}

#[test]
fn first_layer_wins() {
    let paths = strings(&["a.txt", "b.txt"]);
    let layers = vec![
        None,
        Some(vec![entry("b.txt", "x/", &[], false)]),
        Some(vec![entry("a.txt", "y/", &[], false)]),
    ];
    let r = resolve_layers(&layers, "/s", &paths, &ctx()).unwrap();
    assert_eq!(r.len(), 1);
    assert_eq!(r[0].destination, "x/b.txt");
}

#[test]
fn no_layer_means_files_not_set() {
    let paths = strings(&["a.txt"]);
    let layers: Vec<Option<Vec<FileSetEntry>>> = vec![None, None];
    assert!(matches!(resolve_layers(&layers, "/s", &paths, &ctx()), Err(ResolveError::FilesNotSet)));
}

#[test]
fn entries_concatenate_and_first_failure_wins() {
    let paths = strings(&["a.txt", "b.txt"]);
    let layers = vec![Some(vec![entry("a.txt", "x/", &[], false), entry("b.txt", "y/", &[], false)])];
    let r = resolve_layers(&layers, "/s", &paths, &ctx()).unwrap();
    let dests: Vec<&str> = r.iter().map(|c| c.destination.as_str()).collect();
    assert_eq!(dests, vec!["x/a.txt", "y/b.txt"]);
    let layers = vec![Some(vec![
        entry("a.txt", "x/", &[], false),
        entry("c.txt", "y/", &[], false),
        entry("b.txt", "${bad}", &[], false),
    ])];
    assert!(matches!(resolve_layers(&layers, "/s", &paths, &ctx()), Err(ResolveError::NoMatch(_))));
}

#[test]
fn later_copies_overwrite_earlier_ones() {
    let paths = strings(&["a/x.txt", "b/x.txt", "c/y.txt"]);
    let layers = vec![Some(vec![
        entry("a/*", "out/", &[], false),
        entry("b/*", "out/", &[], false),
        entry("c/*", "out/", &[], false),
    ])];
    let r = resolve_layers(&layers, "/s", &paths, &ctx()).unwrap();
    assert_eq!(overwritten(&r), vec![0]);
    assert!(overwritten(&Vec::new()).is_empty());
}

#[test]
fn backslash_destinations_cannot_escape() {
    let paths = strings(&["a.txt"]);
    for to in ["..\\out", "\\abs", "data\\..\\..\\x"] {
        let e = entry("a.txt", to, &[], false);
        match resolve_entry(&e, "/s", &paths, &ctx()) {
            Err(ResolveError::UnsafeDestination(d)) => assert_eq!(d, to),
            _ => panic!("expected UnsafeDestination for {}", to),
        }
    }
}

#[test]
fn no_match_comes_before_destination_errors() {
    let paths = strings(&["a.txt"]);
    let e = entry("b.txt", "${nope}/../x", &[], false);
    assert!(matches!(resolve_entry(&e, "/s", &paths, &ctx()), Err(ResolveError::NoMatch(_))));
    let e = entry("b.txt", "${nope}/../x", &[], true);
    assert!(resolve_entry(&e, "/s", &paths, &ctx()).unwrap().is_empty());
}

#[test]
fn unknown_placeholder_anywhere_fails() {
    assert!(expand("$x ${name} $$ ${bad}", &ctx()).is_err());
    match expand("${name${bad}", &ctx()) {
        Err(MacroError::UnknownMacro(f)) => assert_eq!(f, "name${bad"),
        Ok(s) => panic!("unexpected expansion {}", s),
    }
}

#[test]
fn demo_assets_scenario_end_to_end() {
    let e = entry("assets/*.png", "data/${name}/", &[], false);
    let paths = strings(&["assets/icon.png", "assets/logo.png"]);
    let copies = resolve_entry(&e, "/src", &paths, &ctx()).unwrap();
    let files: Vec<pifu::deb::StagedFile> = copies
        .iter()
        .map(|c| pifu::deb::StagedFile { path: c.destination.clone(), content: c.source.as_bytes().to_vec() })
        .collect();
    let sums = pifu::deb::generate_md5sum(&files);
    let lines: Vec<&str> = sums.lines().collect();
    assert_eq!(lines.len(), 2);
    assert!(lines[0].ends_with(" data/demo/icon.png"));
    assert!(lines[1].ends_with(" data/demo/logo.png"));
    let walk = vec![
        pifu::archive::WalkEntry { path: String::new(), is_dir: true, size: 0, mode: None, mtime: 0 },
        pifu::archive::WalkEntry { path: "data".to_string(), is_dir: true, size: 0, mode: None, mtime: 0 },
        pifu::archive::WalkEntry { path: "data/demo".to_string(), is_dir: true, size: 0, mode: None, mtime: 0 },
        pifu::archive::WalkEntry { path: copies[0].destination.clone(), is_dir: false, size: 7, mode: None, mtime: 0 },
        pifu::archive::WalkEntry { path: copies[1].destination.clone(), is_dir: false, size: 9, mode: None, mtime: 0 },
    ];
    let es = pifu::archive::plan_entries(&walk, '/').unwrap();
    let names: Vec<&str> = es.iter().map(|e| e.path.as_str()).collect();
    assert_eq!(names, vec!["data", "data/demo", "data/demo/icon.png", "data/demo/logo.png"]);
}
