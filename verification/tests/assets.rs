use ferriki::asset_catalog::{LanguageAssetCatalog, ThemeAssetCatalog};
use ferriki::asset_cli::{generation_source, parse_command_line, parse_generate_args, usage};
use ferriki::assets::{
    language_record_from_upstream, plan_language_catalog, plan_theme_catalog, sanitize_asset_id,
    sort_language_records, AssetSourceRef, LanguageAssetEntry, LanguageManifest,
    LanguageSourceRecord, ThemeAssetEntry, ThemeManifest, ThemeSourceRecord,
    UpstreamLanguageMeta, FORMAT_VERSION,
};

fn strings(items: &[&str]) -> Vec<String> {
    items.iter().map(|s| s.to_string()).collect()
}

fn language_record(id: &str) -> LanguageSourceRecord {
    LanguageSourceRecord {
        id: id.to_owned(),
        scope_name: format!("source.{id}"),
        display_name: None,
        aliases: vec![],
        embedded_langs: vec![],
        embedded_langs_lazy: vec![],
        inject_to: vec![],
        grammar_json: "{}".to_owned(),
    }
}

fn language_entry(id: &str, aliases: &[&str]) -> LanguageAssetEntry {
    LanguageAssetEntry {
        id: id.to_owned(),
        scope_name: format!("source.{id}"),
        asset_file: format!("{id}.fkgram"),
        display_name: None,
        aliases: strings(aliases),
        embedded_langs: vec![],
        embedded_langs_lazy: vec![],
        inject_to: vec![],
    }
}

fn source() -> AssetSourceRef {
    AssetSourceRef {
        upstream: "textmate-grammars-themes".to_owned(),
        version: Some("1.0.0".to_owned()),
        commit: Some("abc123".to_owned()),
    }
}

#[test]
fn parse_generate_args_requires_paths() {
    let err = parse_generate_args(&[]).expect_err("missing args");
    assert!(err.contains("--upstream-dir"));
}

#[test]
fn parse_generate_args_reads_all_flags() {
    let args = strings(&[
        "--upstream-dir",
        "up",
        "--output-dir",
        "out",
        "--source-version",
        "1.0.0",
        "--source-commit",
        "abc123",
    ]);
    let options = parse_generate_args(&args).expect("options");
    assert_eq!(options.upstream_dir, "up");
    assert_eq!(options.output_dir, "out");
    assert_eq!(options.source_version.as_deref(), Some("1.0.0"));
    assert_eq!(options.source_commit.as_deref(), Some("abc123"));
}

#[test]
fn parse_generate_args_reports_each_error() {
    let err = parse_generate_args(&strings(&["--upstream-dir"])).expect_err("no value");
    assert_eq!(err, format!("missing value for --upstream-dir\n\n{}", usage()));
    let err = parse_generate_args(&strings(&["--bogus", "x"])).expect_err("unknown flag");
    assert_eq!(err, format!("unknown flag: --bogus\n\n{}", usage()));
    let err = parse_generate_args(&strings(&["--upstream-dir", "up"])).expect_err("no output");
    assert_eq!(err, format!("missing --output-dir\n\n{}", usage()));
    let err = parse_generate_args(&[]).expect_err("no upstream");
    assert_eq!(err, format!("missing --upstream-dir\n\n{}", usage()));
}

#[test]
fn later_flag_overrides_earlier_one() {
    let args = strings(&["--upstream-dir", "a", "--output-dir", "o", "--upstream-dir", "b"]);
    let options = parse_generate_args(&args).expect("options");
    assert_eq!(options.upstream_dir, "b");
}

#[test]
fn command_line_needs_the_generate_command() {
    assert_eq!(parse_command_line(&[]).expect_err("no command"), usage());
    let err = parse_command_line(&strings(&["build"])).expect_err("unknown command");
    assert_eq!(err, format!("unknown command: build\n\n{}", usage()));
    let options = parse_command_line(&strings(&["generate", "--upstream-dir", "u", "--output-dir", "o"]))
        .expect("options");
    assert_eq!(options.output_dir, "o");
    let source = generation_source(&options);
    assert_eq!(source.upstream, "textmate-grammars-themes");
    assert_eq!(source.version, None);
}

#[test]
fn sanitize_asset_id_replaces_unsafe_characters() {
    assert_eq!(sanitize_asset_id("c++"), "c__");
    assert_eq!(sanitize_asset_id("vitesse-light_2"), "vitesse-light_2");
    assert_eq!(sanitize_asset_id("a/b.c é"), "a_b_c__");
}

#[test]
fn language_plan_sorts_entries_and_keeps_asset_order() {
    let records = vec![language_record("zig"), language_record("c#"), language_record("abap")];
    let plan = plan_language_catalog(source(), &records);
    assert_eq!(plan.manifest.format_version, FORMAT_VERSION);
    assert_eq!(plan.manifest.source, source());
    let ids: Vec<&str> = plan.manifest.entries.iter().map(|e| e.id.as_str()).collect();
    assert_eq!(ids, vec!["abap", "c#", "zig"]);
    assert_eq!(plan.manifest.entries[1].asset_file, "c_.fkgram");
    let files: Vec<&str> = plan.assets.iter().map(|(f, _)| f.as_str()).collect();
    assert_eq!(files, vec!["zig.fkgram", "c_.fkgram", "abap.fkgram"]);
    assert_eq!(plan.assets[0].1.scope_name, "source.zig");
    assert_eq!(plan.assets[0].1.grammar_json, "{}");
}

#[test]
fn theme_plan_sorts_entries() {
    let record = |id: &str| ThemeSourceRecord {
        id: id.to_owned(),
        display_name: Some(id.to_uppercase()),
        theme_type: Some("light".to_owned()),
        theme_json: "{}".to_owned(),
    };
    let records = vec![record("vitesse-light"), record("dracula")];
    let plan = plan_theme_catalog(source(), &records);
    assert_eq!(plan.manifest.entries[0].id, "dracula");
    assert_eq!(plan.manifest.entries[0].asset_file, "dracula.fktheme");
    assert_eq!(plan.manifest.entries[1].display_name.as_deref(), Some("VITESSE-LIGHT"));
    assert_eq!(plan.assets[0].0, "vitesse-light.fktheme");
    assert_eq!(plan.assets[1].1.theme_type.as_deref(), Some("light"));
}

#[test]
fn record_sort_is_stable() {
    let mut first = language_record("js");
    first.grammar_json = "first".to_owned();
    let mut second = language_record("js");
    second.grammar_json = "second".to_owned();
    let sorted = sort_language_records(vec![first, language_record("css"), second]);
    let tags: Vec<(&str, &str)> =
        sorted.iter().map(|r| (r.id.as_str(), r.grammar_json.as_str())).collect();
    assert_eq!(tags, vec![("css", "{}"), ("js", "first"), ("js", "second")]);
}

#[test]
fn upstream_language_becomes_a_record() {
    let meta = UpstreamLanguageMeta {
        id: "javascript".to_owned(),
        grammar_file: "javascript.json".to_owned(),
        scope_name: "source.js".to_owned(),
        display_name: Some("JavaScript".to_owned()),
        aliases: strings(&["js", "mjs"]),
        embedded_langs: vec![],
        embedded_langs_lazy: vec![],
        inject_to: vec![],
    };
    let record = language_record_from_upstream(meta, "{\"scopeName\": \"source.js\"}".to_owned());
    assert_eq!(record.id, "javascript");
    assert_eq!(record.aliases, strings(&["js", "mjs"]));
    assert!(record.grammar_json.contains("\"scopeName\": \"source.js\""));
}

#[test]
fn language_catalog_resolves_ids_and_aliases() {
    let manifest = LanguageManifest {
        format_version: FORMAT_VERSION,
        source: source(),
        entries: vec![
            language_entry("javascript", &["js", "mjs"]),
            language_entry("typescript", &["ts"]),
            language_entry("jsx", &["js"]),
        ],
    };
    let catalog = LanguageAssetCatalog::from_manifest("assets/languages".to_owned(), manifest);
    assert_eq!(catalog.resolve_id("javascript"), Some("javascript"));
    assert_eq!(catalog.resolve_id("ts"), Some("typescript"));
    // the later entry that lists an alias wins
    assert_eq!(catalog.resolve_id("js"), Some("jsx"));
    assert_eq!(catalog.resolve_id("python"), None);
    assert_eq!(catalog.asset_file("typescript"), Some("typescript.fkgram"));
    assert_eq!(catalog.asset_file("ts"), None);
    assert_eq!(catalog.asset_dir(), "assets/languages");
    assert_eq!(catalog.manifest().entries.len(), 3);
}

#[test]
fn theme_catalog_finds_asset_files() {
    let entry = |id: &str, file: &str| ThemeAssetEntry {
        id: id.to_owned(),
        asset_file: file.to_owned(),
        display_name: None,
        theme_type: None,
    };
    let manifest = ThemeManifest {
        format_version: FORMAT_VERSION,
        source: source(),
        entries: vec![entry("vitesse-light", "a.fktheme"), entry("vitesse-light", "b.fktheme")],
    };
    let catalog = ThemeAssetCatalog::from_manifest("themes".to_owned(), manifest);
    assert_eq!(catalog.asset_file("vitesse-light"), Some("b.fktheme"));
    assert_eq!(catalog.asset_file("dracula"), None);
    assert_eq!(catalog.manifest().entries.len(), 2);
}
