use route_cli::config::{
    core_path_candidates, migrate_legacy_root, pathext_extensions, resolve_program_for_windows,
    resolve_proxy_core_path, windows_program_candidates, AppConfig, AppPaths,
};
use route_cli::release::{dedup_paths, pick_windows_amd64_asset, zip_entry_destination, ReleaseAsset};
use route_cli::text::{dec_string, join_strings};

#[test]
fn default_settings() {
    let cfg = AppConfig::default();
    assert_eq!(cfg.subscription.url, None);
    assert_eq!(cfg.proxy_core.path, "sing-box.exe");
    assert_eq!(cfg.proxy.mixed_port, 27890);
    assert_eq!(
        cfg.routing.proxy_domains,
        vec![
            "openai.com",
            "api.openai.com",
            "chatgpt.com",
            "oaistatic.com",
            "oaiusercontent.com",
            "openaiapi-site.azureedge.net"
        ]
    );
    assert_eq!(cfg.routing.no_proxy, vec!["localhost", "127.0.0.1"]);
    assert_eq!(cfg.runtime.selected_node, None);
}

#[test]
fn paths_under_a_root() {
    let p = AppPaths::from_root("/home/u/.config/route");
    assert_eq!(p.config_toml, "/home/u/.config/route/config.toml");
    assert_eq!(
        p.subscription_yaml,
        "/home/u/.config/route/cache/subscription.yaml"
    );
    assert_eq!(p.generated_dir, "/home/u/.config/route/generated");
    assert_eq!(p.sing_box_json, "/home/u/.config/route/generated/sing-box.json");
}

#[test]
fn legacy_migration_only_fills_a_missing_root() {
    assert!(migrate_legacy_root(false, true));
    assert!(!migrate_legacy_root(true, true));
    assert!(!migrate_legacy_root(false, false));
    assert!(!migrate_legacy_root(true, false));
}

#[test]
fn core_path_picks_the_first_existing_candidate() {
    let cwd = Some("/work".to_string());
    let exe_dir = Some("/opt/bin".to_string());
    let cands = core_path_candidates("sing-box.exe", &cwd, &exe_dir);
    assert_eq!(
        cands,
        vec![
            "tools/sing-box/sing-box.exe",
            "/work/tools/sing-box/sing-box.exe",
            "/opt/bin/tools/sing-box/sing-box.exe",
            "sing-box.exe",
            "/work/sing-box.exe",
            "/opt/bin/sing-box.exe",
        ]
    );
    let existing = vec!["/work/tools/sing-box/sing-box.exe".to_string()];
    assert_eq!(
        resolve_proxy_core_path("sing-box.exe", &cands, &existing),
        "/work/tools/sing-box/sing-box.exe"
    );
}

#[test]
fn core_path_falls_back_when_nothing_exists() {
    let cands = core_path_candidates("/etc/engine", &None, &None);
    assert_eq!(cands, vec!["/etc/engine", ]);
    let nothing: Vec<String> = Vec::new();
    assert_eq!(resolve_proxy_core_path("/etc/engine", &cands, &nothing), "/etc/engine");
    // The bundled relative path degrades to the bare engine name.
    assert_eq!(
        resolve_proxy_core_path("TOOLS/sing-box/SING-BOX.exe", &Vec::new(), &nothing),
        "sing-box.exe"
    );
}

#[test]
fn pathext_parsing_and_default() {
    let exts = pathext_extensions(&Some(".COM;.EXE;; ;.BAT".to_string()));
    assert_eq!(exts, vec![".COM", ".EXE", ".BAT"]);
    let defaults = pathext_extensions(&None);
    assert_eq!(defaults, vec![".COM", ".EXE", ".BAT", ".CMD"]);
}

#[test]
fn windows_candidates_and_resolution() {
    let dirs = vec!["C:\\w".to_string(), "D:\\t".to_string()];
    let cands = windows_program_candidates("mytool", &Some(".EXE;CMD".to_string()), &dirs);
    assert_eq!(
        cands,
        vec![
            "C:\\w\\mytool.EXE",
            "C:\\w\\mytool.CMD",
            "D:\\t\\mytool.EXE",
            "D:\\t\\mytool.CMD",
        ]
    );
    let existing = vec!["D:\\t\\mytool.EXE".to_string()];
    assert_eq!(
        resolve_program_for_windows("mytool", &cands, &existing),
        "D:\\t\\mytool.EXE"
    );
    // Nothing exists: the name is used as given.
    assert_eq!(
        resolve_program_for_windows("mytool", &cands, &Vec::new()),
        "mytool"
    );
}

#[test]
fn programs_with_extension_or_path_resolve_to_themselves() {
    let dirs = vec!["C:\\w".to_string()];
    assert!(windows_program_candidates("mytool.exe", &None, &dirs).is_empty());
    assert!(windows_program_candidates("bin/mytool", &None, &dirs).is_empty());
    assert!(windows_program_candidates("bin\\mytool", &None, &dirs).is_empty());
    assert!(!windows_program_candidates("mytool", &None, &dirs).is_empty());
}

#[test]
fn picks_windows_amd64_asset() {
    let assets = vec![
        ReleaseAsset {
            name: Some("sing-box-1.12.20-linux-amd64.tar.gz".to_string()),
            browser_download_url: Some("https://example.com/linux.tar.gz".to_string()),
        },
        ReleaseAsset {
            name: Some("sing-box-1.12.20-windows-amd64.zip".to_string()),
            browser_download_url: Some("https://example.com/windows.zip".to_string()),
        },
    ];
    let selected = pick_windows_amd64_asset(&assets).expect("should pick windows asset");
    assert_eq!(selected.0, "sing-box-1.12.20-windows-amd64.zip");
    assert_eq!(selected.1, "https://example.com/windows.zip");
}

#[test]
fn asset_listing_with_missing_fields_yields_nothing() {
    let assets = vec![
        ReleaseAsset { name: None, browser_download_url: Some("u".to_string()) },
        ReleaseAsset {
            name: Some("sing-box-windows-amd64.zip".to_string()),
            browser_download_url: Some("https://example.com/w.zip".to_string()),
        },
    ];
    // A malformed entry aborts the whole search.
    assert_eq!(pick_windows_amd64_asset(&assets), None);
    let empty: Vec<ReleaseAsset> = Vec::new();
    assert_eq!(pick_windows_amd64_asset(&empty), None);
}

#[test]
fn zip_entries_install_engine_and_libraries_only() {
    assert_eq!(
        zip_entry_destination("SING-BOX.EXE", "/dest"),
        Some("/dest/sing-box.exe".to_string())
    );
    assert_eq!(
        zip_entry_destination("wintun.DLL", "/dest"),
        Some("/dest/wintun.DLL".to_string())
    );
    assert_eq!(zip_entry_destination("LICENSE", "/dest"), None);
    assert_eq!(
        zip_entry_destination(".dll", "/dest"),
        Some("/dest/.dll".to_string())
    );
}

#[test]
fn bundle_paths_are_deduplicated_in_order() {
    let paths = vec![
        "tools/sing-box".to_string(),
        "/work/tools/sing-box".to_string(),
        "tools/sing-box".to_string(),
    ];
    assert_eq!(
        dedup_paths(&paths),
        vec!["tools/sing-box".to_string(), "/work/tools/sing-box".to_string()]
    );
}

#[test]
fn text_rendering_helpers() {
    assert_eq!(dec_string(0), "0");
    assert_eq!(dec_string(10), "10");
    assert_eq!(dec_string(65535), "65535");
    assert_eq!(dec_string(18446744073709551615), "18446744073709551615");
    let hosts = vec!["localhost".to_string(), "127.0.0.1".to_string()];
    assert_eq!(join_strings(&hosts, ","), "localhost,127.0.0.1");
    assert_eq!(join_strings(&Vec::new(), ","), "");
    assert_eq!(join_strings(&vec!["one".to_string()], ","), "one");
}
