use rwr_toolbox::directories::DirectoryErrorCode;
use rwr_toolbox::directories::candidate_packages_dirs;
use rwr_toolbox::directories::validate_directory;
use rwr_toolbox::directories::validate_game_install_directory;
use rwr_toolbox::fspath::FsPath;
use rwr_toolbox::hotkeys::HotkeyConfigItem;
use rwr_toolbox::hotkeys::build_hotkeys_not_found_error;
use rwr_toolbox::hotkeys::generate_hotkeys;
use rwr_toolbox::hotkeys::get_official_hotkeys_path;
use rwr_toolbox::hotkeys::parse_hotkeys;
use rwr_toolbox::hotkeys::resolve_existing_hotkeys_path;
use rwr_toolbox::hotkeys::resolve_writable_hotkeys_path;
use rwr_toolbox::markup::parse_document;
use rwr_toolbox::rwrmi::ModInstallerConfig;
use rwr_toolbox::rwrmi::get_backup_path;
use rwr_toolbox::rwrmi::get_output_file_name;
use rwr_toolbox::steam::appmanifest_path_for_root;
use rwr_toolbox::steam::encode_launch_args;
use rwr_toolbox::steam::is_rwr_installed;
use rwr_toolbox::steam::parse_libraryfolders_paths;
use rwr_toolbox::steam::steam_check_rwr_available;
use rwr_toolbox::steam::steam_launch_url;
use rwr_toolbox::steam::SteamRootProbe;
use rwr_toolbox::theme::detect_theme_for_platform;
use rwr_toolbox::utils::resolve_packages_dirs;
use rwr_toolbox::weapons::icon_data_url;
use rwr_toolbox::weapons::texture_path;

fn path(segs: &[&str]) -> FsPath {
    FsPath {
        segments: segs.iter().map(|s| s.to_string()).collect(),
    }
}

#[test]
fn markup_parses_attributes_entities_and_nesting() {
    let doc = r#"<?xml version="1.0"?>
        <root a="1" b="x &amp; &lt;y&gt;">
          <child c="&quot;q&quot;" />
          text here
          <child2><inner /></child2>
        </root>"#;
    let e = parse_document(doc).unwrap();
    assert_eq!(e.name, "root");
    assert_eq!(e.attrs.len(), 2);
    assert_eq!(e.attrs[0].name, "a");
    assert_eq!(e.attrs[0].value, "1");
    assert_eq!(e.attrs[1].value, "x & <y>");
    assert_eq!(e.children.len(), 2);
    assert_eq!(e.children[0].name, "child");
    assert_eq!(e.children[0].attrs[0].value, "\"q\"");
    assert_eq!(e.children[1].children[0].name, "inner");
    assert!(e.text.contains("text here"));
}

#[test]
fn markup_rejects_broken_documents() {
    assert!(parse_document("<a><b></a></b>").is_none());
    assert!(parse_document("<a attr=>").is_none());
    assert!(parse_document("no markup at all").is_none());
    assert!(parse_document("<a></a><b></b>").is_none());
}

#[test]
fn markup_skips_comments() {
    let doc = r#"<!-- header note -->
        <?xml version="1.0"?>
        <!-- before the root -->
        <root a="1">
          <!-- between children, <tags> and -- dashes inside -->
          <child c="2" />
          kept text
        </root>
        <!-- after the root -->"#;
    let e = parse_document(doc).unwrap();
    assert_eq!(e.name, "root");
    assert_eq!(e.attrs[0].value, "1");
    assert_eq!(e.children.len(), 1);
    assert_eq!(e.children[0].name, "child");
    assert!(e.text.contains("kept text"));
    assert!(!e.text.contains("dashes"));
    // an unterminated comment is a parse error
    assert!(parse_document("<root><!-- never closed </root>").is_none());
}

#[test]
fn hotkeys_roundtrip_through_markup() {
    let config = vec![
        HotkeyConfigItem {
            label: "say hi".to_string(),
            value: "/say \"hi\" <all>".to_string(),
        },
        HotkeyConfigItem {
            label: "".to_string(),
            value: "jump".to_string(),
        },
    ];
    let xml = generate_hotkeys(&config);
    // the escaper must have rewritten the quotes and angle brackets
    assert!(xml.contains("&quot;hi&quot;"));
    assert!(xml.contains("&lt;all&gt;"));
    assert!(xml.contains("index=\"0\""));
    assert!(xml.contains("index=\"1\""));
    let parsed = parse_hotkeys(&xml).unwrap();
    assert_eq!(parsed.len(), 2);
    assert_eq!(parsed[0].label, "say hi");
    assert_eq!(parsed[0].value, "/say \"hi\" <all>");
    assert_eq!(parsed[1].label, "");
    assert_eq!(parsed[1].value, "jump");
}

#[test]
fn hotkeys_paths_resolve() {
    let official = "/home/u/.running_with_rifle/hotkeys.xml".to_string();
    let existing = vec![official.clone()];
    let got = resolve_existing_hotkeys_path(Some(&official), "/game", &existing);
    assert_eq!(got, Some(official.clone()));

    let existing2 = vec!["/game/hotkeys.xml".to_string()];
    let got2 = resolve_existing_hotkeys_path(Some(&official), "/game", &existing2);
    assert_eq!(got2, Some("/game/hotkeys.xml".to_string()));

    let got3 = resolve_existing_hotkeys_path(None, "/game", &Vec::new());
    assert_eq!(got3, None);

    assert_eq!(
        resolve_writable_hotkeys_path(Some(&official), "/game"),
        official
    );
    assert_eq!(
        resolve_writable_hotkeys_path(None, "/game"),
        "/game/hotkeys.xml".to_string()
    );
    assert_eq!(
        build_hotkeys_not_found_error(Some(&official), "/game"),
        format!(
            "hotkeys.xml not found (checked: {}, /game/hotkeys.xml)",
            official
        )
    );
    assert_eq!(
        build_hotkeys_not_found_error(None, "/game"),
        "hotkeys.xml not found".to_string()
    );
    let home = "/home/u".to_string();
    assert_eq!(
        get_official_hotkeys_path("linux", None, Some(&home)),
        Some("/home/u/.running_with_rifle/hotkeys.xml".to_string())
    );
    assert_eq!(get_official_hotkeys_path("other", None, Some(&home)), None);
}

#[test]
fn root_locator_returns_existing_candidates_once() {
    let base = path(&["steam", "rwr"]);
    let media = path(&["steam", "rwr", "media", "packages"]);
    let direct = path(&["steam", "rwr", "packages"]);
    let existing = vec![
        path(&["steam", "rwr", "media", "packages"]),
        path(&["steam", "rwr", "packages"]),
    ];
    let got = resolve_packages_dirs(&base, &existing);
    let segs: Vec<Vec<String>> = got.iter().map(|p| p.segments.clone()).collect();
    assert_eq!(segs, vec![media.segments.clone(), direct.segments.clone()]);

    // a base that already is the packages folder is the sole candidate
    let got2 = resolve_packages_dirs(&direct, &Vec::new());
    assert_eq!(got2.len(), 1);
    assert_eq!(got2[0].segments, direct.segments);

    // with nothing existing, the resolved list is empty
    let got3 = resolve_packages_dirs(&base, &Vec::new());
    assert!(got3.is_empty());
}

#[test]
fn candidate_dirs_cover_known_layouts() {
    let base = path(&["apps", "RunningWithRifles.app"]);
    let got = candidate_packages_dirs(&base);
    let display: Vec<String> = got.iter().map(|p| p.to_string_rel()).collect();
    assert!(display.contains(&"apps/RunningWithRifles.app/media/packages".to_string()));
    assert!(display.contains(&"apps/RunningWithRifles.app/packages".to_string()));
    assert!(
        display.contains(
            &"apps/RunningWithRifles.app/Contents/Resources/media/packages".to_string()
        )
    );
    // no candidate is listed twice
    for a in 0..display.len() {
        for b in (a + 1)..display.len() {
            assert_ne!(display[a], display[b]);
        }
    }
}

#[test]
fn directory_validation_verdicts() {
    let missing = validate_directory(false, false, false, false, 0);
    assert!(!missing.valid);
    assert!(matches!(
        missing.error_code,
        Some(DirectoryErrorCode::PathNotFound)
    ));

    let nomedia = validate_directory(true, true, true, false, 0);
    assert!(matches!(
        nomedia.error_code,
        Some(DirectoryErrorCode::MissingMediaSubdirectory)
    ));

    let ok = validate_directory(true, true, true, true, 7);
    assert!(ok.valid);
    assert_eq!(ok.package_count, Some(7));
    assert_eq!(ok.message, "Directory is valid");

    let install_none = validate_game_install_directory(true, true, true, 0, 0);
    assert!(matches!(
        install_none.error_code,
        Some(DirectoryErrorCode::PackagesNotFound)
    ));
    let install_ok = validate_game_install_directory(true, true, true, 2, 9);
    assert!(install_ok.valid);
    assert_eq!(install_ok.package_count, Some(9));
}

#[test]
fn launch_args_are_percent_encoded() {
    assert_eq!(encode_launch_args("abc-123"), "abc-123".to_string());
    assert_eq!(encode_launch_args("a b"), "a%20b".to_string());
    assert_eq!(encode_launch_args("x&y"), "x%26y".to_string());
    assert_eq!(
        steam_launch_url("  "),
        "steam://run/270150/".to_string()
    );
    assert_eq!(
        steam_launch_url(" verbose "),
        "steam://run/270150//verbose".to_string()
    );
}

#[test]
fn steam_library_discovery_and_install_check() {
    let vdf = "\"libraryfolders\"\n{\n  \"0\"\n  {\n    \"path\" \"/home/u/.local/share/Steam\"\n  }\n  \"1\"\n  {\n    \"path\" \"/mnt/ssd\\\\Steam\"\n  }\n}";
    let paths = parse_libraryfolders_paths(vdf);
    assert_eq!(
        paths,
        vec![
            "/home/u/.local/share/Steam".to_string(),
            "/mnt/ssd\\Steam".to_string()
        ]
    );
    assert_eq!(
        appmanifest_path_for_root("/root/steam"),
        "/root/steam/steamapps/appmanifest_270150.acf".to_string()
    );
    let probes = vec![SteamRootProbe {
        root: "/steam".to_string(),
        exists: true,
        vdf_text: Some(vdf.to_string()),
    }];
    let manifests = vec![
        "/mnt/ssd\\Steam/steamapps/appmanifest_270150.acf".to_string(),
    ];
    assert_eq!(is_rwr_installed(&probes, &manifests), Ok(true));
    assert_eq!(is_rwr_installed(&probes, &Vec::new()), Ok(false));
    assert_eq!(
        is_rwr_installed(&Vec::new(), &Vec::new()),
        Err("steam_unavailable".to_string())
    );
    assert_eq!(steam_check_rwr_available(Ok(true)), Ok(()));
    assert_eq!(
        steam_check_rwr_available(Ok(false)),
        Err("game_unavailable".to_string())
    );
}

#[test]
fn theme_detection_rules() {
    let dark = "AppleInterfaceStyle: Dark".to_string();
    let gtk = "'Adwaita-DARK'".to_string();
    assert_eq!(
        detect_theme_for_platform("macos", Some(&dark)),
        Ok("dark".to_string())
    );
    assert_eq!(
        detect_theme_for_platform("macos", None),
        Ok("light".to_string())
    );
    assert_eq!(
        detect_theme_for_platform("linux", Some(&gtk)),
        Ok("dark".to_string())
    );
    assert_eq!(
        detect_theme_for_platform("windows", None),
        Ok("light".to_string())
    );
    assert_eq!(
        detect_theme_for_platform("plan9", None),
        Ok("light".to_string())
    );
}

#[test]
fn mod_bundle_names_and_backup_path() {
    let config = ModInstallerConfig {
        title: "My Mod".to_string(),
        description: "d".to_string(),
        authors: vec!["a".to_string()],
        version: "1.2".to_string(),
        game_version: "1.96".to_string(),
    };
    assert_eq!(
        get_output_file_name(&config),
        "[RWRMI][1.96]My Mod v1.2.zip".to_string()
    );
    assert_eq!(
        get_backup_path("/home/u/.local/share"),
        "/home/u/.local/share/rwrmi/backup.zip".to_string()
    );
}

#[test]
fn icon_helpers_compute_paths_and_data_urls() {
    let weapon_file = path(&["game", "packages", "vanilla", "weapons", "ak47.weapon"]);
    let icon = texture_path(&weapon_file, "hud_ak47.png").unwrap();
    assert_eq!(
        icon.to_string_rel(),
        "game/packages/vanilla/textures/hud_ak47.png"
    );
    // one byte encodes to four base64 characters with padding
    let url = icon_data_url(&icon, &vec![0u8]);
    assert_eq!(url, "data:image/png;base64,AA==".to_string());
    let jpg = path(&["t", "x.jpg"]);
    let url2 = icon_data_url(&jpg, &Vec::new());
    assert_eq!(url2, "data:image/jpeg;base64,".to_string());
}

#[test]
fn steam_roots_per_platform() {
    let home = "/home/u".to_string();
    let mac = rwr_toolbox::steam::candidate_steam_roots("macos", Some(&home), None, None);
    assert_eq!(mac, vec!["/home/u/Library/Application Support/Steam".to_string()]);
    let linux = rwr_toolbox::steam::candidate_steam_roots("linux", Some(&home), None, None);
    assert_eq!(
        linux,
        vec![
            "/home/u/.local/share/Steam".to_string(),
            "/home/u/.steam/steam".to_string()
        ]
    );
    let pf = "C:/Program Files".to_string();
    let win = rwr_toolbox::steam::candidate_steam_roots("windows", None, Some(&pf), Some(&pf));
    assert_eq!(win, vec!["C:/Program Files/Steam".to_string()]);
}
