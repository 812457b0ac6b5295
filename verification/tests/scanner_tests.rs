use rwr_toolbox::fspath::FsPath;
use rwr_toolbox::fstable::FileEntry;
use rwr_toolbox::fstable::FileTable;
use rwr_toolbox::weapons::parse_weapon_file;
use rwr_toolbox::weapons::scan_weapons;
use rwr_toolbox::weapons::validate_game_path;

fn path(segs: &[&str]) -> FsPath {
    FsPath {
        segments: segs.iter().map(|s| s.to_string()).collect(),
    }
}

fn table(files: &[(&[&str], &str)]) -> FileTable {
    FileTable {
        files: files
            .iter()
            .map(|(p, c)| FileEntry {
                path: path(p),
                content: c.to_string(),
            })
            .collect(),
    }
}

const ROOT: &[&str] = &["game", "packages"];

#[test]
fn record_without_template_reflects_raw_bag() {
    let t = table(&[(
        &["game", "packages", "vanilla", "weapons", "ak47.weapon"],
        r#"<weapon key="ak47">
             <tag name="assault" />
             <specification retrigger_time="0.25" magazine_size="30" name="AK-47" class="0" suppressed="0" />
             <projectile file="p.projectile"><result class="hit" kill_probability="0.55" /></projectile>
             <inventory encumbrance="10.0" price="2.5" />
             <hud_icon filename="hud_ak47.png" />
             <stance state_key="running" accuracy="0.6" />
           </weapon>"#,
    )]);
    let wp = path(&["game", "packages", "vanilla", "weapons", "ak47.weapon"]);
    let w = parse_weapon_file(&t, &wp, &path(ROOT), "id0".to_string(), "/game/packages").unwrap();
    assert_eq!(w.key, Some("ak47".to_string()));
    assert_eq!(w.name, "AK-47");
    assert_eq!(w.tag, "assault");
    assert_eq!(w.class, 0);
    assert_eq!(w.retrigger_time, "0.25");
    assert_eq!(w.magazine_size, "30");
    assert_eq!(w.kill_probability, "0.55");
    assert_eq!(w.encumbrance, Some("10.0".to_string()));
    assert_eq!(w.price, Some("2.5".to_string()));
    assert_eq!(w.hud_icon, Some("hud_ak47.png".to_string()));
    assert!(!w.suppressed);
    assert!(w.can_respawn_with);
    assert!(w.in_stock);
    assert_eq!(w.file_path, "vanilla/weapons/ak47.weapon");
    assert_eq!(w.source_file, "/game/packages/vanilla/weapons/ak47.weapon");
    assert_eq!(w.package_name, "vanilla");
    assert_eq!(w.template_error, None);
    assert_eq!(w.stance_accuracies.len(), 1);
    assert_eq!(w.stance_accuracies[0].stance, "running");
    assert_eq!(w.stance_accuracies[0].accuracy, "0.6");
}

#[test]
fn child_scalars_win_over_parent() {
    let t = table(&[
        (
            &["game", "packages", "vanilla", "weapons", "child.weapon"],
            r#"<weapon key="child" file="base.weapon">
                 <specification retrigger_time="0.1" suppressed="1" />
               </weapon>"#,
        ),
        (
            &["game", "packages", "vanilla", "weapons", "base.weapon"],
            r#"<weapon>
                 <specification retrigger_time="0.9" magazine_size="20" name="Base" />
                 <tag name="smg" />
               </weapon>"#,
        ),
    ]);
    let wp = path(&["game", "packages", "vanilla", "weapons", "child.weapon"]);
    let w = parse_weapon_file(&t, &wp, &path(ROOT), "id0".to_string(), "/game/packages").unwrap();
    // the child's own value is kept verbatim
    assert_eq!(w.retrigger_time, "0.1");
    assert!(w.suppressed);
    // an omitted scalar falls through to the parent
    assert_eq!(w.magazine_size, "20");
    assert_eq!(w.name, "Base");
    // the parent's tags are inherited additively
    assert_eq!(w.tag, "smg");
    assert_eq!(w.template_error, None);
}

#[test]
fn keyed_stances_merge_by_state() {
    let t = table(&[
        (
            &["game", "packages", "vanilla", "weapons", "child.weapon"],
            r#"<weapon key="child" file="base.weapon">
                 <stance state_key="b" accuracy="9" />
                 <stance state_key="c" accuracy="3" />
               </weapon>"#,
        ),
        (
            &["game", "packages", "vanilla", "weapons", "base.weapon"],
            r#"<weapon>
                 <stance state_key="a" accuracy="1" />
                 <stance state_key="b" accuracy="2" />
               </weapon>"#,
        ),
    ]);
    let wp = path(&["game", "packages", "vanilla", "weapons", "child.weapon"]);
    let w = parse_weapon_file(&t, &wp, &path(ROOT), "id0".to_string(), "/game/packages").unwrap();
    let got: Vec<(String, String)> = w
        .stance_accuracies
        .iter()
        .map(|s| (s.stance.clone(), s.accuracy.clone()))
        .collect();
    assert_eq!(
        got,
        vec![
            ("a".to_string(), "1".to_string()),
            ("b".to_string(), "9".to_string()),
            ("c".to_string(), "3".to_string()),
        ]
    );
}

#[test]
fn self_referencing_template_reports_cycle() {
    let t = table(&[(
        &["game", "packages", "vanilla", "weapons", "loop.weapon"],
        r#"<weapon key="loop" file="loop.weapon"><specification name="L" /></weapon>"#,
    )]);
    let wp = path(&["game", "packages", "vanilla", "weapons", "loop.weapon"]);
    let w = parse_weapon_file(&t, &wp, &path(ROOT), "id0".to_string(), "/game/packages").unwrap();
    let err = w.template_error.expect("a cycle must be reported");
    assert!(err.contains("Circular reference detected"));
    // the record still reflects the unresolved raw bag
    assert_eq!(w.name, "L");
}

#[test]
fn cycle_through_intermediate_template_reports_cycle() {
    let t = table(&[
        (
            &["game", "packages", "vanilla", "weapons", "a.weapon"],
            r#"<weapon key="a" file="b.weapon"><specification name="A" /></weapon>"#,
        ),
        (
            &["game", "packages", "vanilla", "weapons", "b.weapon"],
            r#"<weapon key="b" file="c.weapon"><specification name="B" /></weapon>"#,
        ),
        (
            &["game", "packages", "vanilla", "weapons", "c.weapon"],
            r#"<weapon key="c" file="b.weapon"><specification name="C" /></weapon>"#,
        ),
    ]);
    let wp = path(&["game", "packages", "vanilla", "weapons", "a.weapon"]);
    let w = parse_weapon_file(&t, &wp, &path(ROOT), "id0".to_string(), "/game/packages").unwrap();
    let err = w.template_error.expect("the indirect cycle must be reported");
    assert!(err.contains("Circular reference detected"));
    assert!(err.contains("b.weapon"));
    // the record still reflects the unresolved raw bag
    assert_eq!(w.name, "A");
}

#[test]
fn chain_past_depth_limit_reports_depth_error() {
    // a chain of twelve files, each referring to the next
    let mut files: Vec<(Vec<String>, String)> = Vec::new();
    for i in 0..12 {
        let name = format!("w{}.weapon", i);
        let content = if i < 11 {
            format!(
                r#"<weapon key="w{}" file="w{}.weapon"><specification name="n{}" /></weapon>"#,
                i,
                i + 1,
                i
            )
        } else {
            format!(r#"<weapon key="w11"><specification name="n11" /></weapon>"#)
        };
        files.push((
            vec![
                "game".to_string(),
                "packages".to_string(),
                "vanilla".to_string(),
                "weapons".to_string(),
                name,
            ],
            content,
        ));
    }
    let t = FileTable {
        files: files
            .into_iter()
            .map(|(p, c)| FileEntry {
                path: FsPath { segments: p },
                content: c,
            })
            .collect(),
    };
    let wp = path(&["game", "packages", "vanilla", "weapons", "w0.weapon"]);
    let w = parse_weapon_file(&t, &wp, &path(ROOT), "id0".to_string(), "/game/packages").unwrap();
    let err = w.template_error.expect("a depth error must be reported");
    assert!(err.contains("depth exceeded"));
    // no partial merge was applied: the record keeps the raw bag's name
    assert_eq!(w.name, "n0");
}

#[test]
fn missing_template_still_yields_record() {
    let t = table(&[(
        &["game", "packages", "mymod", "weapons", "m4.weapon"],
        r#"<weapon key="m4" file="no_such.weapon">
             <specification name="M4" retrigger_time="0.2" />
           </weapon>"#,
    )]);
    let wp = path(&["game", "packages", "mymod", "weapons", "m4.weapon"]);
    let w = parse_weapon_file(&t, &wp, &path(ROOT), "id0".to_string(), "/game/packages").unwrap();
    let err = w.template_error.expect("the failure must be noted");
    assert!(err.contains("Template not found"));
    assert!(err.contains("/game/packages/mymod/weapons/no_such.weapon"));
    assert!(err.contains("/game/packages/vanilla/weapons/no_such.weapon"));
    assert_eq!(w.name, "M4");
    assert_eq!(w.retrigger_time, "0.2");
}

#[test]
fn vanilla_fallback_finds_template() {
    let t = table(&[
        (
            &["game", "packages", "mymod", "weapons", "m4.weapon"],
            r#"<weapon key="m4" file="base.weapon"><specification name="M4" /></weapon>"#,
        ),
        (
            &["game", "packages", "vanilla", "weapons", "base.weapon"],
            r#"<weapon><specification magazine_size="25" /></weapon>"#,
        ),
    ]);
    let wp = path(&["game", "packages", "mymod", "weapons", "m4.weapon"]);
    let w = parse_weapon_file(&t, &wp, &path(ROOT), "id0".to_string(), "/game/packages").unwrap();
    assert_eq!(w.template_error, None);
    assert_eq!(w.magazine_size, "25");
}

#[test]
fn duplicate_keys_reported_once_and_records_kept() {
    let t = table(&[
        (
            &["game", "packages", "a", "weapons", "one.weapon"],
            r#"<weapon key="dup"><specification name="One" /></weapon>"#,
        ),
        (
            &["game", "packages", "b", "weapons", "two.weapon"],
            r#"<weapon key="dup"><specification name="Two" /></weapon>"#,
        ),
        (
            &["game", "packages", "c", "weapons", "three.weapon"],
            r#"<weapon key="other"><specification name="Three" /></weapon>"#,
        ),
    ]);
    let res = scan_weapons(&t, &path(ROOT), true, 5).unwrap();
    assert_eq!(res.weapons.len(), 3);
    assert_eq!(res.errors.len(), 0);
    assert_eq!(res.duplicate_keys, vec!["dup".to_string()]);
    assert_eq!(res.scan_time, 5);
}

#[test]
fn empty_scan_yields_empty_result() {
    let t = table(&[]);
    let res = scan_weapons(&t, &path(ROOT), true, 3).unwrap();
    assert_eq!(res.weapons.len(), 0);
    assert_eq!(res.errors.len(), 0);
    assert_eq!(res.duplicate_keys.len(), 0);
    assert_eq!(res.scan_time, 3);
}

#[test]
fn missing_scan_path_is_an_error() {
    let t = table(&[]);
    let err = match scan_weapons(&t, &path(&["nowhere"]), false, 0) {
        Err(m) => m,
        Ok(_) => panic!("a missing scan path must be an error"),
    };
    assert_eq!(err, "Directory not found: /nowhere");
}

#[test]
fn malformed_file_becomes_scan_error() {
    let t = table(&[(
        &["game", "packages", "a", "weapons", "bad.weapon"],
        "<weapon key=\"x\"",
    )]);
    let res = scan_weapons(&t, &path(ROOT), true, 0).unwrap();
    assert_eq!(res.weapons.len(), 0);
    assert_eq!(res.errors.len(), 1);
    assert_eq!(res.errors[0].severity, "error");
    assert!(res.errors[0].error.contains("XML parse error"));
}

#[test]
fn validate_game_path_outcomes() {
    let p = path(&["game"]);
    let bad = validate_game_path(&p, false, false, false, 0);
    assert!(!bad.valid);
    assert_eq!(bad.error_code, Some("PATH_NOT_EXISTS".to_string()));
    assert_eq!(bad.message, Some("Path does not exist: /game".to_string()));

    let nopk = validate_game_path(&p, true, false, false, 0);
    assert_eq!(nopk.error_code, Some("PACKAGES_NOT_FOUND".to_string()));

    let notdir = validate_game_path(&p, true, true, false, 0);
    assert_eq!(notdir.error_code, Some("PACKAGES_NOT_DIRECTORY".to_string()));

    let ok = validate_game_path(&p, true, true, true, 4);
    assert!(ok.valid);
    assert_eq!(ok.weapons_path, "/game/packages");
    assert_eq!(ok.package_count, 4);
    assert_eq!(ok.message, Some("Directory is valid".to_string()));
}

#[test]
fn empty_key_falls_back_to_file_stem() {
    let t = table(&[(
        &["game", "packages", "vanilla", "weapons", "mp5.weapon"],
        r#"<weapon key=""><specification name="MP5" /></weapon>"#,
    )]);
    let wp = path(&["game", "packages", "vanilla", "weapons", "mp5.weapon"]);
    let w = parse_weapon_file(&t, &wp, &path(ROOT), "id0".to_string(), "/game/packages").unwrap();
    assert_eq!(w.key, Some("mp5".to_string()));
}

#[test]
fn flag_texts_follow_the_integer_policy() {
    // the flag policy reads the text as an integer and compares to one,
    // so a padded form still counts and anything unreadable means false
    let t = table(&[(
        &["game", "packages", "vanilla", "weapons", "s.weapon"],
        r#"<weapon key="s"><specification suppressed="01" /></weapon>"#,
    )]);
    let wp = path(&["game", "packages", "vanilla", "weapons", "s.weapon"]);
    let w = parse_weapon_file(&t, &wp, &path(ROOT), "id0".to_string(), "/game/packages").unwrap();
    assert!(w.suppressed);
    let t2 = table(&[(
        &["game", "packages", "vanilla", "weapons", "s.weapon"],
        r#"<weapon key="s"><specification suppressed="yes" /></weapon>"#,
    )]);
    let w2 = parse_weapon_file(&t2, &wp, &path(ROOT), "id0".to_string(), "/game/packages").unwrap();
    assert!(!w2.suppressed);
}

#[test]
fn chain_variants_append_parent_after_child() {
    let t = table(&[
        (
            &["game", "packages", "vanilla", "weapons", "c.weapon"],
            r#"<weapon key="c" file="p.weapon">
                 <nextInChain>c_scoped</nextInChain>
               </weapon>"#,
        ),
        (
            &["game", "packages", "vanilla", "weapons", "p.weapon"],
            r#"<weapon><nextInChain>p_scoped</nextInChain></weapon>"#,
        ),
    ]);
    let wp = path(&["game", "packages", "vanilla", "weapons", "c.weapon"]);
    let w = parse_weapon_file(&t, &wp, &path(ROOT), "id0".to_string(), "/game/packages").unwrap();
    assert_eq!(
        w.chain_variants,
        vec!["c_scoped".to_string(), "p_scoped".to_string()]
    );
}

#[test]
fn substructures_merge_field_by_field() {
    let t = table(&[
        (
            &["game", "packages", "vanilla", "weapons", "c.weapon"],
            r#"<weapon key="c" file="p.weapon">
                 <inventory encumbrance="3.0" />
               </weapon>"#,
        ),
        (
            &["game", "packages", "vanilla", "weapons", "p.weapon"],
            r#"<weapon><inventory encumbrance="9.0" price="4.5" /></weapon>"#,
        ),
    ]);
    let wp = path(&["game", "packages", "vanilla", "weapons", "c.weapon"]);
    let w = parse_weapon_file(&t, &wp, &path(ROOT), "id0".to_string(), "/game/packages").unwrap();
    // the child's sub-field wins; the one it omits falls through
    assert_eq!(w.encumbrance, Some("3.0".to_string()));
    assert_eq!(w.price, Some("4.5".to_string()));
}
