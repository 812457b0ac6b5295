use rwr_toolbox::events::ScanEvent;
use rwr_toolbox::fspath::FsPath;
use rwr_toolbox::fstable::FileEntry;
use rwr_toolbox::fstable::FileTable;
use rwr_toolbox::items::RootProbe;
use rwr_toolbox::items::parse_carry_item;
use rwr_toolbox::items::parse_visual_item;
use rwr_toolbox::items::scan_items;
use rwr_toolbox::items::scan_items_collect;

fn path(segs: &[&str]) -> FsPath {
    FsPath {
        segments: segs.iter().map(|s| s.to_string()).collect(),
    }
}

fn table(files: &[(&[&str], &str)]) -> FileTable {
    FileTable {
        files: files
            .iter()
            .map(|(p, c)| FileEntry {
                path: path(p),
                content: c.to_string(),
            })
            .collect(),
    }
}

const ROOT: &[&str] = &["game", "packages"];

fn probes() -> Vec<RootProbe> {
    vec![RootProbe {
        path: path(ROOT),
        exists: true,
    }]
}

#[test]
fn carry_item_fields_and_flags() {
    let t = table(&[(
        &["game", "packages", "vanilla", "items", "vest.carry_item"],
        r#"<carry_items>
             <carry_item key="vest" name="Vest" slot="1" transform_on_consume="rag" draggable="1">
               <hud_icon filename="vest.png" />
               <inventory encumbrance="5.0" price="1.5" />
               <commonness value="0.2" in_stock=" 1 " can_respawn_with="0" />
               <capacity value="2" source="rank" sourceValue="0.5" />
               <modifier class="speed" value="-0.05" consumes_item="true" />
               <model mesh_filename="vest.mesh" />
             </carry_item>
           </carry_items>"#,
    )]);
    let p = path(&["game", "packages", "vanilla", "items", "vest.carry_item"]);
    let items =
        parse_carry_item(&t, &p, &path(ROOT), "base".to_string(), "/game/packages").unwrap();
    assert_eq!(items.len(), 1);
    let it = &items[0];
    assert_eq!(it.id, "base_0");
    assert_eq!(it.key, Some("vest".to_string()));
    assert_eq!(it.name, "Vest");
    assert_eq!(it.item_type, "carry_item");
    assert_eq!(it.encumbrance, Some("5.0".to_string()));
    assert_eq!(it.price, Some("1.5".to_string()));
    assert_eq!(it.in_stock, Some(true));
    assert_eq!(it.can_respawn_with, Some(false));
    assert_eq!(it.draggable, Some(true));
    assert_eq!(it.slot, Some("1".to_string()));
    assert_eq!(it.hud_icon, Some("vest.png".to_string()));
    assert_eq!(it.model_filename, Some("vest.mesh".to_string()));
    let mods = it.modifiers.as_ref().unwrap();
    assert_eq!(mods.len(), 1);
    assert_eq!(mods[0].modifier_class, "speed");
    assert_eq!(mods[0].value, Some("-0.05".to_string()));
    assert_eq!(mods[0].consumes_item, Some(true));
    let cap = it.capacity.as_ref().unwrap();
    assert_eq!(cap.value, Some("2".to_string()));
    assert_eq!(cap.source, Some("rank".to_string()));
    let com = it.commonness.as_ref().unwrap();
    assert_eq!(com.value, Some("0.2".to_string()));
    assert_eq!(com.in_stock, Some(true));
    assert_eq!(com.can_respawn_with, Some(false));
    assert_eq!(it.package_name, "game");
    assert_eq!(it.file_path, "vanilla/items/vest.carry_item");
    assert_eq!(it.template_error, None);
}

#[test]
fn multi_entry_template_selects_by_key() {
    let t = table(&[
        (
            &["game", "packages", "vanilla", "items", "child.carry_item"],
            r#"<carry_items>
                 <carry_item key="b" file="base.carry_item" />
               </carry_items>"#,
        ),
        (
            &["game", "packages", "vanilla", "items", "base.carry_item"],
            r#"<carry_items>
                 <carry_item key="a" name="Alpha" />
                 <carry_item key="b" name="Beta" slot="2" />
               </carry_items>"#,
        ),
    ]);
    let p = path(&["game", "packages", "vanilla", "items", "child.carry_item"]);
    let items =
        parse_carry_item(&t, &p, &path(ROOT), "base".to_string(), "/game/packages").unwrap();
    assert_eq!(items.len(), 1);
    // the selector's key picks the matching entry, whose fields fill the child
    assert_eq!(items[0].name, "Beta");
    assert_eq!(items[0].slot, Some("2".to_string()));
    assert_eq!(items[0].template_error, None);
}

#[test]
fn multi_entry_template_single_entry_applies_unconditionally() {
    let t = table(&[
        (
            &["game", "packages", "vanilla", "items", "c.carry_item"],
            r#"<carry_items><carry_item file="base.carry_item" /></carry_items>"#,
        ),
        (
            &["game", "packages", "vanilla", "items", "base.carry_item"],
            r#"<carry_items><carry_item key="only" name="Only" /></carry_items>"#,
        ),
    ]);
    let p = path(&["game", "packages", "vanilla", "items", "c.carry_item"]);
    let items =
        parse_carry_item(&t, &p, &path(ROOT), "b".to_string(), "/game/packages").unwrap();
    assert_eq!(items[0].name, "Only");
    assert_eq!(items[0].key, Some("only".to_string()));
}

#[test]
fn ambiguous_selection_is_noted_on_the_record() {
    let t = table(&[
        (
            &["game", "packages", "vanilla", "items", "c.carry_item"],
            // two entries in this file; the second refers to a two-entry
            // template without a key, and its position is out of range there
            r#"<carry_items>
                 <carry_item name="first" />
                 <carry_item name="second" file="base.carry_item" />
                 <carry_item name="third" file="base.carry_item" />
               </carry_items>"#,
        ),
        (
            &["game", "packages", "vanilla", "items", "base.carry_item"],
            r#"<carry_items>
                 <carry_item name="pa" />
                 <carry_item name="pb" />
               </carry_items>"#,
        ),
    ]);
    let p = path(&["game", "packages", "vanilla", "items", "c.carry_item"]);
    let items =
        parse_carry_item(&t, &p, &path(ROOT), "b".to_string(), "/game/packages").unwrap();
    assert_eq!(items.len(), 3);
    // index 1 is in range of the template's two entries
    assert_eq!(items[1].template_error, None);
    // index 2 is out of range and nothing else selects: ambiguous
    let err = items[2].template_error.as_ref().unwrap();
    assert!(err.contains("Ambiguous template selection"));
    assert!(err.contains("2 entries, index 2"));
}

#[test]
fn unknown_flag_text_reads_as_false() {
    let t = table(&[(
        &["game", "packages", "vanilla", "items", "odd.carry_item"],
        r#"<carry_items>
             <carry_item key="odd" name="Odd">
               <commonness in_stock="maybe" can_respawn_with="1" />
             </carry_item>
           </carry_items>"#,
    )]);
    let p = path(&["game", "packages", "vanilla", "items", "odd.carry_item"]);
    let items =
        parse_carry_item(&t, &p, &path(ROOT), "base".to_string(), "/game/packages").unwrap();
    // a present flag that is neither 0 nor 1 counts as false; absence stays absent
    assert_eq!(items[0].in_stock, Some(false));
    assert_eq!(items[0].can_respawn_with, Some(true));
    let com = items[0].commonness.as_ref().unwrap();
    assert_eq!(com.in_stock, Some(false));
    assert_eq!(com.value, None);
}

#[test]
fn capacities_and_modifiers_merge_by_key() {
    let t = table(&[
        (
            &["game", "packages", "vanilla", "items", "child.carry_item"],
            r#"<carry_items>
                 <carry_item key="child" file="base.carry_item">
                   <capacity source="rank" value="9" />
                   <modifier class="speed" value="-0.30" />
                 </carry_item>
               </carry_items>"#,
        ),
        (
            &["game", "packages", "vanilla", "items", "base.carry_item"],
            r#"<carry_items>
                 <carry_item key="base" name="Base">
                   <capacity source="rank" value="1" />
                   <capacity source="xp" value="2" />
                   <modifier class="speed" value="-0.05" />
                   <modifier class="detect" value="0.10" />
                 </carry_item>
               </carry_items>"#,
        ),
    ]);
    let p = path(&["game", "packages", "vanilla", "items", "child.carry_item"]);
    let items =
        parse_carry_item(&t, &p, &path(ROOT), "base".to_string(), "/game/packages").unwrap();
    assert_eq!(items.len(), 1);
    let it = &items[0];
    assert_eq!(it.template_error, None);
    // the child's rank capacity wins and stands first; the parent's xp
    // capacity survives the merge
    let cap = it.capacity.as_ref().unwrap();
    assert_eq!(cap.source, Some("rank".to_string()));
    assert_eq!(cap.value, Some("9".to_string()));
    // the child's speed modifier replaces the parent's; the parent's
    // detect modifier is appended after it
    let mods = it.modifiers.as_ref().unwrap();
    assert_eq!(mods.len(), 2);
    assert_eq!(mods[0].modifier_class, "speed");
    assert_eq!(mods[0].value, Some("-0.30".to_string()));
    assert_eq!(mods[1].modifier_class, "detect");
    assert_eq!(mods[1].value, Some("0.10".to_string()));
}

#[test]
fn carry_item_cycle_reports_kind_in_message() {
    let t = table(&[
        (
            &["game", "packages", "vanilla", "items", "a.carry_item"],
            r#"<carry_items><carry_item key="a" file="b.carry_item" /></carry_items>"#,
        ),
        (
            &["game", "packages", "vanilla", "items", "b.carry_item"],
            r#"<carry_items><carry_item key="b" file="b.carry_item" /></carry_items>"#,
        ),
    ]);
    let p = path(&["game", "packages", "vanilla", "items", "a.carry_item"]);
    let items =
        parse_carry_item(&t, &p, &path(ROOT), "base".to_string(), "/game/packages").unwrap();
    let err = items[0].template_error.as_ref().unwrap();
    assert!(err.contains("Circular carry_item template reference detected"));
    assert!(err.contains("b.carry_item"));
}

#[test]
fn carry_item_chain_past_depth_limit_reports_kind() {
    let mut files: Vec<(Vec<String>, String)> = Vec::new();
    for i in 0..12 {
        let name = format!("c{}.carry_item", i);
        let content = if i < 11 {
            format!(
                r#"<carry_items><carry_item key="c{}" name="n{}" file="c{}.carry_item" /></carry_items>"#,
                i,
                i,
                i + 1
            )
        } else {
            format!(r#"<carry_items><carry_item key="c11" name="n11" /></carry_items>"#)
        };
        files.push((
            vec![
                "game".to_string(),
                "packages".to_string(),
                "vanilla".to_string(),
                "items".to_string(),
                name,
            ],
            content,
        ));
    }
    let t = FileTable {
        files: files
            .into_iter()
            .map(|(p, c)| FileEntry {
                path: FsPath { segments: p },
                content: c,
            })
            .collect(),
    };
    let p = path(&["game", "packages", "vanilla", "items", "c0.carry_item"]);
    let items =
        parse_carry_item(&t, &p, &path(ROOT), "base".to_string(), "/game/packages").unwrap();
    let err = items[0].template_error.as_ref().unwrap();
    assert!(err.contains("carry_item template depth exceeded limit (>10)"));
    // no partial merge beyond the limit: the record keeps the raw bag's name
    assert_eq!(items[0].name, "n0");
}

#[test]
fn visual_item_cycle_reports_kind_in_message() {
    let t = table(&[(
        &["game", "packages", "vanilla", "items", "v.visual_item"],
        r#"<visual_item key="v" file="v.visual_item" />"#,
    )]);
    let p = path(&["game", "packages", "vanilla", "items", "v.visual_item"]);
    let it = parse_visual_item(&t, &p, &path(ROOT), "v0".to_string(), "/game/packages").unwrap();
    let err = it.template_error.as_ref().unwrap();
    assert!(err.contains("Circular visual_item template reference detected"));
}

#[test]
fn visual_item_collects_meshes() {
    let t = table(&[(
        &["game", "packages", "vanilla", "items", "hat.visual_item"],
        r#"<visual_item key="hat">
             <model mesh_filename="hat1.mesh" />
             <model mesh_filename="hat2.mesh" />
             <effect ref="sparkle" />
           </visual_item>"#,
    )]);
    let p = path(&["game", "packages", "vanilla", "items", "hat.visual_item"]);
    let it = parse_visual_item(&t, &p, &path(ROOT), "v0".to_string(), "/game/packages").unwrap();
    assert_eq!(it.item_type, "visual_item");
    assert_eq!(it.key, Some("hat".to_string()));
    assert_eq!(it.name, "hat");
    assert_eq!(
        it.mesh_filenames,
        Some(vec!["hat1.mesh".to_string(), "hat2.mesh".to_string()])
    );
    assert_eq!(it.effect_ref, Some("sparkle".to_string()));
}

#[test]
fn collect_scan_aggregates_and_reports_duplicates() {
    let t = table(&[
        (
            &["game", "packages", "a", "items", "x.carry_item"],
            r#"<carry_items><carry_item key="dup" name="X" /></carry_items>"#,
        ),
        (
            &["game", "packages", "b", "items", "y.carry_item"],
            r#"<carry_items><carry_item key="dup" name="Y" /></carry_items>"#,
        ),
        (
            &["game", "packages", "b", "items", "broken.carry_item"],
            "<carry_items><carry_item",
        ),
    ]);
    let res = scan_items_collect(&t, &probes(), "/game/packages", 9).unwrap();
    assert_eq!(res.items.len(), 2);
    assert_eq!(res.errors.len(), 1);
    assert!(res.errors[0].error.contains("XML parse error"));
    assert_eq!(res.duplicate_keys, vec!["dup".to_string()]);
    assert_eq!(res.scan_time, 9);
}

#[test]
fn collect_scan_without_roots_is_an_error() {
    let t = table(&[]);
    let none = vec![RootProbe {
        path: path(&["a"]),
        exists: false,
    }];
    let err = match scan_items_collect(&t, &none, "/a", 0) {
        Err(m) => m,
        Ok(_) => panic!("a missing root must be an error"),
    };
    assert_eq!(err, "Directory not found (tried: /a)");
}

#[test]
fn stream_scan_of_empty_root_finishes_immediately() {
    let t = table(&[]);
    let events = scan_items(&t, &probes(), "/game/packages").unwrap();
    assert_eq!(events.len(), 1);
    assert!(matches!(events[0], ScanEvent::Finished));
}

#[test]
fn stream_scan_emits_chunk_progress_and_finish() {
    let t = table(&[(
        &["game", "packages", "a", "items", "x.carry_item"],
        r#"<carry_items><carry_item key="k" name="X" /></carry_items>"#,
    )]);
    let events = scan_items(&t, &probes(), "/game/packages").unwrap();
    assert_eq!(events.len(), 4);
    assert!(matches!(
        events[0],
        ScanEvent::Progress { current: 0, total: 1 }
    ));
    match &events[1] {
        ScanEvent::Chunk(items) => {
            assert_eq!(items.len(), 1);
            assert_eq!(items[0].key, Some("k".to_string()));
        },
        _ => panic!("expected a chunk"),
    }
    assert!(matches!(
        events[2],
        ScanEvent::Progress { current: 1, total: 1 }
    ));
    assert!(matches!(events[3], ScanEvent::Finished));
}
