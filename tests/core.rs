use xrd_mod_manager::descriptor::{read_descriptor, DescriptorError, ModData};
use xrd_mod_manager::engine::{
    engine_config_text, ensure_package, merge_engine_config, native_packages,
    parse_engine_config, reset_native_packages, scripts_to_merge, ConfigError,
};
use xrd_mod_manager::log::{Log, LogType};
use xrd_mod_manager::manager::{
    reconcile, DescriptorFile, DriftKind, EditError, Installed, ModManager,
};
use xrd_mod_manager::slot::{add1_char, add1_str, plan_deployment, SlotTable};

fn descriptor_text(name: &str, scripts: &[&str]) -> String {
    let mut m = ModData::new();
    m.name = name.to_owned();
    m.author = "Someone".to_owned();
    for s in scripts {
        m.scripts.push(s.to_string());
    }
    m.write_data()
}

fn found(dir: &str, text: String) -> Option<DescriptorFile> {
    Some(DescriptorFile { dir: dir.to_owned(), text })
}

fn registry_names(mgr: &ModManager) -> Vec<String> {
    mgr.registry_entries().into_iter().map(|(k, _)| k).collect()
}

fn list_names(mgr: &ModManager) -> Vec<String> {
    mgr.mod_datas.iter().map(|m| m.name.clone()).collect()
}

fn assert_in_step(mgr: &ModManager) {
    assert_eq!(registry_names(mgr), list_names(mgr));
    for (i, m) in mgr.mod_datas.iter().enumerate() {
        assert_eq!(m.order, i);
    }
}

fn manager_with(names: &[&str]) -> ModManager {
    let mut mgr = ModManager::empty();
    for n in names {
        let r = mgr.install_mod(n, &format!("Mods/{}", n), Some(descriptor_text(n, &[])));
        assert!(matches!(r, Installed::FromDescriptor));
    }
    mgr
}

#[test]
fn add1_moves_each_character_independently() {
    assert_eq!(add1_str("abc"), "bcd");
    assert_eq!(add1_str("az"), "b{");
    assert_eq!(add1_str(""), "");
    assert_eq!(add1_char('a'), 'b');
}

#[test]
fn add1_keeps_characters_with_no_successor() {
    assert_eq!(add1_char('\u{D7FF}'), '\u{D7FF}');
    assert_eq!(add1_char('\u{10FFFF}'), '\u{10FFFF}');
    assert_eq!(add1_str("\u{D7FF}a"), "\u{D7FF}b");
}

#[test]
fn new_mod_is_blank_and_enabled() {
    let m = ModData::new();
    assert_eq!(m.name, "New Mod");
    assert!(m.author.is_empty() && m.version.is_empty() && m.page.is_empty());
    assert!(m.enabled);
    assert_eq!(m.order, 0);
    assert!(m.scripts.is_empty());
}

#[test]
fn descriptor_round_trip() {
    let mut m = ModData::new();
    m.name = "Sol Recolor".to_owned();
    m.author = "A. Author".to_owned();
    m.version = "1.2".to_owned();
    m.category = "Visual".to_owned();
    m.description = "New palette".to_owned();
    m.page = "https://example.com/mod".to_owned();
    m.scripts = vec!["SolPkg".to_owned(), "Common".to_owned(), "SolPkg".to_owned()];
    let text = m.write_data();
    let back = read_descriptor(&text, "Mods/Sol Recolor").unwrap();
    assert_eq!(back.name, m.name);
    assert_eq!(back.author, m.author);
    assert_eq!(back.version, m.version);
    assert_eq!(back.category, m.category);
    assert_eq!(back.description, m.description);
    assert_eq!(back.page, m.page);
    assert_eq!(back.scripts, m.scripts);
    assert_eq!(back.path, "Mods/Sol Recolor");
}

#[test]
fn descriptor_round_trip_empty_fields() {
    let mut m = ModData::new();
    m.name = "Bare".to_owned();
    let back = read_descriptor(&m.write_data(), "d").unwrap();
    assert_eq!(back.name, "Bare");
    assert_eq!(back.author, "");
    assert_eq!(back.description, "");
    assert!(back.scripts.is_empty());
}

#[test]
fn descriptor_errors() {
    assert_eq!(
        read_descriptor("[Scripts]\nScriptPackage=X\n", "d").unwrap_err(),
        DescriptorError::MissingSection
    );
    assert_eq!(
        read_descriptor("[Description]\nAuthor=X\n", "d").unwrap_err(),
        DescriptorError::MissingName
    );
    assert_eq!(
        read_descriptor("[Description]\nName=\n", "d").unwrap_err(),
        DescriptorError::MissingName
    );
    assert_eq!(read_descriptor("=oops\n", "d").unwrap_err(), DescriptorError::ParseError);
}

#[test]
fn descriptor_defaults_missing_fields() {
    let m = read_descriptor("[Description]\nName=Ky\n", "Mods/Ky").unwrap();
    assert_eq!(m.name, "Ky");
    assert_eq!(m.version, "");
    assert!(m.scripts.is_empty());
    assert!(m.enabled);
}

#[test]
fn deploy_assigns_slots_bottom_up() {
    let mgr = manager_with(&["A", "B", "C"]);
    let mut slots = SlotTable::from_names(&Vec::new());
    let plan = plan_deployment(&mgr.mod_datas, &mut slots);
    let got: Vec<(usize, Option<String>)> = plan.into_iter().map(|p| (p.index, p.slot)).collect();
    assert_eq!(
        got,
        vec![
            (2, Some("a".to_owned())),
            (1, Some("b".to_owned())),
            (0, Some("c".to_owned())),
        ]
    );
}

#[test]
fn deploy_skips_disabled_and_taken_slots() {
    let mut mgr = manager_with(&["A", "B", "C"]);
    assert!(mgr.toggle_enabled("B"));
    let mut slots = SlotTable::from_names(&vec!["a".to_owned(), "zz".to_owned()]);
    let plan = plan_deployment(&mgr.mod_datas, &mut slots);
    let got: Vec<(usize, Option<String>)> = plan.into_iter().map(|p| (p.index, p.slot)).collect();
    assert_eq!(got, vec![(2, Some("b".to_owned())), (0, Some("c".to_owned()))]);
}

fn every_slot_name() -> Vec<String> {
    let mut names = Vec::new();
    let mut c = 'a' as u32;
    while c <= 0xD7FF {
        names.push(char::from_u32(c).unwrap().to_string());
        c += 1;
    }
    names
}

#[test]
fn slots_exhausted_when_every_name_taken() {
    let mut slots = SlotTable::from_names(&every_slot_name());
    assert_eq!(slots.allocate(), None);
}

#[test]
fn slots_exhausted_skips_only_that_mod() {
    let mgr = manager_with(&["Top", "Bottom"]);
    let mut names = every_slot_name();
    names.retain(|n| n != "a");
    let mut slots = SlotTable::from_names(&names);
    let plan = plan_deployment(&mgr.mod_datas, &mut slots);
    let got: Vec<(usize, Option<String>)> = plan.into_iter().map(|p| (p.index, p.slot)).collect();
    assert_eq!(got, vec![(1, Some("a".to_owned())), (0, None)]);
}

#[test]
fn reconcile_drops_missing_directory_and_rewrites() {
    let mut mgr = manager_with(&["A", "B", "C"]);
    let found = vec![
        found("Mods/A", descriptor_text("A", &[])),
        None,
        found("Mods/C", descriptor_text("C", &[])),
    ];
    let drift = mgr.update_mods(&found);
    assert_eq!(list_names(&mgr), vec!["A", "C"]);
    assert_eq!(drift.len(), 1);
    assert_eq!(drift[0].kind, DriftKind::DirectoryMissing);
    assert_eq!(drift[0].name, "B");
    assert_eq!(registry_names(&mgr), vec!["A", "C"]);
    assert_in_step(&mgr);
}

#[test]
fn reconcile_skips_descriptor_without_description() {
    let entries = vec![
        ("A".to_owned(), "True".to_owned()),
        ("B".to_owned(), "False".to_owned()),
    ];
    let found = vec![
        found("Mods/A", "[Scripts]\nScriptPackage=P\n".to_owned()),
        found("Mods/B", descriptor_text("B", &[])),
    ];
    let r = reconcile(&entries, &found);
    assert_eq!(r.mods.len(), 1);
    assert_eq!(r.mods[0].name, "B");
    assert!(!r.mods[0].enabled);
    assert_eq!(r.mods[0].order, 0);
    assert_eq!(r.drift[0].kind, DriftKind::MissingSection);
    assert_eq!(r.drift[0].name, "A");
    assert!(r.needs_rewrite);
}

#[test]
fn reconcile_reads_flags_and_keeps_order() {
    let entries = vec![
        ("C".to_owned(), "True".to_owned()),
        ("A".to_owned(), "False".to_owned()),
        ("B".to_owned(), "maybe".to_owned()),
    ];
    let found = vec![
        found("Mods/C", descriptor_text("C", &[])),
        found("Mods/A", descriptor_text("A", &[])),
        found("Mods/B", descriptor_text("B", &[])),
    ];
    let r = reconcile(&entries, &found);
    let flags: Vec<(String, bool, usize)> =
        r.mods.iter().map(|m| (m.name.clone(), m.enabled, m.order)).collect();
    assert_eq!(
        flags,
        vec![("C".to_owned(), true, 0), ("A".to_owned(), false, 1), ("B".to_owned(), false, 2)]
    );
    assert!(r.drift.is_empty());
    assert!(!r.needs_rewrite);
}

#[test]
fn reconcile_reports_duplicates() {
    let entries = vec![("A".to_owned(), "True".to_owned()), ("A2".to_owned(), "True".to_owned())];
    let found = vec![
        found("Mods/A", descriptor_text("A", &[])),
        found("Mods/A2", descriptor_text("A", &[])),
    ];
    let r = reconcile(&entries, &found);
    assert_eq!(r.mods.len(), 1);
    assert_eq!(r.drift[0].kind, DriftKind::DuplicateName);
    assert!(r.needs_rewrite);
}

#[test]
fn install_without_description_synthesizes_descriptor() {
    let mut mgr = ModManager::empty();
    let r = mgr.install_mod("Chipp", "Mods/Chipp", Some("[Scripts]\nScriptPackage=X\n".to_owned()));
    let text = match r {
        Installed::Synthesized(t) => t,
        _ => panic!("expected a synthesized descriptor"),
    };
    let back = read_descriptor(&text, "Mods/Chipp").unwrap();
    assert_eq!(back.name, "Chipp");
    assert_eq!(list_names(&mgr), vec!["Chipp"]);
    assert!(mgr.mod_datas[0].enabled);
    assert_in_step(&mgr);
}

#[test]
fn install_without_file_synthesizes_descriptor() {
    let mut mgr = ModManager::empty();
    let r = mgr.install_mod("Faust", "Mods/Faust", None);
    assert!(matches!(r, Installed::Synthesized(_)));
    assert_eq!(mgr.mod_datas[0].path, "Mods/Faust");
}

#[test]
fn install_twice_keeps_one_record() {
    let mut mgr = ModManager::empty();
    let text = descriptor_text("Axl", &["AxlPkg"]);
    assert!(matches!(
        mgr.install_mod("Axl", "Mods/Axl", Some(text.clone())),
        Installed::FromDescriptor
    ));
    assert!(matches!(mgr.install_mod("Axl", "Mods/Axl", Some(text)), Installed::AlreadyPresent));
    assert_eq!(list_names(&mgr), vec!["Axl"]);
    assert_eq!(registry_names(&mgr), vec!["Axl"]);
}

#[test]
fn registry_follows_every_change() {
    let mut mgr = manager_with(&["A", "B", "C", "D"]);
    assert_in_step(&mgr);
    assert!(mgr.toggle_enabled("C"));
    assert!(!mgr.mod_datas[2].enabled);
    assert_in_step(&mgr);
    mgr.reorder(0, 3);
    assert_eq!(list_names(&mgr), vec!["B", "C", "D", "A"]);
    assert_in_step(&mgr);
    assert!(mgr.remove_mod("C"));
    assert_eq!(list_names(&mgr), vec!["B", "D", "A"]);
    assert_in_step(&mgr);
    assert!(!mgr.remove_mod("nope"));
    let entries = mgr.registry_entries();
    assert_eq!(entries[0], ("B".to_owned(), "True".to_owned()));
    let found: Vec<Option<DescriptorFile>> = list_names(&mgr)
        .iter()
        .map(|n| found(&format!("Mods/{}", n), descriptor_text(n, &[])))
        .collect();
    let drift = mgr.update_mods(&found);
    assert!(drift.is_empty());
    assert_eq!(list_names(&mgr), vec!["B", "D", "A"]);
    assert_in_step(&mgr);
}

#[test]
fn toggle_writes_flag_to_registry() {
    let mut mgr = manager_with(&["A", "B"]);
    assert!(mgr.toggle_enabled("A"));
    let entries = mgr.registry_entries();
    assert_eq!(
        entries,
        vec![("A".to_owned(), "False".to_owned()), ("B".to_owned(), "True".to_owned())]
    );
    assert!(!mgr.toggle_enabled("Z"));
}

#[test]
fn create_and_edit_check_names() {
    let mut mgr = manager_with(&["A", "B"]);
    let mut fresh = ModData::new();
    fresh.name = String::new();
    assert_eq!(mgr.add_mod(fresh.clone()), Err(EditError::EmptyName));
    fresh.name = "A".to_owned();
    assert_eq!(mgr.add_mod(fresh.clone()), Err(EditError::DuplicateName));
    fresh.name = "New".to_owned();
    assert_eq!(mgr.add_mod(fresh), Ok(()));
    assert_eq!(list_names(&mgr), vec!["A", "B", "New"]);
    assert_eq!(mgr.validate_edit(0, "B"), Err(EditError::DuplicateName));
    assert_eq!(mgr.validate_edit(0, "A"), Ok(()));
    let mut edited = mgr.mod_datas[0].clone();
    edited.name = "A2".to_owned();
    assert_eq!(mgr.commit_edit(0, edited), Ok(()));
    assert_eq!(list_names(&mgr), vec!["A2", "B", "New"]);
    assert_in_step(&mgr);
}

fn engine_text() -> String {
    "[Core.System]\nPaths=..\n\n[Engine.ScriptPackages]\n+NativePackages=Old\n+NativePackages=REDGame\nOther=keep\n".to_owned()
}

fn packages_of(text: &str) -> Vec<String> {
    native_packages(&parse_engine_config(text).unwrap()).unwrap()
}

#[test]
fn ensure_package_twice_lists_it_once() {
    let mut doc = parse_engine_config(&engine_text()).unwrap();
    assert_eq!(ensure_package(&mut doc, "ModPkg"), Ok(true));
    assert_eq!(ensure_package(&mut doc, "ModPkg"), Ok(false));
    let text = engine_config_text(&doc);
    let got = packages_of(&text);
    assert_eq!(got.iter().filter(|p| *p == "ModPkg").count(), 1);
}

#[test]
fn ensure_package_needs_section() {
    let mut doc = parse_engine_config("[Core.System]\nPaths=..\n").unwrap();
    assert_eq!(ensure_package(&mut doc, "X"), Err(ConfigError::SectionMissing));
    assert_eq!(reset_native_packages(&mut doc), Err(ConfigError::SectionMissing));
}

#[test]
fn reset_keeps_only_bootstrap_package() {
    let mut doc = parse_engine_config(&engine_text()).unwrap();
    assert_eq!(reset_native_packages(&mut doc), Ok(()));
    assert_eq!(native_packages(&doc).unwrap(), vec!["REDGame"]);
}

#[test]
fn merge_resets_then_adds_each_package_once() {
    let packages = vec!["PkgOne".to_owned(), "PkgTwo".to_owned(), "PkgOne".to_owned(), "REDGame".to_owned()];
    let out = merge_engine_config(&engine_text(), &packages).unwrap();
    assert_eq!(packages_of(&out), vec!["REDGame", "PkgOne", "PkgTwo"]);
    assert!(out.contains("[Core.System]\nPaths=..\n"));
    assert!(out.contains("Other=keep\n"));
}

#[test]
fn merge_errors() {
    assert_eq!(
        merge_engine_config("[Core.System]\nPaths=..\n", &Vec::new()),
        Err(ConfigError::SectionMissing)
    );
    assert_eq!(merge_engine_config("=broken\n", &Vec::new()), Err(ConfigError::Unreadable));
}

#[test]
fn scripts_follow_deployment_order() {
    let mut mgr = ModManager::empty();
    mgr.install_mod("A", "Mods/A", Some(descriptor_text("A", &["PA"])));
    mgr.install_mod("B", "Mods/B", Some(descriptor_text("B", &["PB1", "PB2"])));
    let scripts = scripts_to_merge(&mgr.mod_datas, &vec![1, 0, 7]);
    assert_eq!(scripts, vec!["PB1", "PB2", "PA"]);
}

#[test]
fn log_lines_are_tagged() {
    let mut log = Log::new();
    let line = log.add_to_log(LogType::Error, "2024-01-02 03:04", "Could not copy mod X!");
    assert_eq!(line, "[ERROR] [2024-01-02 03:04] Could not copy mod X!\n");
    log.add_to_log(LogType::Info, "t", "ok");
    assert_eq!(log.log_text, "[ERROR] [2024-01-02 03:04] Could not copy mod X!\n[INFO] [t] ok\n");
}

#[test]
fn config_text_round_trips_registry() {
    let mgr = manager_with(&["A", "B"]);
    let text = mgr.config_text();
    assert!(text.contains("[Mods]\nA=True\nB=True\n"));
    let mut again = ModManager::from_config_text(&text).unwrap();
    assert!(again.mod_datas.is_empty());
    let found = vec![
        found("Mods/A", descriptor_text("A", &[])),
        found("Mods/B", descriptor_text("B", &[])),
    ];
    again.update_mods(&found);
    assert_eq!(list_names(&again), vec!["A", "B"]);
    assert!(ModManager::from_config_text("=broken\n").is_none());
}

#[test]
fn reorder_moves_up_and_renumbers() {
    let mut mgr = manager_with(&["A", "B", "C"]);
    mgr.reorder(2, 0);
    assert_eq!(list_names(&mgr), vec!["C", "A", "B"]);
    assert_in_step(&mgr);
}

#[test]
fn new_mod_names_are_checked() {
    let mgr = manager_with(&["A"]);
    assert_eq!(mgr.validate_new_mod(""), Err(EditError::EmptyName));
    assert_eq!(mgr.validate_new_mod("A"), Err(EditError::DuplicateName));
    assert_eq!(mgr.validate_new_mod("B"), Ok(()));
}
