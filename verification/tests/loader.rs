use graphite::loader::{
    has_dynlib_extension, is_stale_temp_copy, temp_copy_prefix, temp_file_prefix, triggers_reload, FsChange,
    LoadedMod, ModLoader,
};

fn loaded(name: &str, path: &str, handle: u32) -> LoadedMod<u32> {
    LoadedMod::new(name.to_string(), "1.0".to_string(), path.as_bytes().to_vec(), handle)
}

#[test]
fn dynlib_extension_matches_ignoring_case() {
    assert!(has_dynlib_extension(b"mod.so", "so"));
    assert!(has_dynlib_extension(b"Mod.SO", "so"));
    assert!(has_dynlib_extension(b"a.b.dll", "dll"));
    assert!(!has_dynlib_extension(b"mod.so.1", "so"));
    assert!(!has_dynlib_extension(b"mod", "so"));
    assert!(!has_dynlib_extension(b"mod.", "so"));
    assert!(!has_dynlib_extension(b"mod.sox", "so"));
}

#[test]
fn leading_dot_is_not_an_extension() {
    assert!(!has_dynlib_extension(b".so", "so"));
    assert!(has_dynlib_extension(b"..so", "so"));
    assert!(!has_dynlib_extension(b"..", ""));
}

#[test]
fn non_utf8_extension_does_not_match() {
    assert!(!has_dynlib_extension(b"mod.\xff", "\u{ff}"));
    assert!(has_dynlib_extension(b"\xffmod.dylib", "DYLIB"));
}

#[test]
fn temp_prefix_is_stem_and_v() {
    assert_eq!(temp_copy_prefix(b"diag.so"), Some(b"diag_v".to_vec()));
    assert_eq!(temp_copy_prefix(b"lib.diag.so"), Some(b"lib.diag_v".to_vec()));
    assert_eq!(temp_copy_prefix(b"noext"), Some(b"noext_v".to_vec()));
    assert_eq!(temp_copy_prefix(b"\xff.so"), None);
}

#[test]
fn stale_copies_are_recognised() {
    let prefix = temp_copy_prefix(b"diag.so").unwrap();
    assert!(is_stale_temp_copy(b"diag_v3_abc123.so", &prefix, "so"));
    assert!(is_stale_temp_copy(b"diag_v12_X.SO", &prefix, "so"));
    assert!(!is_stale_temp_copy(b"diag_v3_abc123.dll", &prefix, "so"));
    assert!(!is_stale_temp_copy(b"other_v3_abc.so", &prefix, "so"));
    assert!(!is_stale_temp_copy(b"diag.so", &prefix, "so"));
    // a stem that is not UTF-8 is never a copy, whatever its prefix
    assert!(!is_stale_temp_copy(b"diag_v1\xff.so", &prefix, "so"));
    assert!(is_stale_temp_copy(b"diag_v1x.so", &prefix, "so"));
}

#[test]
fn loader_counts_and_names() {
    let mut l: ModLoader<u32> = ModLoader::new(b"mods".to_vec());
    assert_eq!(l.mod_count(), 0);
    assert_eq!(l.mods_dir(), b"mods");
    l.add_mod(LoadedMod::new("diag".to_string(), "0.1.0".to_string(), b"mods/diag.so".to_vec(), 1));
    l.add_mod(loaded("other", "mods/other.so", 2));
    assert_eq!(l.mod_count(), 2);
    assert_eq!(l.mod_names(), vec!["diag v0.1.0".to_string(), "other v1.0".to_string()]);
}

#[test]
fn load_generations_count_up() {
    let mut l: ModLoader<u32> = ModLoader::new(Vec::new());
    assert_eq!(l.next_load_gen(), 1);
    assert_eq!(l.next_load_gen(), 2);
}

#[test]
fn reload_replaces_mod_from_same_path() {
    let mut l: ModLoader<u32> = ModLoader::new(Vec::new());
    l.add_mod(loaded("a", "mods/a.so", 1));
    l.add_mod(loaded("b", "mods/b.so", 2));
    let (removed, generation) = l.begin_reload(b"mods/a.so");
    assert_eq!(removed.map(|m| *m.handle()), Some(1));
    assert_eq!(generation, 1);
    assert_eq!(l.mod_count(), 1);
    assert_eq!(l.finish_reload(Ok(loaded("a", "mods/a.so", 3))), Ok(()));
    let handles: Vec<u32> = l.loaded().iter().map(|m| m.handle).collect();
    assert_eq!(handles, vec![2, 3]);
}

#[test]
fn reload_of_unknown_path_only_loads() {
    let mut l: ModLoader<u32> = ModLoader::new(Vec::new());
    l.add_mod(loaded("a", "mods/a.so", 1));
    let (removed, _) = l.begin_reload(b"mods/c.so");
    assert!(removed.is_none());
    assert_eq!(l.mod_count(), 1);
    assert_eq!(l.finish_reload(Err("failed".to_string())), Err("failed".to_string()));
    assert_eq!(l.mod_count(), 1);
}

#[test]
fn remove_takes_first_match_only() {
    let mut l: ModLoader<u32> = ModLoader::new(Vec::new());
    l.add_mod(loaded("a", "p.so", 1));
    l.add_mod(loaded("a", "p.so", 2));
    assert_eq!(l.remove_mod(b"p.so").map(|m| m.handle), Some(1));
    assert_eq!(l.loaded()[0].path(), b"p.so");
    assert_eq!(l.mod_count(), 1);
}

#[test]
fn temp_file_prefix_names_the_load() {
    assert_eq!(temp_file_prefix(b"diag.so", 7), b"diag_v7_".to_vec());
    assert_eq!(temp_file_prefix(b"diag", 1234), b"diag_v1234_".to_vec());
    assert_eq!(temp_file_prefix(b"\xff.so", 3), b"graphite_mod_v3_".to_vec());
}

#[test]
fn temp_copies_are_recognised_as_stale() {
    let mut name = temp_file_prefix(b"lib.diag.so", 42);
    name.extend_from_slice(b"a1B2c3.so");
    let prefix = temp_copy_prefix(b"lib.diag.so").unwrap();
    assert!(is_stale_temp_copy(&name, &prefix, "so"));
    assert!(!is_stale_temp_copy(&name, &temp_copy_prefix(b"other.so").unwrap(), "so"));
}

#[test]
fn watcher_reloads_on_writes_to_libraries() {
    assert!(triggers_reload(FsChange::DataModified, b"m.so", "so"));
    assert!(triggers_reload(FsChange::Renamed, b"m.so", "so"));
    assert!(triggers_reload(FsChange::Created, b"m.SO", "so"));
    assert!(!triggers_reload(FsChange::Other, b"m.so", "so"));
    assert!(!triggers_reload(FsChange::Created, b"m.txt", "so"));
}

#[test]
fn scan_steps_count_libraries_and_keep_successful_loads() {
    let mut l: ModLoader<u32> = ModLoader::new(Vec::new());
    let names: [&[u8]; 4] = [b"a.so", b"notes.txt", b"b.SO", b"c.so"];
    let mut gens = Vec::new();
    for name in names {
        if let Some(g) = l.scan_entry(name, "so") {
            gens.push(g);
            let outcome = if g == 2 { Err("broken".to_string()) } else { Ok(loaded("m", "p.so", g as u32)) };
            let _ = l.record_load(outcome);
        }
    }
    assert_eq!(gens, vec![1, 2, 3]);
    assert_eq!(l.load_generation(), 3);
    let handles: Vec<u32> = l.loaded().iter().map(|m| m.handle).collect();
    assert_eq!(handles, vec![1, 3]);
    assert_eq!(l.scan_entry(b"readme", "so"), None);
    assert_eq!(l.load_generation(), 3);
}
