use drones::registry::{is_map_file_name, select_map_files, AvailableMaps, MapEntry};

fn names(v: &[&str]) -> Vec<String> {
    v.iter().map(|s| s.to_string()).collect()
}

#[test]
fn map_file_names() {
    assert!(is_map_file_name(&"clusters.dvm".to_string()));
    assert!(!is_map_file_name(&"castle.vox".to_string()));
    assert!(is_map_file_name(&".dvm".to_string()));
    assert!(!is_map_file_name(&"readme.txt".to_string()));
    assert!(!is_map_file_name(&"map.DVM".to_string()));
    assert!(!is_map_file_name(&"dvm".to_string()));
    assert!(!is_map_file_name(&"x.dvm.bak".to_string()));
}

#[test]
fn selection_filters_and_sorts() {
    let got = select_map_files(&names(&[
        "tower.dvm",
        "notes.md",
        "clusters.dvm",
        "tight_corridor.dvm",
        "empty.dvm",
        "Zeta.vox",
        "castle.vox",
    ]));
    assert_eq!(
        got,
        names(&["clusters.dvm", "empty.dvm", "tight_corridor.dvm", "tower.dvm"])
    );
}

#[test]
fn selection_matches_std_sort() {
    let input = names(&["b.dvm", "a.vox", "ab.dvm", "a.dvm", "é.dvm", "e.vox", "Z.dvm", "b.dvm"]);
    let mut expected: Vec<String> = input.iter().filter(|n| n.ends_with(".dvm")).cloned().collect();
    expected.sort();
    assert_eq!(select_map_files(&input), expected);
}

#[test]
fn empty_selection() {
    assert!(select_map_files(&names(&["a.txt"])).is_empty());
    assert!(select_map_files(&Vec::new()).is_empty());
}

#[test]
fn scan_selects_first_entry() {
    let mut maps: AvailableMaps<u32> = AvailableMaps::new();
    assert!(maps.entries.is_empty());
    assert_eq!(maps.selected, None);
    maps.replace_entries(vec![
        MapEntry { name: "a.dvm".to_string(), handle: 7 },
        MapEntry { name: "b.dvm".to_string(), handle: 9 },
    ]);
    assert_eq!(maps.entries.len(), 2);
    assert_eq!(maps.entries[1].handle, 9);
    assert_eq!(maps.selected, Some(0));
    maps.selected = Some(1);
    maps.replace_entries(Vec::new());
    assert!(maps.entries.is_empty());
    assert_eq!(maps.selected, Some(1));
}
