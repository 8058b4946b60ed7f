use omnichat::bimap::{BiMap, BiMapBuilder, BuildError};

fn strings(v: &[&str]) -> Vec<String> {
    v.iter().map(|s| s.to_string()).collect()
}

fn build(names: &[&str], ids: &[&str]) -> Result<BiMap, BuildError> {
    BiMap::new(BiMapBuilder { human: strings(names), id: strings(ids) })
}

#[test]
fn lookups_go_both_ways() {
    let names = ["general", "random", "dev"];
    let ids = ["C1", "C2", "C3"];
    let m = build(&names, &ids).unwrap();
    for i in 0..3 {
        assert_eq!(m.get_human(&ids[i].to_string()).unwrap(), names[i]);
        assert_eq!(m.get_id(&names[i].to_string()).unwrap(), ids[i]);
    }
    assert_eq!(m.len(), 3);
    assert_eq!(m.id_at(1), "C2");
    assert_eq!(m.human_at(2), "dev");
}

#[test]
fn unknown_keys_are_absent() {
    let m = build(&["general"], &["C1"]).unwrap();
    assert_eq!(m.get_human(&"C9".to_string()), None);
    assert_eq!(m.get_id(&"C1".to_string()), None);
    assert!(m.contains_id(&"C1".to_string()));
    assert!(!m.contains_id(&"general".to_string()));
    assert!(m.contains_human(&"general".to_string()));
    assert!(!m.contains_human(&"random".to_string()));
}

#[test]
fn empty_map_builds() {
    let m = build(&[], &[]).unwrap();
    assert_eq!(m.len(), 0);
    assert!(!m.contains_id(&"C1".to_string()));
}

#[test]
fn length_mismatch_is_refused() {
    assert_eq!(build(&["a", "b"], &["1"]).err(), Some(BuildError::LengthMismatch));
}

#[test]
fn duplicate_id_is_refused() {
    assert_eq!(build(&["a", "b"], &["1", "1"]).err(), Some(BuildError::DuplicateId));
}

#[test]
fn duplicate_name_is_refused() {
    assert_eq!(build(&["a", "a"], &["1", "2"]).err(), Some(BuildError::DuplicateHuman));
}
