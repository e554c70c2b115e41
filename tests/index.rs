use jumble_helper::canonical::canonicalize;
use jumble_helper::entry::displayed_answer;
use jumble_helper::dictionary::{make_word_map, make_word_map_string, sorted_words};
use jumble_helper::wordmap::{WordMap, WordMaps};

fn words(list: &[&str]) -> Vec<String> {
    list.iter().map(|w| w.to_string()).collect()
}

fn group(m: &WordMap, q: &str, min: usize, max: usize) -> Option<Vec<String>> {
    m.find_match(q, min, max).cloned()
}

#[test]
fn canonicalize_sorts_letters() {
    assert_eq!(canonicalize("PURSUE"), "EPRSUU");
    assert_eq!(canonicalize("TRUST"), "RSTTU");
    assert_eq!(canonicalize(""), "");
}

#[test]
fn canonicalize_same_for_permutations() {
    assert_eq!(canonicalize("EAT"), canonicalize("TEA"));
    assert_eq!(canonicalize("TAE"), canonicalize("ATE"));
    assert_ne!(canonicalize("EAT"), canonicalize("EAST"));
    assert_ne!(canonicalize("TEE"), canonicalize("TTE"));
}

#[test]
fn canonicalize_orders_by_code_point() {
    assert_eq!(canonicalize("baB"), "Bab");
}

#[test]
fn uniqueness_policy_groups() {
    let m = WordMap::build(&words(&["EAT", "TEA", "ART"]));
    assert_eq!(group(&m, "ART", 3, 3), Some(words(&["ART"])));
    assert_eq!(group(&m, "TAE", 3, 3), Some(words(&["EAT", "TEA"])));
}

#[test]
fn uniqueness_policy_answer() {
    let m = WordMap::build(&words(&["EAT", "TEA", "ART"]));
    assert_eq!(displayed_answer(m.find_match("ART", 3, 3)), Some("ART".to_string()));
    assert_eq!(displayed_answer(m.find_match("TAE", 3, 3)), None);
    assert_eq!(displayed_answer(m.find_match("ZZZ", 3, 3)), None);
}

#[test]
fn unmatched_query_gives_nothing() {
    let m = WordMap::build(&words(&["ART"]));
    assert_eq!(group(&m, "ZZZZ", 0, 10), None);
}

#[test]
fn pursue_trust_scenario() {
    let m = make_word_map("PURSUE\nTRUST\n");
    assert_eq!(group(&m, "EUSRUP", 6, 6), Some(words(&["PURSUE"])));
    assert_eq!(group(&m, "TRUST", 5, 5), Some(words(&["TRUST"])));
    assert_eq!(group(&m, "TRUS", 5, 8), None);
}

#[test]
fn length_gate_is_exact() {
    let m = WordMap::build(&words(&["TRUST"]));
    assert_eq!(group(&m, "TRUST", 6, 8), None);
    assert_eq!(group(&m, "TRUST", 1, 4), None);
    assert_eq!(group(&m, "TRUST", 5, 5), Some(words(&["TRUST"])));
    assert_eq!(group(&m, "TRUST", 0, 5), Some(words(&["TRUST"])));
}

#[test]
fn every_listed_word_is_found() {
    let list = words(&["EAT", "TEA", "ART", "RAT", "TAR", "PURSUE", "TRUST"]);
    let m = WordMap::build(&list);
    for w in &list {
        let g = m.find_match(w, 0, w.len()).expect("a group");
        assert!(g.contains(w));
    }
}

#[test]
fn lookups_repeat_identically() {
    let m = WordMap::build(&words(&["EAT", "TEA", "ART"]));
    let a = group(&m, "ATE", 3, 3);
    let b = group(&m, "ATE", 3, 3);
    assert_eq!(a, b);
    assert_eq!(a, Some(words(&["EAT", "TEA"])));
}

#[test]
fn duplicate_words_are_kept() {
    let m = WordMap::build(&words(&["ART", "ART"]));
    assert_eq!(group(&m, "TRA", 3, 3), Some(words(&["ART", "ART"])));
    assert_eq!(m.len(), 1);
}

#[test]
fn empty_index() {
    let m = WordMap::new();
    assert_eq!(m.len(), 0);
    assert!(m.iter().is_empty());
    assert_eq!(group(&m, "", 0, 0), None);
    let m = make_word_map("");
    assert_eq!(m.len(), 0);
}

#[test]
fn insert_appends_to_group() {
    let mut m = WordMap::new();
    m.insert("AET".to_string(), "EAT".to_string());
    m.insert("ART".to_string(), "RAT".to_string());
    m.insert("AET".to_string(), "TEA".to_string());
    assert_eq!(m.len(), 2);
    assert_eq!(group(&m, "ATE", 0, 10), Some(words(&["EAT", "TEA"])));
    assert_eq!(group(&m, "TAR", 0, 10), Some(words(&["RAT"])));
}

#[test]
fn iter_lists_each_entry() {
    let m = make_word_map("EAT\nTEA\nART\nRAT\nTAR\nPURSUE\nTRUST");
    let mut entries: Vec<(String, Vec<String>)> =
        m.iter().into_iter().map(|(k, g)| (k.clone(), g.clone())).collect();
    entries.sort();
    assert_eq!(
        entries,
        vec![
            ("AET".to_string(), words(&["EAT", "TEA"])),
            ("ART".to_string(), words(&["ART", "RAT", "TAR"])),
            ("EPRSUU".to_string(), words(&["PURSUE"])),
            ("RSTTU".to_string(), words(&["TRUST"])),
        ]
    );
    assert_eq!(m.len(), 4);
}

#[test]
fn word_list_lines_with_crlf() {
    let m = make_word_map_string("EAT\r\nTEA\r\n".to_string());
    assert_eq!(group(&m, "ATE", 3, 3), Some(words(&["EAT", "TEA"])));
    assert_eq!(m.len(), 1);
}

#[test]
fn sorted_words_per_line() {
    assert_eq!(
        sorted_words("PURSUE\nTRUST\nEAT".to_string()),
        words(&["EPRSUU", "RSTTU", "AET"])
    );
    assert!(sorted_words(String::new()).is_empty());
}

#[test]
fn word_maps_per_length() {
    let wm = WordMaps::new(8);
    assert_eq!(wm.maps.len(), 9);
    assert!(wm.maps.iter().all(|m| m.len() == 0));
}

#[test]
fn word_list_line_edges() {
    assert_eq!(sorted_words("BA\n\nDC".to_string()), words(&["AB", "", "CD"]));
    assert_eq!(sorted_words("AB\r".to_string()), words(&["\rAB"]));
    assert_eq!(sorted_words("\n".to_string()), words(&[""]));
}

#[test]
fn non_letters_are_ordinary_characters() {
    let m = make_word_map("CAN'T\nA-B");
    assert_eq!(group(&m, "T'NAC", 0, 10), Some(words(&["CAN'T"])));
    assert_eq!(group(&m, "B-A", 0, 10), Some(words(&["A-B"])));
    assert_eq!(canonicalize("CAN'T"), "'ACNT");
}
