use mask_my_name::matching::{matches_normalized, normalize_lowered, normalize_recognized, supplement_target_string, text_matches};

fn strings(v: &[&str]) -> Vec<String> {
    v.iter().map(|s| s.to_string()).collect()
}

#[test]
fn underscore_target_gets_spaced_variant() {
    assert_eq!(supplement_target_string(&"john_doe".to_string()), strings(&["john_doe", "john doe"]));
}

#[test]
fn plain_target_gets_one_candidate() {
    assert_eq!(supplement_target_string(&"johndoe".to_string()), strings(&["johndoe"]));
}

#[test]
fn target_is_lowered() {
    assert_eq!(supplement_target_string(&"John_DOE".to_string()), strings(&["john_doe", "john doe"]));
    assert_eq!(supplement_target_string(&"".to_string()), strings(&[""]));
}

#[test]
fn normalization_strips_periods_and_commas() {
    assert_eq!(normalize_recognized("Hello, A.L.I.C.E!"), "hello alice!");
    assert_eq!(normalize_lowered("a.b,c"), "abc");
}

#[test]
fn normalization_is_idempotent() {
    for s in ["Hello, World.", "..,,", "ALICE", "", "x.y,z"] {
        let once = normalize_recognized(s);
        assert_eq!(normalize_recognized(&once), once);
        assert_eq!(normalize_lowered(&once), once);
    }
}

#[test]
fn match_is_substring_containment() {
    let cands = strings(&["alice"]);
    assert!(matches_normalized("user alice42", &cands));
    assert!(!matches_normalized("alic e", &cands));
    assert!(!matches_normalized("", &cands));
    assert!(!matches_normalized("anything", &Vec::new()));
}

#[test]
fn recognized_text_matches_after_normalizing() {
    assert!(text_matches("Logged in as ALICE.", &strings(&["alice"])));
    assert!(text_matches("A.LICE", &strings(&["alice"])));
    assert!(!text_matches("ALICE", &strings(&["bob"])));
    assert!(text_matches("John Doe", &supplement_target_string(&"john_doe".to_string())));
    assert!(text_matches("john_doe", &supplement_target_string(&"john_doe".to_string())));
}
