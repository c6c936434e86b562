use luckymon::formatter::{
    capitalize, capitalize_hyphenated, format_for_bulba, format_for_display, formatted_name,
    has_hyphen, is_nidoran, is_paradox, is_wf_raw_name, str_equal,
};

#[test]
fn display_nidoran_female() {
    assert_eq!(format_for_display("nidoran-f"), "Nidoran ♀");
}

#[test]
fn display_nidoran_male() {
    assert_eq!(format_for_display("nidoran-m"), "Nidoran ♂");
}

#[test]
fn display_type_null() {
    assert_eq!(format_for_display("type-null"), "Type: Null");
}

#[test]
fn display_kommo_o() {
    assert_eq!(format_for_display("kommo-o"), "Kommo-o");
}

#[test]
fn display_jangmo_o() {
    assert_eq!(format_for_display("jangmo-o"), "Jangmo-o");
}

#[test]
fn display_tapu_koko() {
    assert_eq!(format_for_display("tapu-koko"), "Tapu Koko");
}

#[test]
fn display_pikachu() {
    assert_eq!(format_for_display("pikachu"), "Pikachu");
}

#[test]
fn display_mr_mime() {
    assert_eq!(format_for_display("mr-mime"), "Mr. Mime");
}

#[test]
fn display_ho_oh() {
    assert_eq!(format_for_display("ho-oh"), "Ho-Oh");
}

#[test]
fn display_porygon_z() {
    assert_eq!(format_for_display("porygon-z"), "Porygon-Z");
}

#[test]
fn display_default_strips_hyphen() {
    assert_eq!(format_for_display("iron-moth"), "Iron Moth");
    assert_eq!(format_for_display("mime-jr"), "Mime Jr");
}

#[test]
fn bulba_nidoran_female() {
    assert_eq!(format_for_bulba("nidoran-f"), "Nidoran%E2%99%80");
}

#[test]
fn bulba_nidoran_male() {
    assert_eq!(format_for_bulba("nidoran-m"), "Nidoran%E2%99%82");
}

#[test]
fn bulba_type_null() {
    assert_eq!(format_for_bulba("type-null"), "Type:_Null");
}

#[test]
fn bulba_tapu_koko() {
    assert_eq!(format_for_bulba("tapu-koko"), "Tapu_Koko");
}

#[test]
fn bulba_iron_moth() {
    assert_eq!(format_for_bulba("iron-moth"), "Iron_Moth");
}

#[test]
fn bulba_pikachu() {
    assert_eq!(format_for_bulba("pikachu"), "Pikachu");
}

#[test]
fn bulba_mr_mime() {
    assert_eq!(format_for_bulba("mr-mime"), "Mr._Mime");
}

#[test]
fn bulba_ho_oh_and_porygon_z() {
    assert_eq!(format_for_bulba("ho-oh"), "Ho-Oh");
    assert_eq!(format_for_bulba("porygon-z"), "Porygon-Z");
}

#[test]
fn bulba_paradox_prefixes() {
    assert_eq!(format_for_bulba("great-tusk"), "Great_Tusk");
    assert_eq!(format_for_bulba("scream-tail"), "Scream_Tail");
    assert_eq!(format_for_bulba("flutter-mane"), "Flutter_Mane");
    assert_eq!(format_for_bulba("sandy-shocks"), "Sandy_Shocks");
    assert_eq!(format_for_bulba("slither-wing"), "Slither_Wing");
    assert_eq!(format_for_bulba("brute-bonnet"), "Brute_Bonnet");
}

#[test]
fn bulba_fall_through_keeps_hyphen() {
    assert_eq!(format_for_bulba("mime-jr"), "Mime-jr");
}

#[test]
fn capitalize_uppercases_first_only() {
    assert_eq!(capitalize("pikachu"), "Pikachu");
    assert_eq!(capitalize("a"), "A");
}

#[test]
fn capitalize_hyphenated_separators() {
    assert_eq!(capitalize_hyphenated("tapu-koko", " "), "Tapu Koko");
    assert_eq!(capitalize_hyphenated("tapu-koko", "_"), "Tapu_Koko");
    assert_eq!(capitalize_hyphenated("ho-oh", "-"), "Ho-Oh");
}

#[test]
fn predicate_helpers() {
    assert!(has_hyphen("type-null"));
    assert!(!has_hyphen("pikachu"));
    assert!(is_nidoran("nidoran-f"));
    assert!(is_nidoran("nidoran-m"));
    assert!(!is_nidoran("pikachu"));
    assert!(is_paradox("iron-moth"));
    assert!(is_paradox("great-tusk"));
    assert!(!is_paradox("tapu-koko"));
    assert!(str_equal("type-null", "type-null"));
    assert!(!str_equal("type-null", "type-nul"));
}

#[test]
fn formatted_name_returns_both_derivations() {
    let (display, slug) = formatted_name("nidoran-f");
    assert_eq!(display, "Nidoran ♀");
    assert_eq!(slug, "Nidoran%E2%99%80");
    let (display, slug) = formatted_name("tapu-lele");
    assert_eq!(display, "Tapu Lele");
    assert_eq!(slug, "Tapu_Lele");
}

#[test]
fn wf_raw_name_checker() {
    assert!(is_wf_raw_name("pikachu"));
    assert!(is_wf_raw_name("nidoran-f"));
    assert!(!is_wf_raw_name(""));
    assert!(!is_wf_raw_name("-abc"));
    assert!(!is_wf_raw_name("abc-"));
    assert!(!is_wf_raw_name("Pikachu"));
    assert!(!is_wf_raw_name("mr. mime"));
}
