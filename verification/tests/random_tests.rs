use luckymon::random::{draw_shiny, draw_species_id, shiny_from_draw, MAX_SPECIES_ID, MIN_SPECIES_ID, SHINY_ONE_IN};

#[test]
fn shiny_rule_accepts_exactly_one() {
    assert!(shiny_from_draw(1));
    for n in 2..=SHINY_ONE_IN {
        assert!(!shiny_from_draw(n));
    }
}

#[test]
fn species_draw_stays_in_range() {
    for _ in 0..10_000 {
        let id = draw_species_id();
        assert!(MIN_SPECIES_ID <= id && id <= MAX_SPECIES_ID);
    }
}

#[test]
fn shiny_frequency_is_about_one_in_five_hundred() {
    // With 1_000_000 draws the expected shiny count is 2000 with a
    // standard deviation of about 45, so [1700, 2300] is far beyond
    // any plausible statistical fluctuation.
    let n = 1_000_000u32;
    let mut shinies = 0u32;
    for _ in 0..n {
        if draw_shiny() {
            shinies += 1;
        }
    }
    assert!(1700 <= shinies && shinies <= 2300, "shiny count {}", shinies);
}
