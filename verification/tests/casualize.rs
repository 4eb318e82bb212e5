use whispeross::casualize::casualize;

#[test]
fn lowercases_and_drops_commas() {
    assert_eq!(casualize("Bro, I'm not getting anything"), "bro i'm not getting anything");
}

#[test]
fn strips_sentence_ending_periods() {
    assert_eq!(casualize("I did. Then I left."), "i did then i left");
}

#[test]
fn keeps_question_marks() {
    assert_eq!(casualize("Are you coming?"), "are you coming?");
}

#[test]
fn keeps_exclamation_points() {
    assert_eq!(casualize("No way!"), "no way!");
}

#[test]
fn keeps_decimals_and_dotted_names() {
    assert_eq!(casualize("Version 3.5 is on example.com."), "version 3.5 is on example.com");
}

#[test]
fn keeps_ellipses() {
    assert_eq!(casualize("Wait... what?"), "wait... what?");
}

#[test]
fn keeps_commas_inside_numbers() {
    assert_eq!(casualize("1,000 people, wow."), "1,000 people wow");
}

#[test]
fn empty_stays_empty() {
    assert_eq!(casualize(""), "");
}

// Own tests.

#[test]
fn lowercases_beyond_ascii() {
    assert_eq!(casualize("ÉCOLE, Straße."), "école straße");
}

#[test]
fn trailing_comma_and_lone_dot_are_dropped() {
    assert_eq!(casualize("yes,"), "yes");
    assert_eq!(casualize("."), "");
    assert_eq!(casualize("a .b"), "a .b");
}
