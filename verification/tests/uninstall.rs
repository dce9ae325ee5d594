use matrix::uninstall::parse_choice;

#[test]
fn choice_one_wipes_everything() {
    assert_eq!(parse_choice("1"), Some(1));
    assert_eq!(parse_choice("everything"), Some(1));
    assert_eq!(parse_choice(" WIPE \n"), Some(1));
}

#[test]
fn choice_two_keeps_config() {
    assert_eq!(parse_choice("2"), Some(2));
    assert_eq!(parse_choice("only"), Some(2));
    assert_eq!(parse_choice("binary"), Some(2));
}

#[test]
fn empty_defaults_to_keeping_config() {
    assert_eq!(parse_choice(""), Some(2));
    assert_eq!(parse_choice("   \n"), Some(2));
}

#[test]
fn garbage_is_rejected() {
    assert_eq!(parse_choice("maybe"), None);
    assert_eq!(parse_choice("3"), None);
}

#[test]
fn choice_words_are_case_insensitive() {
    assert_eq!(parse_choice("ALL"), Some(1));
    assert_eq!(parse_choice("\tOnly\t"), Some(2));
}
