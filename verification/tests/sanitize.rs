use pdf_chapters::sanitize::{sanitize_char, sanitize_filename};

#[test]
fn punctuation_becomes_underscores() {
    assert_eq!(sanitize_filename("Ch. 1: Intro/Setup"), "Ch_ 1_ Intro_Setup");
}

#[test]
fn letters_digits_hyphen_underscore_and_space_are_kept() {
    assert_eq!(sanitize_filename("Part-2_final draft 10"), "Part-2_final draft 10");
}

#[test]
fn empty_title_gives_empty_name() {
    assert_eq!(sanitize_filename(""), "");
}

#[test]
fn letters_and_digits_of_other_scripts_are_kept() {
    assert_eq!(sanitize_filename("Résumé ٣ 藏"), "Résumé ٣ 藏");
}

#[test]
fn symbols_of_other_scripts_are_replaced() {
    assert_eq!(sanitize_filename("a→b"), "a_b");
    assert_eq!(sanitize_filename("“x”"), "_x_");
}

#[test]
fn every_character_is_replaced_by_one_character() {
    let title = "a/b\\c:d*e?f\"g<h>i|j\tk\nl";
    let name = sanitize_filename(title);
    assert_eq!(name, "a_b_c_d_e_f_g_h_i_j_k_l");
    assert_eq!(name.chars().count(), title.chars().count());
}

#[test]
fn runs_of_replaced_characters_are_not_collapsed() {
    assert_eq!(sanitize_filename("a...b"), "a___b");
    assert_eq!(sanitize_filename("///"), "___");
}

#[test]
fn sanitizing_twice_is_sanitizing_once() {
    for title in ["Ch. 1: Intro/Setup", "A/B", "plain", "", "é→٣", "__--  "] {
        let once = sanitize_filename(title);
        let twice = sanitize_filename(&once);
        assert_eq!(twice, once);
    }
}

#[test]
fn a_character_is_judged_by_what_it_is_told() {
    assert_eq!(sanitize_char('x', true), 'x');
    assert_eq!(sanitize_char('x', false), '_');
    assert_eq!(sanitize_char('/', false), '_');
    assert_eq!(sanitize_char('/', true), '/');
    assert_eq!(sanitize_char('-', false), '-');
    assert_eq!(sanitize_char('_', false), '_');
    assert_eq!(sanitize_char(' ', false), ' ');
}
