use lost_cities_score::cards::{read_card, Card};
use lost_cities_score::error::Error;
use lost_cities_score::files::{log_file_name, record_file_name};
use lost_cities_score::round::calc_player_round_score;
use lost_cities_score::score::calc_expedition_score;
use lost_cities_score::text::{split_expeditions, trim_owned};
use lost_cities_score::validate::{
    check_player_cards, expedition_is_legal, sanity_check_player_cards, Rejection,
};

#[test]
fn doublers_alone_score_minus_twenty_times_count_plus_one() {
    assert_eq!(calc_expedition_score("d"), Ok(-40));
    assert_eq!(calc_expedition_score("dd"), Ok(-60));
    assert_eq!(calc_expedition_score("ddd"), Ok(-80));
}

#[test]
fn short_numbered_expedition_scores_points_less_cost() {
    assert_eq!(calc_expedition_score("2345678"), Ok(15));
    assert_eq!(calc_expedition_score("9t"), Ok(-1));
    assert_eq!(calc_expedition_score("1"), Ok(-10));
}

#[test]
fn length_bonus_is_flat_and_sign_blind() {
    assert_eq!(calc_expedition_score("23456789"), Ok(44));
    assert_eq!(calc_expedition_score("dd234567"), Ok(41));
    // Eight characters of text, four of them cards: the bonus goes by the
    // text, and it is paid on a negative score too.
    assert_eq!(calc_expedition_score("  ddd2  "), Ok(-52));
    assert_eq!(calc_expedition_score("ddd2"), Ok(-72));
}

#[test]
fn doubling_comes_before_the_bonus() {
    assert_eq!(calc_expedition_score("ddd23456789t"), Ok(156));
    assert_eq!(calc_expedition_score("23456789t"), Ok(54));
    assert_eq!(calc_expedition_score("d23456789t"), Ok(88));
}

#[test]
fn expedition_without_cards_scores_nothing() {
    assert_eq!(calc_expedition_score(""), Ok(0));
    assert_eq!(calc_expedition_score(" \n"), Ok(0));
}

#[test]
fn expedition_score_trims_its_text() {
    assert_eq!(calc_expedition_score(" 5\n"), Ok(-15));
    assert_eq!(trim_owned("  ab \n"), "ab".to_string());
    assert_eq!(trim_owned("\u{3000}x\u{a0}"), "x".to_string());
}

#[test]
fn unknown_character_is_a_card_error() {
    assert_eq!(calc_expedition_score("23x"), Err(Error::CardError('x')));
    assert_eq!(calc_expedition_score("2\n3"), Err(Error::CardError('\n')));
}

#[test]
fn card_lexicon_values() {
    assert_eq!(read_card('d'), Some(Card::Doubler));
    assert_eq!(read_card('2'), Some(Card::Points(2)));
    assert_eq!(read_card('9'), Some(Card::Points(9)));
    assert_eq!(read_card('t'), Some(Card::Points(10)));
    assert_eq!(read_card('1'), Some(Card::Points(10)));
    assert_eq!(read_card('0'), None);
    assert_eq!(read_card('x'), None);
}

#[test]
fn round_is_the_sum_of_its_expeditions() {
    let two = calc_player_round_score("2 2").unwrap();
    let one = calc_expedition_score("2").unwrap();
    assert_eq!(two.result, one + one);
    assert_eq!(two.result, -36);
    assert_eq!(two.expeditions.len(), 2);
    assert_eq!(two.expeditions[0].cards, "2".to_string());
    assert_eq!(two.expeditions[1].score, -18);
}

#[test]
fn round_breakdown_keeps_order_and_trims() {
    let r = calc_player_round_score("d34 9t\n").unwrap();
    assert_eq!(r.result, -26 - 1);
    assert_eq!(r.expeditions[0].cards, "d34".to_string());
    assert_eq!(r.expeditions[0].score, -26);
    assert_eq!(r.expeditions[1].cards, "9t".to_string());
    assert_eq!(r.expeditions[1].score, -1);
}

#[test]
fn empty_expedition_in_a_round_adds_nothing() {
    let r = calc_player_round_score("2  3").unwrap();
    assert_eq!(r.result, -35);
    assert_eq!(r.expeditions.len(), 3);
    assert_eq!(r.expeditions[1].cards, "".to_string());
    assert_eq!(r.expeditions[1].score, 0);
}

#[test]
fn round_errors_name_their_cause() {
    assert_eq!(
        calc_player_round_score("").err(),
        Some(Error::ValidationRejected(Rejection::NoCards))
    );
    assert_eq!(
        calc_player_round_score("2 2 2 2 2 2 2").err(),
        Some(Error::ValidationRejected(Rejection::TooManyExpeditions))
    );
    assert_eq!(
        calc_player_round_score("22").err(),
        Some(Error::ValidationRejected(Rejection::BadOrDuplicateCard))
    );
    assert_eq!(calc_player_round_score("2\n3").err(), Some(Error::CardError('\n')));
}

#[test]
fn validator_rejections() {
    assert_eq!(check_player_cards(""), Err(Rejection::NoCards));
    assert_eq!(check_player_cards("  \n"), Err(Rejection::NoCards));
    assert_eq!(check_player_cards("\n"), Err(Rejection::NoCards));
    assert_eq!(check_player_cards("2 3 4 5 6 7 8"), Err(Rejection::TooManyExpeditions));
    assert_eq!(check_player_cards("dddd"), Err(Rejection::BadOrDuplicateCard));
    assert_eq!(check_player_cards("2332"), Err(Rejection::BadOrDuplicateCard));
    assert_eq!(check_player_cards("1t"), Err(Rejection::BadOrDuplicateCard));
    assert_eq!(check_player_cards("23x"), Err(Rejection::BadOrDuplicateCard));
    assert_eq!(check_player_cards("2\t3"), Err(Rejection::BadOrDuplicateCard));
}

#[test]
fn validator_accepts_each_card_once_in_any_order() {
    assert_eq!(check_player_cards("ddd23456789t"), Ok(()));
    assert_eq!(check_player_cards("t98765432ddd"), Ok(()));
    assert_eq!(check_player_cards("9d1d2d"), Ok(()));
    assert_eq!(check_player_cards("2 3 4 5 6 7\n"), Ok(()));
    assert!(expedition_is_legal("d2d3d4"));
    assert!(expedition_is_legal(""));
    assert!(!expedition_is_legal("ddd2d"));
}

#[test]
fn same_text_same_verdict_and_score() {
    let line = "d234689 d23569t 69 dd56789t";
    assert_eq!(sanity_check_player_cards(line), sanity_check_player_cards(line));
    assert_eq!(
        calc_player_round_score(line).unwrap().result,
        calc_player_round_score(line).unwrap().result
    );
    assert_eq!(calc_expedition_score("dd789t"), calc_expedition_score("dd789t"));
}

#[test]
fn split_keeps_empty_pieces() {
    let pieces = split_expeditions("a b  c");
    assert_eq!(
        pieces,
        vec!["a".to_string(), "b".to_string(), "".to_string(), "c".to_string()]
    );
    assert_eq!(split_expeditions(""), vec!["".to_string()]);
}

#[test]
fn file_names_carry_the_stamp() {
    assert_eq!(
        log_file_name("2024-01-02_03-04-05"),
        "LostCitiesScores_2024-01-02_03-04-05.txt".to_string()
    );
    assert_eq!(record_file_name("x"), "LostCitiesScores_x.json".to_string());
}
