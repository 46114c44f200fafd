use audiobook_chapterizer::chapterize::alternatives::{
    alt_contains_potential_match, best_alt_index, count_number_words, find_chapter_word,
    get_best_alt, score_alt, score_alt_with, Alternative,
};
use audiobook_chapterizer::chapterize::numbers::NumberSpan;
use audiobook_chapterizer::chapterize::token::Word;

fn alt(confidence: i64, words: &[&str]) -> Alternative {
    Alternative {
        confidence,
        result: words
            .iter()
            .enumerate()
            .map(|(i, w)| Word {
                start: (i as u64) * 300,
                end: (i as u64) * 300 + 300,
                word: w.to_string(),
            })
            .collect(),
    }
}

#[test]
fn first_alternative_wins_without_keyword() {
    let alts = vec![alt(10, &["a", "b"]), alt(99_000, &["c", "two"]), alt(5, &[])];
    assert_eq!(best_alt_index(&alts), 0);
    assert_eq!(get_best_alt(&alts).confidence, 10);
    let single = vec![alt(-7, &[])];
    assert_eq!(best_alt_index(&single), 0);
}

#[test]
fn only_alternatives_with_keyword_compete() {
    let alts = vec![
        alt(900_000, &["chap", "to"]),
        alt(-5_000, &["the", "chapters", "ahead"]),
        alt(800_000, &["chapped", "two"]),
    ];
    assert_eq!(best_alt_index(&alts), 1);
    assert_eq!(get_best_alt(&alts).confidence, -5_000);
}

#[test]
fn scores_add_up() {
    assert_eq!(score_alt(&alt(500_250, &["chapter", "verse"])), 501_250);
    assert_eq!(score_alt(&alt(500_250, &["chapters", "verse"])), 501_150);
    assert_eq!(score_alt(&alt(500_250, &["chapter"])), 501_250);
    assert_eq!(score_alt(&alt(500_250, &["the", "chapter", "twenty", "three"])), 503_250);
    assert_eq!(
        score_alt(&alt(500_250, &["chapter", "one", "hundred", "and", "five", "x"])),
        505_250
    );
    assert_eq!(score_alt(&alt(500_250, &["chapter", "the", "twenty", "three"])), 501_250);
    assert_eq!(score_alt(&alt(0, &["chapters", "two", "chapter", "nine", "nine"])), 1_900);
    assert_eq!(score_alt(&alt(-2_000, &["chapter", "two"])), 0);
    assert_eq!(score_alt(&alt(i64::MAX, &["chapter", "two"])), i64::MAX as i128 + 2_000);
    assert_eq!(score_alt(&alt(i64::MIN, &["chapters"])), i64::MIN as i128 + 900);
}

#[test]
fn score_with_given_spans() {
    let a = alt(100, &["chapter", "x", "y"]);
    let span = |start, end| NumberSpan { start, end, text: "1".to_string() };
    assert_eq!(score_alt_with(&a, &vec![]), 1_100);
    assert_eq!(score_alt_with(&a, &vec![span(0, 2)]), 3_100);
    assert_eq!(score_alt_with(&a, &vec![span(1, 2)]), 1_100);
    assert_eq!(score_alt_with(&a, &vec![span(1, 2), span(0, 1)]), 1_100);
    assert_eq!(score_alt_with(&a, &vec![span(0, usize::MAX)]), 1_100 + 1000 * (usize::MAX as i128));
    assert_eq!(count_number_words(&vec![span(0, 3), span(3, 5)]), 3);
    assert_eq!(count_number_words(&vec![span(2, 3)]), 0);
    assert_eq!(count_number_words(&vec![]), 0);
}

#[test]
fn highest_score_wins() {
    let alts = vec![
        alt(500_000, &["chapters", "two"]),
        alt(499_950, &["chapter", "two"]),
        alt(499_000, &["chapter", "twenty", "two"]),
        alt(900_000, &["nothing", "here"]),
    ];
    assert_eq!(score_alt(&alts[0]), 501_900);
    assert_eq!(score_alt(&alts[1]), 501_950);
    assert_eq!(score_alt(&alts[2]), 502_000);
    assert_eq!(best_alt_index(&alts), 2);
    assert_eq!(best_alt_index(&alts[..2]), 1);
    assert_eq!(best_alt_index(&alts[..1]), 0);
}

#[test]
fn last_of_equal_scores_wins() {
    let alts = vec![
        alt(500_000, &["chapter", "two"]),
        alt(500_100, &["chapters", "two"]),
        alt(1, &["none"]),
        alt(500_000, &["a", "chapter", "nine"]),
        alt(400_000, &["chapter", "nine"]),
    ];
    assert_eq!(best_alt_index(&alts), 3);
    assert_eq!(get_best_alt(&alts).result.len(), 3);
}

#[test]
fn finds_the_first_keyword() {
    assert_eq!(find_chapter_word(&alt(0, &["a", "chapters", "chapter"]).result), 1);
    assert_eq!(find_chapter_word(&alt(0, &["chapter"]).result), 0);
    assert_eq!(find_chapter_word(&alt(0, &["a", "b"]).result), 2);
    assert_eq!(find_chapter_word(&alt(0, &[]).result), 0);
    assert!(alt_contains_potential_match(&alt(0, &["a", "chapters"])));
    assert!(!alt_contains_potential_match(&alt(0, &["a", "Chapter"])));
    assert!(!alt_contains_potential_match(&alt(0, &[])));
}

#[test]
fn only_the_first_words_after_the_keyword_are_looked_at() {
    let mut words = vec!["chapter", "three", "point"];
    words.extend(std::iter::repeat("nine").take(30));
    assert_eq!(score_alt(&alt(0, &words)), 1_000 + 21_000);

    let mut words = vec!["so", "chapters", "twenty", "one"];
    words.extend(std::iter::repeat("word").take(40));
    assert_eq!(score_alt(&alt(5, &words)), 5 + 900 + 2_000);

    let mut words = vec!["chapter"];
    words.extend(std::iter::repeat("word").take(21));
    words.extend(["twenty", "one"]);
    assert_eq!(score_alt(&alt(5, &words)), 5 + 1_000);
    assert_eq!(best_alt_index(&[alt(0, &words), alt(0, &words)]), 1);
}
