use audiobook_chapterizer::chapterize::alternatives::{Alternative, RecognitionResult};
use audiobook_chapterizer::chapterize::chapter::{
    chapter_event, chapter_title, ChapterEvent, ChapterFeed,
};
use audiobook_chapterizer::chapterize::numbers::{
    contains_replacement, replace_numbers, rewrite_numbers, NumberSpan, MAX_RECOGNISED_TOKENS,
};
use audiobook_chapterizer::chapterize::results_parser::{
    gate_open, judge, resolve, token_opens_heading, ParseResult, ResultsParser,
};
use audiobook_chapterizer::chapterize::token::{is_chapter_token, Token, Word};

fn tok(word: &str, start: u64, end: u64) -> Token {
    Token { start, end, word: word.to_string(), is_replacement: false }
}

fn number(word: &str, start: u64, end: u64) -> Token {
    Token { start, end, word: word.to_string(), is_replacement: true }
}

fn spoken(words: &[&str], start: u64) -> Vec<Token> {
    words
        .iter()
        .enumerate()
        .map(|(i, w)| tok(w, start + (i as u64) * 300, start + (i as u64) * 300 + 300))
        .collect()
}

fn words(tokens: &[Token]) -> Vec<String> {
    tokens.iter().map(|t| t.word.clone()).collect()
}

fn same(a: &[Token], b: &[Token]) -> bool {
    a.len() == b.len()
        && a.iter().zip(b.iter()).all(|(x, y)| {
            x.start == y.start
                && x.end == y.end
                && x.word == y.word
                && x.is_replacement == y.is_replacement
        })
}

fn run(
    parser: &mut ResultsParser,
    prev: &mut Option<Token>,
    tokens: Vec<Token>,
) -> Vec<ParseResult> {
    let mut reports = Vec::new();
    for t in tokens {
        if let Some(r) = parser.step(prev, t) {
            reports.push(r);
        }
    }
    reports
}

fn heading(result: &ParseResult) -> Option<(u64, String)> {
    match result {
        ParseResult::Match(tokens) => Some((tokens[0].start, tokens[1].word.clone())),
        _ => None,
    }
}

#[test]
fn heading_at_end_of_stream_matches() {
    let mut parser = ResultsParser::new(30);
    let mut prev = None;
    let reports = run(
        &mut parser,
        &mut prev,
        vec![
            tok("the", 0, 200),
            tok("end", 200, 500),
            tok("chapter", 800, 1200),
            tok("two", 1200, 1500),
        ],
    );
    assert!(reports.is_empty());
    assert!(parser.has_data());
    assert_eq!(parser.len(), 2);
    assert_eq!(prev.as_ref().map(|t| t.word.as_str()), Some("two"));
    let last = parser.flush();
    match &last {
        ParseResult::Match(tokens) => {
            assert_eq!(words(tokens), vec!["chapter", "2"]);
            assert_eq!(tokens[0].start, 800);
            assert!(!tokens[0].is_replacement);
            assert!(tokens[1].is_replacement);
            assert_eq!(tokens[1].start, 1200);
            assert_eq!(tokens[1].end, 1500);
        }
        _ => panic!("expected a heading"),
    }
    let event = chapter_event(&last).unwrap();
    assert_eq!(event.title, "Chapter 02");
    assert_eq!(event.start_time, 0);
}

#[test]
fn keyword_in_mid_sentence_fails() {
    let mut parser = ResultsParser::new(30);
    let mut prev = None;
    let reports = run(
        &mut parser,
        &mut prev,
        vec![
            tok("i", 0, 100),
            tok("read", 100, 400),
            tok("chapter", 450, 800),
            tok("two", 800, 1000),
            tok("of", 1000, 1100),
            tok("the", 1100, 1200),
            tok("book", 1200, 1500),
        ],
    );
    assert_eq!(reports.len(), 1);
    assert!(matches!(reports[0], ParseResult::Failure));
    assert!(chapter_event(&reports[0]).is_none());
    assert!(parser.is_empty());
    assert!(matches!(parser.flush(), ParseResult::Failure));
}

#[test]
fn pause_gate_opens_at_a_quarter_second() {
    let keyword = tok("chapter", 1000, 1300);
    assert!(gate_open(&None, &keyword));
    assert!(gate_open(&Some(tok("end", 500, 750)), &keyword));
    assert!(!gate_open(&Some(tok("end", 500, 751)), &keyword));
    assert!(!gate_open(&Some(tok("end", 500, 1100)), &keyword));

    for (end, expect_match) in [(750u64, true), (751u64, false)] {
        let mut parser = ResultsParser::new(30);
        let mut prev = Some(tok("end", 500, end));
        let mut reports = run(
            &mut parser,
            &mut prev,
            vec![tok("chapter", 1000, 1300), tok("nine", 1300, 1600)],
        );
        reports.push(parser.flush());
        let matched = reports.iter().filter(|r| matches!(r, ParseResult::Match(_))).count();
        assert_eq!(matched, if expect_match { 1 } else { 0 });
        assert!(reports.iter().all(|r| !matches!(r, ParseResult::Incomplete)));
    }
}

#[test]
fn heading_in_mid_stream_matches_once_something_follows() {
    let mut parser = ResultsParser::new(30);
    let mut prev = None;
    let mut tokens = spoken(&["chapter", "twenty", "three", "the", "storm", "chapter"], 5000);
    tokens.insert(0, tok("silence", 0, 100));
    let reports = run(&mut parser, &mut prev, tokens);
    assert_eq!(reports.len(), 2);
    assert_eq!(heading(&reports[0]), Some((5000, "23".to_string())));
    let event = chapter_event(&reports[0]).unwrap();
    assert_eq!((event.start_time, event.title.as_str()), (4000, "Chapter 23"));
    assert!(matches!(reports[1], ParseResult::Failure));
    assert!(parser.is_empty());
}

#[test]
fn keyword_without_number_fails() {
    let mut parser = ResultsParser::new(30);
    let mut prev = None;
    let reports = run(&mut parser, &mut prev, spoken(&["chapter", "and", "verse"], 1000));
    assert_eq!(reports.len(), 1);
    assert!(matches!(reports[0], ParseResult::Failure));
    assert!(parser.is_empty());

    let mut parser = ResultsParser::new(30);
    let mut prev = None;
    let reports = run(&mut parser, &mut prev, spoken(&["chapter"], 1000));
    assert!(reports.is_empty());
    assert!(matches!(parser.parse_chapter(false), ParseResult::Incomplete));
    assert!(matches!(parser.parse_chapter(true), ParseResult::Failure));
    assert!(matches!(parser.flush(), ParseResult::Failure));
}

#[test]
fn flush_of_an_empty_parser_fails() {
    let parser = ResultsParser::new(5);
    assert!(parser.is_empty());
    assert!(!parser.has_data());
    assert_eq!(parser.capacity(), 7);
    assert!(matches!(parser.parse_chapter(false), ParseResult::Incomplete));
    assert!(matches!(parser.flush(), ParseResult::Failure));
}

#[test]
fn full_buffer_forces_a_failure() {
    let mut parser = ResultsParser::new(0);
    assert_eq!(parser.capacity(), 2);
    let mut prev = None;
    let reports = run(&mut parser, &mut prev, spoken(&["chapter", "two"], 1000));
    assert_eq!(reports.len(), 1);
    assert!(matches!(reports[0], ParseResult::Failure));
    assert!(parser.is_empty());

    let mut parser = ResultsParser::new(2);
    let mut prev = None;
    let mut reports = Vec::new();
    for t in spoken(&["chapter", "one", "thousand", "two", "hundred"], 1000) {
        if let Some(r) = parser.step(&mut prev, t) {
            reports.push(r);
        }
        assert!(parser.len() < parser.capacity());
    }
    assert_eq!(reports.len(), 1);
    assert!(matches!(reports[0], ParseResult::Failure));
    assert!(parser.is_empty());
}

#[test]
fn tokens_outside_a_heading_are_not_collected() {
    let mut parser = ResultsParser::new(30);
    let mut prev = None;
    let reports = run(&mut parser, &mut prev, spoken(&["once", "upon", "a", "time"], 0));
    assert!(reports.is_empty());
    assert!(parser.is_empty());
    assert_eq!(prev.map(|t| t.word), Some("time".to_string()));
}

#[test]
fn number_token_is_no_keyword() {
    assert!(token_opens_heading(&tok("chapter", 0, 1)));
    assert!(token_opens_heading(&tok("chapters", 0, 1)));
    assert!(!token_opens_heading(&number("chapter", 0, 1)));
    assert!(!token_opens_heading(&tok("Chapter", 0, 1)));
    assert!(!token_opens_heading(&tok("chapter ", 0, 1)));
    assert!(tok("chapters", 0, 1).is_chapter_token());
    assert!(number("chapter", 0, 1).is_chapter_token());
    assert!(!tok("verse", 0, 1).is_chapter_token());
    assert!(is_chapter_token(&Word { start: 0, end: 1, word: "chapter".to_string() }));
    assert!(!is_chapter_token(&Word { start: 0, end: 1, word: "chap".to_string() }));
}

#[test]
fn token_from_word_is_raw() {
    let t = Token::from_word(&Word { start: 3, end: 9, word: "seven".to_string() });
    assert_eq!((t.start, t.end, t.word.as_str(), t.is_replacement), (3, 9, "seven", false));
    let n = number("7", 3, 9);
    assert!(same(&[n.clone()], &[n.duplicate()]));
    assert!(tok("b", 301, 400).separated_from(&tok("a", 0, 100)));
    assert!(!tok("b", 300, 400).separated_from(&tok("a", 0, 100)));
    assert!(!tok("b", 50, 400).separated_from(&tok("a", 0, 100)));
}

#[test]
fn judge_decides_on_folded_tokens() {
    let kw = || tok("chapter", 100, 200);
    let num = || number("7", 200, 300);
    assert!(matches!(judge(vec![], true), ParseResult::Failure));
    assert!(matches!(judge(vec![kw()], true), ParseResult::Failure));
    assert!(matches!(judge(vec![kw(), tok("seven", 200, 300)], true), ParseResult::Failure));
    assert!(matches!(judge(vec![number("chapter", 0, 1), num()], true), ParseResult::Failure));
    assert!(matches!(judge(vec![tok("verse", 0, 1), num()], true), ParseResult::Failure));
    assert!(matches!(judge(vec![kw(), num()], false), ParseResult::Incomplete));
    match judge(vec![kw(), num()], true) {
        ParseResult::Match(tokens) => assert!(same(&tokens, &[kw(), num()])),
        _ => panic!("expected a heading"),
    }
    match judge(vec![kw(), num(), tok("the", 300, 400), tok("end", 400, 500)], false) {
        ParseResult::Match(tokens) => assert!(same(&tokens, &[kw(), num()])),
        _ => panic!("expected a heading"),
    }
}

#[test]
fn resolve_checks_in_order() {
    let far = Some(tok("end", 0, 100));
    let near = Some(tok("end", 0, 900));
    let buffer = spoken(&["chapter", "four", "begins"], 1000);
    assert!(matches!(resolve(&buffer, &far, false), ParseResult::Match(_)));
    assert!(matches!(resolve(&buffer, &None, false), ParseResult::Match(_)));
    assert!(matches!(resolve(&buffer, &near, false), ParseResult::Failure));
    assert!(matches!(resolve(&buffer, &near, true), ParseResult::Failure));
    assert!(matches!(resolve(&vec![], &far, false), ParseResult::Incomplete));
    assert!(matches!(resolve(&vec![], &far, true), ParseResult::Failure));
    let no_keyword = spoken(&["verse", "four", "begins"], 1000);
    assert!(matches!(resolve(&no_keyword, &far, false), ParseResult::Incomplete));
    assert!(matches!(resolve(&no_keyword, &far, true), ParseResult::Failure));
    let only_keyword = spoken(&["chapter"], 1000);
    assert!(matches!(resolve(&only_keyword, &near, false), ParseResult::Failure));
    assert!(matches!(resolve(&only_keyword, &far, false), ParseResult::Incomplete));
    assert!(matches!(resolve(&only_keyword, &far, true), ParseResult::Failure));
    let open = spoken(&["chapter", "four"], 1000);
    assert!(matches!(resolve(&open, &far, false), ParseResult::Incomplete));
    assert!(matches!(resolve(&open, &far, true), ParseResult::Match(_)));
}

#[test]
fn rewrite_numbers_folds_a_phrase() {
    let out = rewrite_numbers(vec![
        tok("chapter", 0, 300),
        tok("twenty", 300, 600),
        tok("three", 600, 900),
        tok("begins", 900, 1200),
    ]);
    assert_eq!(words(&out), vec!["chapter", "23", "begins"]);
    assert_eq!((out[1].start, out[1].end, out[1].is_replacement), (300, 900, true));
    assert!(!out[0].is_replacement && !out[2].is_replacement);
    assert_eq!((out[0].start, out[0].end), (0, 300));
    assert_eq!((out[2].start, out[2].end), (900, 1200));
}

#[test]
fn rewrite_numbers_respects_pauses() {
    let out = rewrite_numbers(vec![tok("twenty", 0, 300), tok("three", 501, 800)]);
    assert_eq!(words(&out), vec!["20", "3"]);
    let out = rewrite_numbers(vec![tok("twenty", 0, 300), tok("three", 500, 800)]);
    assert_eq!(words(&out), vec!["23"]);
}

#[test]
fn rewrite_numbers_is_idempotent() {
    for phrase in [
        vec!["chapter", "twenty", "three", "begins"],
        vec!["one", "and", "two"],
        vec!["no", "numbers", "here"],
        vec!["chapter", "one", "hundred", "and"],
        vec![],
    ] {
        let once = rewrite_numbers(spoken(&phrase, 0));
        let twice = rewrite_numbers(once.iter().map(|t| t.duplicate()).collect());
        assert!(same(&once, &twice));
    }
}

#[test]
fn number_tokens_are_left_alone() {
    let mixed = vec![number("2", 0, 100), tok("twenty", 100, 200), tok("three", 200, 300)];
    assert!(contains_replacement(&mixed));
    assert!(!contains_replacement(&spoken(&["twenty", "three"], 0)));
    let out = rewrite_numbers(mixed.iter().map(|t| t.duplicate()).collect());
    assert!(same(&out, &mixed));
}

#[test]
fn replace_numbers_takes_fitting_spans_only() {
    let tokens = vec![tok("a", 0, 1), tok("b", 2, 3), tok("c", 4, 5), tok("d", 6, 7)];
    let spans = vec![
        NumberSpan { start: 1, end: 3, text: "12".to_string() },
        NumberSpan { start: 2, end: 4, text: "overlaps".to_string() },
        NumberSpan { start: 3, end: 9, text: "too long".to_string() },
        NumberSpan { start: 3, end: 3, text: "empty".to_string() },
        NumberSpan { start: 3, end: 4, text: "4".to_string() },
    ];
    let out = replace_numbers(&tokens, &spans);
    assert_eq!(words(&out), vec!["a", "12", "4"]);
    assert_eq!((out[1].start, out[1].end, out[1].is_replacement), (2, 5, true));
    assert_eq!((out[2].start, out[2].end, out[2].is_replacement), (6, 7, true));
    assert!(!out[0].is_replacement);

    let with_number = vec![tok("a", 0, 1), number("7", 2, 3), tok("c", 4, 5)];
    let spans = vec![NumberSpan { start: 0, end: 2, text: "x".to_string() }];
    assert!(same(&replace_numbers(&with_number, &spans), &with_number));
    assert!(same(&replace_numbers(&tokens, &vec![]), &tokens));
}

#[test]
fn chapter_titles() {
    assert_eq!(chapter_title("2"), Some("Chapter 02".to_string()));
    assert_eq!(chapter_title("0"), Some("Chapter 00".to_string()));
    assert_eq!(chapter_title("00"), Some("Chapter 00".to_string()));
    assert_eq!(chapter_title("007"), Some("Chapter 07".to_string()));
    assert_eq!(chapter_title("10"), Some("Chapter 10".to_string()));
    assert_eq!(chapter_title("0123"), Some("Chapter 123".to_string()));
    assert_eq!(
        chapter_title("123456789012345678901234567890"),
        Some("Chapter 123456789012345678901234567890".to_string())
    );
    assert_eq!(chapter_title(""), None);
    assert_eq!(chapter_title("-3"), None);
    assert_eq!(chapter_title(" 3"), None);
    assert_eq!(chapter_title("3 "), None);
    assert_eq!(chapter_title("three"), None);
    assert_eq!(chapter_title("٣"), None);
}

#[test]
fn chapter_titles_of_ordinals() {
    assert_eq!(chapter_title("1st"), Some("Chapter 01".to_string()));
    assert_eq!(chapter_title("2nd"), Some("Chapter 02".to_string()));
    assert_eq!(chapter_title("3rd"), Some("Chapter 03".to_string()));
    assert_eq!(chapter_title("04th"), Some("Chapter 04".to_string()));
    assert_eq!(chapter_title("21st"), Some("Chapter 21".to_string()));
    assert_eq!(chapter_title("5ths"), Some("Chapter 05".to_string()));
    assert_eq!(chapter_title("3rds"), Some("Chapter 03".to_string()));
    assert_eq!(chapter_title("1sts"), None);
    assert_eq!(chapter_title("1ST"), None);
    assert_eq!(chapter_title("1 st"), None);
    assert_eq!(chapter_title("st"), None);
    assert_eq!(chapter_title("1st2"), None);
}

#[test]
fn chapter_titles_of_decimals() {
    assert_eq!(chapter_title("2.5"), Some("Chapter 2.5".to_string()));
    assert_eq!(chapter_title("2.50"), Some("Chapter 2.5".to_string()));
    assert_eq!(chapter_title("02.05"), Some("Chapter 2.05".to_string()));
    assert_eq!(chapter_title("0.5"), Some("Chapter 0.5".to_string()));
    assert_eq!(chapter_title("00.5"), Some("Chapter 0.5".to_string()));
    assert_eq!(chapter_title("3.1415"), Some("Chapter 3.1415".to_string()));
    assert_eq!(chapter_title("2.0"), Some("Chapter 02".to_string()));
    assert_eq!(chapter_title("10.00"), Some("Chapter 10".to_string()));
    assert_eq!(chapter_title("0.0"), Some("Chapter 00".to_string()));
    assert_eq!(chapter_title("2."), None);
    assert_eq!(chapter_title(".5"), None);
    assert_eq!(chapter_title("2.5.1"), None);
    assert_eq!(chapter_title("2.x"), None);
    assert_eq!(chapter_title("2.5th"), None);
    assert_eq!(chapter_title("2,5"), None);
}

#[test]
fn chapter_event_takes_off_the_margin() {
    let at = |start: u64| {
        chapter_event(&ParseResult::Match(vec![
            tok("chapter", start, start + 300),
            number("12", start + 300, start + 900),
        ]))
            .map(|e| (e.start_time, e.title))
    };
    assert_eq!(at(5000), Some((4000, "Chapter 12".to_string())));
    assert_eq!(at(1000), Some((0, "Chapter 12".to_string())));
    assert_eq!(at(999), Some((0, "Chapter 12".to_string())));
    assert_eq!(at(1001), Some((1, "Chapter 12".to_string())));
    assert!(chapter_event(&ParseResult::Failure).is_none());
    assert!(chapter_event(&ParseResult::Incomplete).is_none());
    assert!(chapter_event(&ParseResult::Match(vec![tok("chapter", 0, 1)])).is_none());
    assert!(chapter_event(&ParseResult::Match(vec![tok("chapter", 0, 1), number("one", 1, 2)]))
        .is_none());
    assert_eq!(
        chapter_event(&ParseResult::Match(vec![tok("chapter", 0, 1), number("1st", 1, 2)]))
            .map(|e| e.title),
        Some("Chapter 01".to_string())
    );
}

fn listed(events: &[ChapterEvent]) -> Vec<(u64, String)> {
    events.iter().map(|e| (e.start_time, e.title.clone())).collect()
}

#[test]
fn chapter_list_starts_at_zero() {
    let found = |start: u64, n: &str| {
        ParseResult::Match(vec![
            tok("chapter", start, start + 300),
            number(n, start + 300, start + 600),
        ])
    };
    let mut feed = ChapterFeed::new();
    assert!(feed.on_result(&ParseResult::Failure).is_empty());
    assert_eq!(
        listed(&feed.on_result(&found(9000, "1"))),
        vec![(0, "Chapter 00".to_string()), (8000, "Chapter 01".to_string())]
    );
    assert_eq!(
        listed(&feed.on_result(&found(90000, "2"))),
        vec![(89000, "Chapter 02".to_string())]
    );
    assert!(feed.finish().is_empty());

    let mut feed = ChapterFeed::new();
    assert_eq!(listed(&feed.on_result(&found(400, "1"))), vec![(0, "Chapter 01".to_string())]);
    assert!(feed.finish().is_empty());

    let mut feed = ChapterFeed::new();
    assert!(feed.on_result(&ParseResult::Failure).is_empty());
    assert_eq!(listed(&feed.finish()), vec![(0, "Chapter 00".to_string())]);
}

fn word(word: &str, start: u64, end: u64) -> Word {
    Word { start, end, word: word.to_string() }
}

#[test]
fn ingest_results_steps_through_the_best_alternative() {
    let mut parser = ResultsParser::new(30);
    let mut prev = None;
    let first = RecognitionResult {
        alternatives: vec![Alternative {
            confidence: 500_000,
            result: vec![word("the", 0, 200), word("end", 200, 500)],
        }],
    };
    assert!(parser.ingest_results(&mut prev, &first).is_empty());
    assert!(parser.is_empty());
    assert_eq!(prev.as_ref().map(|t| t.word.as_str()), Some("end"));

    let second = RecognitionResult {
        alternatives: vec![
            Alternative {
                confidence: 900_000,
                result: vec![word("chap", 800, 1200), word("to", 1200, 1500)],
            },
            Alternative {
                confidence: 100_000,
                result: vec![
                    word("chapter", 800, 1200),
                    word("two", 1200, 1500),
                    word("it", 1800, 1900),
                    word("began", 1900, 2300),
                ],
            },
        ],
    };
    let reports = parser.ingest_results(&mut prev, &second);
    assert_eq!(reports.len(), 1);
    assert_eq!(heading(&reports[0]), Some((800, "2".to_string())));
    assert!(parser.is_empty());
    assert_eq!(prev.as_ref().map(|t| t.word.as_str()), Some("began"));
    assert!(matches!(parser.flush(), ParseResult::Failure));
}

fn long_decimal(places: usize) -> Vec<Token> {
    let mut phrase = vec!["three", "point"];
    phrase.extend(std::iter::repeat("nine").take(places));
    words_close_together(&phrase)
}

fn words_close_together(phrase: &[&str]) -> Vec<Token> {
    phrase
        .iter()
        .enumerate()
        .map(|(i, w)| tok(w, (i as u64) * 300, (i as u64) * 300 + 250))
        .collect()
}

#[test]
fn recogniser_sees_no_more_than_its_limit() {
    assert_eq!(MAX_RECOGNISED_TOKENS, 21);

    let at_limit = long_decimal(19);
    assert_eq!(at_limit.len(), 21);
    let out = rewrite_numbers(at_limit);
    assert_eq!(words(&out), vec!["3.9999999999999999999"]);
    assert_eq!((out[0].start, out[0].end, out[0].is_replacement), (0, 20 * 300 + 250, true));

    for places in [20, 21, 40] {
        let beyond = long_decimal(places);
        let out = rewrite_numbers(beyond.iter().map(|t| t.duplicate()).collect());
        assert!(same(&out, &beyond));
    }

    let mut sentence = vec!["twenty", "three"];
    sentence.extend(std::iter::repeat("and").take(20));
    let beyond = words_close_together(&sentence);
    let out = rewrite_numbers(beyond.iter().map(|t| t.duplicate()).collect());
    assert!(same(&out, &beyond));
    let within = words_close_together(&sentence[..21]);
    assert_eq!(rewrite_numbers(within)[0].word, "23");
}

#[test]
fn long_decimal_after_a_keyword_does_no_harm() {
    let mut parser = ResultsParser::new(30);
    let mut prev = None;
    let mut tokens = vec![tok("chapter", 1_000, 1_250)];
    for (i, t) in long_decimal(25).into_iter().enumerate() {
        tokens.push(tok(&t.word, 1_300 + (i as u64) * 300, 1_550 + (i as u64) * 300));
    }
    let reports = run(&mut parser, &mut prev, tokens);
    assert_eq!(reports.len(), 1);
    assert_eq!(heading(&reports[0]), Some((1_000, "3".to_string())));
    assert!(parser.is_empty());

    let long_buffer: Vec<Token> = std::iter::once(tok("chapter", 0, 250))
        .chain((1..=25u64).map(|i| tok("nine", i * 300, i * 300 + 250)))
        .collect();
    assert!(matches!(resolve(&long_buffer, &None, true), ParseResult::Failure));
    assert!(matches!(resolve(&long_buffer, &None, false), ParseResult::Failure));
}
