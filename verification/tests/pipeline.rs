use audiobook_chapterizer::audio_provider::{
    after_decode_fault, after_read_fault, wants_packet, DecodeFault, FaultAction, ReadFault,
};
use audiobook_chapterizer::chapterize::alternatives::{Alternative, RecognitionResult};
use audiobook_chapterizer::chapterize::numbers::rewrite_numbers;
use audiobook_chapterizer::chapterize::token::{Token, Word};
use audiobook_chapterizer::chapterize::{Chapterizer, POST_CHAPTER_CONTEXT};

fn utterance(start: u64, words: &[&str]) -> RecognitionResult {
    RecognitionResult {
        alternatives: vec![Alternative {
            confidence: 1_000,
            result: words
                .iter()
                .enumerate()
                .map(|(i, w)| Word {
                    start: start + (i as u64) * 400,
                    end: start + (i as u64) * 400 + 400,
                    word: w.to_string(),
                })
                .collect(),
        }],
    }
}

fn listed(chapterizer: &mut Chapterizer, result: &RecognitionResult) -> Vec<(u64, String)> {
    chapterizer.ingest(result).into_iter().map(|e| (e.start_time, e.title)).collect()
}

#[test]
fn chapters_of_a_recording() {
    let mut chapterizer = Chapterizer::new(POST_CHAPTER_CONTEXT);
    assert!(listed(&mut chapterizer, &utterance(0, &["this", "is", "a", "recording"])).is_empty());
    assert!(listed(&mut chapterizer, &utterance(10_000, &["chapter", "one"])).is_empty());
    assert_eq!(
        listed(&mut chapterizer, &utterance(12_000, &["it", "was", "a", "dark", "chapter"])),
        vec![(0, "Chapter 00".to_string()), (9_000, "Chapter 01".to_string())]
    );
    assert!(listed(&mut chapterizer, &utterance(60_000, &["chapter"])).is_empty());
    assert!(listed(&mut chapterizer, &utterance(60_400, &["twenty"])).is_empty());
    assert!(listed(&mut chapterizer, &utterance(60_800, &["one"])).is_empty());
    assert_eq!(
        listed(&mut chapterizer, &utterance(61_200, &["again"])),
        vec![(59_000, "Chapter 21".to_string())]
    );
    assert!(listed(&mut chapterizer, &utterance(90_000, &["chapter", "thirty"])).is_empty());
    let last: Vec<(u64, String)> =
        chapterizer.finish().into_iter().map(|e| (e.start_time, e.title)).collect();
    assert_eq!(last, vec![(89_000, "Chapter 30".to_string())]);
}

#[test]
fn recording_without_headings_has_one_chapter() {
    let mut chapterizer = Chapterizer::new(POST_CHAPTER_CONTEXT);
    assert!(listed(&mut chapterizer, &utterance(0, &["nothing", "to", "see"])).is_empty());
    assert!(listed(&mut chapterizer, &utterance(5_000, &[])).is_empty());
    let last: Vec<(u64, String)> =
        chapterizer.finish().into_iter().map(|e| (e.start_time, e.title)).collect();
    assert_eq!(last, vec![(0, "Chapter 00".to_string())]);

    let last: Vec<(u64, String)> = Chapterizer::new(0)
        .finish()
        .into_iter()
        .map(|e| (e.start_time, e.title))
        .collect();
    assert_eq!(last, vec![(0, "Chapter 00".to_string())]);
}

#[test]
fn recording_that_opens_with_a_heading() {
    let mut chapterizer = Chapterizer::new(POST_CHAPTER_CONTEXT);
    assert_eq!(
        listed(&mut chapterizer, &utterance(300, &["chapter", "one", "begins"])),
        vec![(0, "Chapter 01".to_string())]
    );
    assert!(chapterizer.finish().is_empty());
}

#[test]
fn headings_with_ordinals() {
    let mut chapterizer = Chapterizer::new(POST_CHAPTER_CONTEXT);
    assert_eq!(
        listed(&mut chapterizer, &utterance(5_000, &["chapter", "first", "begins"])),
        vec![(0, "Chapter 00".to_string()), (4_000, "Chapter 01".to_string())]
    );
    assert_eq!(
        listed(&mut chapterizer, &utterance(50_000, &["chapter", "twenty", "second", "x"])),
        vec![(49_000, "Chapter 22".to_string())]
    );
    assert!(chapterizer.finish().is_empty());
}

#[test]
fn heading_is_settled_by_the_first_word_that_is_no_number() {
    let mut chapterizer = Chapterizer::new(POST_CHAPTER_CONTEXT);
    assert!(listed(&mut chapterizer, &utterance(50_000, &["chapter", "two"])).is_empty());
    assert_eq!(
        listed(&mut chapterizer, &utterance(50_800, &["point"])),
        vec![(0, "Chapter 00".to_string()), (49_000, "Chapter 02".to_string())]
    );
    assert!(listed(&mut chapterizer, &utterance(51_200, &["five"])).is_empty());
    assert!(chapterizer.finish().is_empty());
}

#[test]
fn numbers_are_read_without_regard_to_case() {
    let tokens = vec![
        Token { start: 0, end: 300, word: "Twenty".to_string(), is_replacement: false },
        Token { start: 300, end: 600, word: "THREE".to_string(), is_replacement: false },
    ];
    let out = rewrite_numbers(tokens);
    assert_eq!(out.len(), 1);
    assert_eq!(out[0].word, "23");
    assert!(out[0].is_replacement);
}

#[test]
fn decoder_faults() {
    assert!(wants_packet(3, 3));
    assert!(!wants_packet(3, 4));
    assert_eq!(after_read_fault(ReadFault::UnexpectedEnd), FaultAction::EndOfStream);
    assert_eq!(after_read_fault(ReadFault::Other), FaultAction::Abort);
    assert_eq!(after_decode_fault(DecodeFault::Io), FaultAction::SkipPacket);
    assert_eq!(after_decode_fault(DecodeFault::Other), FaultAction::Abort);
}

#[test]
fn chapters_are_handed_out_in_the_order_they_start() {
    let mut chapterizer = Chapterizer::new(POST_CHAPTER_CONTEXT);
    let mut times = Vec::new();
    let mut start = 2_000;
    for words in [
        vec!["chapter", "one", "so"],
        vec!["it", "goes", "chapter"],
        vec!["chapter", "two"],
        vec!["chapter", "three", "and"],
        vec!["chapter", "verse"],
        vec!["chapter", "four"],
    ] {
        for event in chapterizer.ingest(&utterance(start, &words)) {
            times.push(event.start_time);
        }
        start += 10_000;
    }
    for event in chapterizer.finish() {
        times.push(event.start_time);
    }
    assert_eq!(times, vec![0, 1_000, 21_000, 51_000]);
    assert!(times.windows(2).all(|pair| pair[0] <= pair[1]));
}

fn timed(words: &[(&str, u64)]) -> RecognitionResult {
    RecognitionResult {
        alternatives: vec![Alternative {
            confidence: 1_000,
            result: words
                .iter()
                .map(|(w, start)| Word { start: *start, end: start + 400, word: w.to_string() })
                .collect(),
        }],
    }
}

#[test]
fn results_can_be_cut_anywhere() {
    let words = [
        ("well", 5_000),
        ("chapter", 6_000),
        ("twenty", 6_400),
        ("one", 6_800),
        ("began", 7_200),
        ("chapter", 8_000),
        ("nine", 8_400),
    ];
    let mut whole = Chapterizer::new(POST_CHAPTER_CONTEXT);
    let mut at_once = listed(&mut whole, &timed(&words));
    at_once.extend(whole.finish().into_iter().map(|e| (e.start_time, e.title)));
    for cut in 0..=words.len() {
        let mut pieces = Chapterizer::new(POST_CHAPTER_CONTEXT);
        let mut found = listed(&mut pieces, &timed(&words[..cut]));
        found.extend(listed(&mut pieces, &timed(&words[cut..])));
        found.extend(pieces.finish().into_iter().map(|e| (e.start_time, e.title)));
        assert_eq!(found, at_once);
    }
    assert_eq!(
        at_once,
        vec![
            (0, "Chapter 00".to_string()),
            (5_000, "Chapter 21".to_string()),
            (7_000, "Chapter 09".to_string())
        ]
    );
}
