use jp2tw_captioner::transcript::{
    chunk_count, chunk_span, display_lines, line_texts, Segment, TranscribeError, Transcript,
};

fn seg(start_ms: u64, end_ms: u64, text: &str) -> Segment {
    Segment { start_ms, end_ms, text: text.to_string() }
}

#[test]
fn long_recording_splits_into_three_chunks() {
    let total = 1500 * 1000;
    assert_eq!(chunk_count(total, 600), 3);
    assert_eq!(chunk_span(0, total, 600), (0, 600_000));
    assert_eq!(chunk_span(1, total, 600), (600_000, 1_200_000));
    assert_eq!(chunk_span(2, total, 600), (1_200_000, 1_500_000));

    let mut t = Transcript::new(600);
    t.add_chunk(vec![seg(0, 1000, "a")]).unwrap();
    t.add_chunk(vec![seg(500, 2500, "b")]).unwrap();
    t.add_chunk(vec![seg(3000, 4500, "c"), seg(5000, 6000, "d")]).unwrap();
    let all = t.finish().unwrap();
    assert_eq!(
        all,
        vec![
            seg(0, 1000, "a"),
            seg(600_500, 602_500, "b"),
            seg(1_203_000, 1_204_500, "c"),
            seg(1_205_000, 1_206_000, "d"),
        ]
    );
}

#[test]
fn chunk_count_rounds_up() {
    assert_eq!(chunk_count(0, 600), 0);
    assert_eq!(chunk_count(1, 600), 1);
    assert_eq!(chunk_count(600_000, 600), 1);
    assert_eq!(chunk_count(600_001, 600), 2);
    assert_eq!(chunk_count(u64::MAX, 1), u64::MAX / 1000 + 1);
}

#[test]
fn merged_starts_never_go_back_across_chunks() {
    let mut t = Transcript::new(10);
    t.add_chunk(vec![seg(9_000, 10_000, "end of first"), seg(10_000, 10_000, "edge")]).unwrap();
    t.add_chunk(vec![seg(0, 500, "start of second")]).unwrap();
    let all = t.finish().unwrap();
    let starts: Vec<u64> = all.iter().map(|s| s.start_ms).collect();
    assert_eq!(starts, vec![9_000, 10_000, 10_000]);
}

#[test]
fn empty_chunk_is_refused() {
    let mut t = Transcript::new(600);
    t.add_chunk(vec![seg(0, 10, "a")]).unwrap();
    assert_eq!(t.add_chunk(vec![]), Err(TranscribeError::EmptyChunk { chunk: 1 }));
    let all = t.finish().unwrap();
    assert_eq!(all, vec![seg(0, 10, "a")]);
}

#[test]
fn nothing_collected_is_an_error() {
    let t = Transcript::new(600);
    assert_eq!(t.finish(), Err(TranscribeError::NoSegments));
}

#[test]
fn time_overflow_is_refused() {
    let mut t = Transcript::new(600);
    t.add_chunk(vec![seg(0, 10, "a")]).unwrap();
    assert_eq!(
        t.add_chunk(vec![seg(0, u64::MAX - 1000, "b")]),
        Err(TranscribeError::TimeOverflow { chunk: 1 })
    );
    assert_eq!(t.finish().unwrap().len(), 1);
}

#[test]
fn line_texts_follow_segments() {
    let segs = vec![seg(0, 1, "おはよう"), seg(1, 2, "こんにちは")];
    assert_eq!(line_texts(&segs), vec!["おはよう", "こんにちは"]);
}

#[test]
fn display_lines_bilingual_and_plain() {
    let ja = vec!["おはよう".to_string(), "こんにちは".to_string()];
    let zh = vec!["早安".to_string(), "你好".to_string()];
    assert_eq!(display_lines(&ja, &zh, true), vec!["早安\nおはよう", "你好\nこんにちは"]);
    assert_eq!(display_lines(&ja, &zh, false), vec!["早安", "你好"]);
}
