use fisher::chunk_text;
use fisher::document::{chunk_at, is_pdf_path, pdf_chunks, DocumentError};
use fisher::text::split_lines;

#[test]
fn empty_text_has_no_chunks() {
    assert!(chunk_text("").is_empty());
    assert!(split_lines("").is_empty());
}

#[test]
fn lines_follow_str_lines() {
    let text = "one\r\ntwo\n\nthree\r";
    let expected: Vec<String> = text.lines().map(|l| l.to_string()).collect();
    assert_eq!(split_lines(text), expected);
    assert_eq!(split_lines("a\n"), vec!["a".to_string()]);
    assert_eq!(split_lines("a\n\n"), vec!["a".to_string(), "".to_string()]);
}

#[test]
fn short_lines_share_a_chunk() {
    assert_eq!(chunk_text("ab\ncd\nef"), vec!["abcdef".to_string()]);
}

#[test]
fn two_long_lines_make_two_chunks() {
    let line = "x".repeat(800);
    let text = format!("{}\n{}\n", line, line);
    let chunks = chunk_text(&text);
    assert_eq!(chunks, vec![line.clone(), line]);
}

#[test]
fn oversized_line_stays_whole() {
    let long = "y".repeat(2500);
    let text = format!("abc\n{}\ndef", long);
    let chunks = chunk_text(&text);
    assert_eq!(chunks, vec!["abc".to_string(), long, "def".to_string()]);
}

#[test]
fn budget_is_inclusive() {
    let a = "a".repeat(600);
    let b = "b".repeat(400);
    let c = "c".repeat(1);
    let text = format!("{}\n{}\n{}", a, b, c);
    let chunks = chunk_text(&text);
    assert_eq!(chunks, vec![format!("{}{}", a, b), c]);
}

#[test]
fn chunks_respect_budget_and_rejoin() {
    let mut text = String::new();
    for i in 0..300 {
        text.push_str(&"z".repeat((i * 37) % 1300));
        text.push('\n');
    }
    let chunks = chunk_text(&text);
    let lines: Vec<&str> = text.lines().collect();
    for c in &chunks {
        assert!(!c.is_empty());
        assert!(c.chars().count() <= 1000 || lines.contains(&c.as_str()));
    }
    assert_eq!(chunks.concat(), lines.concat());
}

#[test]
fn chunk_at_picks_by_offset() {
    let line = "q".repeat(800);
    let tail = "r".repeat(300);
    let text = format!("{}\n{}", line, tail);
    assert_eq!(chunk_at(&text, 0), Some(line));
    assert_eq!(chunk_at(&text, 1), Some(tail));
    assert_eq!(chunk_at(&text, 2), None);
}

#[test]
fn pdf_paths_by_extension() {
    assert!(is_pdf_path("docs/report.pdf"));
    assert!(is_pdf_path("a.pdf"));
    assert!(!is_pdf_path(".pdf"));
    assert!(!is_pdf_path("docs/.pdf"));
    assert!(!is_pdf_path("notes.txt"));
    assert!(!is_pdf_path("report.PDF"));
}

#[test]
fn pdf_text_is_chunked_like_plain_text() {
    assert_eq!(pdf_chunks(None), Err(DocumentError::ExtractionFailed));
    let line = "p".repeat(800);
    let text = format!("{}\n{}", line, line);
    assert_eq!(pdf_chunks(Some(text)), Ok(vec![line.clone(), line]));
}
