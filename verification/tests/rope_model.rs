use edit_core::document::Document;
use edit_core::syntax::{bytes_from, clamped_slice};
use edit_core::text::utf8_width;
use ropey::Rope;

const SAMPLES: [&str; 14] = [
    "",
    "a",
    "ab\ncd",
    "ab\ncd\n",
    "\n",
    "\n\n",
    "a\r\nb",
    "a\rb",
    "\r\n",
    "\r\r\n\n",
    "é€\n𝄞x\u{2028}y\u{2029}\u{0085}z",
    "a\u{000B}b\u{000C}c",
    "x\r",
    "héllo wörld\r\nsecond line\n\nfourth",
];

fn byte_of_char(text: &[char], i: usize) -> usize {
    text[..i].iter().map(|c| c.len_utf8()).sum()
}

fn char_of_byte(text: &[char], b: usize) -> usize {
    (0..=text.len()).rev().find(|i| byte_of_char(text, *i) <= b).unwrap()
}

fn is_line_break(c: char) -> bool {
    matches!(c, '\n' | '\u{000B}' | '\u{000C}' | '\r' | '\u{0085}' | '\u{2028}' | '\u{2029}')
}

fn ends_line(text: &[char], i: usize) -> bool {
    is_line_break(text[i]) && !(text[i] == '\r' && i + 1 < text.len() && text[i + 1] == '\n')
}

fn breaks_before(text: &[char], n: usize) -> usize {
    (0..n).filter(|i| ends_line(text, *i)).count()
}

fn line_start(text: &[char], l: usize) -> usize {
    (0..=text.len()).find(|c| *c == text.len() || breaks_before(text, *c) >= l).unwrap()
}

#[test]
fn widths_of_characters() {
    assert_eq!(utf8_width('a'), 1);
    assert_eq!(utf8_width('\u{7f}'), 1);
    assert_eq!(utf8_width('\u{80}'), 2);
    assert_eq!(utf8_width('é'), 2);
    assert_eq!(utf8_width('\u{7ff}'), 2);
    assert_eq!(utf8_width('\u{800}'), 3);
    assert_eq!(utf8_width('€'), 3);
    assert_eq!(utf8_width('\u{ffff}'), 3);
    assert_eq!(utf8_width('\u{10000}'), 4);
    assert_eq!(utf8_width('𝄞'), 4);
    for c in ['\0', 'z', 'ß', '\u{d7ff}', '\u{e000}', '\u{10ffff}'] {
        assert_eq!(utf8_width(c), c.len_utf8());
    }
}

#[test]
fn rope_lengths_follow_the_model() {
    for sample in SAMPLES {
        let text: Vec<char> = sample.chars().collect();
        let rope = Rope::from_str(sample);
        assert_eq!(rope.len_bytes(), byte_of_char(&text, text.len()));
        assert_eq!(rope.len_chars(), text.len());
        assert_eq!(rope.len_lines(), breaks_before(&text, text.len()) + 1);
    }
}

#[test]
fn rope_index_conversions_follow_the_model() {
    for sample in SAMPLES {
        let text: Vec<char> = sample.chars().collect();
        let rope = Rope::from_str(sample);
        for b in 0..=rope.len_bytes() {
            assert_eq!(rope.byte_to_char(b), char_of_byte(&text, b));
            assert_eq!(rope.byte_to_line(b), breaks_before(&text, char_of_byte(&text, b)));
        }
        for c in 0..=text.len() {
            assert_eq!(rope.char_to_byte(c), byte_of_char(&text, c));
            if c < text.len() {
                assert_eq!(rope.char(c), text[c]);
            }
        }
        for l in 0..=rope.len_lines() {
            assert_eq!(rope.line_to_char(l), line_start(&text, l));
            assert_eq!(rope.line_to_byte(l), byte_of_char(&text, line_start(&text, l)));
        }
    }
}

fn long_sample() -> String {
    let mut text = String::new();
    for i in 0..700 {
        text.push_str(match i % 7 {
            0 => "plain words\n",
            1 => "carriage\r\nreturn\r",
            2 => "wïdé çhärs €€ 𝄞\n",
            3 => "\r\n\r\n",
            4 => "sep\u{2028}par\u{2029}nel\u{0085}",
            5 => "vt\u{000B}ff\u{000C}",
            _ => "\n",
        });
    }
    text
}

#[test]
fn rope_of_many_pieces_follows_the_model() {
    let sample = long_sample();
    let text: Vec<char> = sample.chars().collect();
    let rope = Rope::from_str(&sample);
    let mut starts = vec![0];
    let mut breaks = vec![0];
    for (i, c) in text.iter().enumerate() {
        starts.push(starts[i] + c.len_utf8());
        breaks.push(breaks[i] + usize::from(ends_line(&text, i)));
    }
    assert!(sample.len() > 8_000);
    assert_eq!(rope.len_bytes(), starts[text.len()]);
    assert_eq!(rope.len_chars(), text.len());
    assert_eq!(rope.len_lines(), breaks[text.len()] + 1);
    let mut at = 0;
    for b in 0..=sample.len() {
        while at < text.len() && starts[at + 1] <= b {
            at += 1;
        }
        assert_eq!(rope.byte_to_char(b), at);
        assert_eq!(rope.byte_to_line(b), breaks[at]);
    }
    let mut line = 0;
    for c in 0..=text.len() {
        assert_eq!(rope.char_to_byte(c), starts[c]);
        if c < text.len() {
            assert_eq!(rope.char(c), text[c]);
        }
        if c == text.len() || breaks[c] >= line {
            while line <= breaks[c] {
                assert_eq!(rope.line_to_char(line), c);
                assert_eq!(rope.line_to_byte(line), starts[c]);
                line += 1;
            }
        }
    }
    assert_eq!(line, rope.len_lines());
    assert_eq!(rope.line_to_char(line), text.len());
    assert_eq!(rope.line_to_byte(line), sample.len());
}

#[test]
fn edits_in_a_rope_of_many_pieces_follow_the_model() {
    let sample = long_sample();
    let text: Vec<char> = sample.chars().collect();
    for at in (0..=text.len()).step_by(97) {
        for ch in ['x', '\n', '\r', '𝄞'] {
            let mut rope = Rope::from_str(&sample);
            let lines = rope.len_lines();
            rope.insert_char(at, ch);
            let mut expected = text.clone();
            expected.insert(at, ch);
            assert_eq!(rope.to_string(), expected.iter().collect::<String>());
            assert!(rope.len_lines() >= lines);
        }
        for len in [0, 1, 2, 500, 3000] {
            if at + len > text.len() || at + len == 0 {
                continue;
            }
            let mut rope = Rope::from_str(&sample);
            rope.remove(at..=at + len - 1);
            let mut expected = text[..at].to_vec();
            expected.extend_from_slice(&text[at + len..]);
            assert_eq!(rope.to_string(), expected.iter().collect::<String>());
        }
    }
}

#[test]
fn document_edits_in_a_text_of_many_pieces() {
    let sample = long_sample();
    let mut doc = Document::new(Rope::from_str(&sample));
    doc.move_to(350, 3);
    let cursor = doc.cursor_byte();
    let (column, line) = doc.position();
    assert_eq!((column, line), (3, 350));
    for ch in "typed text\r\n€".chars() {
        doc.insert(ch);
    }
    assert_eq!(doc.cursor_byte(), cursor + 15);
    assert_eq!(doc.position(), (3, 351));
    for _ in 0..13 {
        doc.remove_before();
    }
    assert_eq!(doc.rope().to_string(), sample);
    assert_eq!(doc.cursor_byte(), cursor);
    doc.enter_select_line();
    doc.move_to(usize::MAX, 0);
    doc.remove();
    let start = Rope::from_str(&sample).line_to_byte(350);
    assert_eq!(doc.cursor_byte(), start);
    assert_eq!(doc.rope().to_string(), &sample[..start]);
    assert_eq!(doc.position(), (0, 350));
}

#[test]
fn rope_edits_follow_the_model() {
    for sample in SAMPLES {
        let text: Vec<char> = sample.chars().collect();
        for at in 0..=text.len() {
            for ch in ['x', '\n', '\r', '€'] {
                let mut rope = Rope::from_str(sample);
                rope.insert_char(at, ch);
                let mut expected = text.clone();
                expected.insert(at, ch);
                assert_eq!(rope.to_string(), expected.iter().collect::<String>());
                assert!(rope.len_lines() >= Rope::from_str(sample).len_lines());
            }
            for last in at..text.len() {
                let mut rope = Rope::from_str(sample);
                rope.remove(at..=last);
                let mut expected = text[..at].to_vec();
                expected.extend_from_slice(&text[last + 1..]);
                assert_eq!(rope.to_string(), expected.iter().collect::<String>());
            }
            if at > 0 {
                let mut rope = Rope::from_str(sample);
                rope.remove(at..=at - 1);
                assert_eq!(rope.to_string(), sample);
            }
        }
    }
}

#[test]
fn document_position_follows_the_model() {
    for sample in SAMPLES {
        let text: Vec<char> = sample.chars().collect();
        let lines = breaks_before(&text, text.len()) + 1;
        for line in 0..lines + 1 {
            for column in 0..8 {
                let mut doc = Document::new(Rope::from_str(sample));
                doc.move_to(line, column);
                let l = line.min(lines - 1);
                let start = byte_of_char(&text, line_start(&text, l));
                let len = byte_of_char(&text, line_start(&text, l + 1)) - start;
                let max_column = if l == lines - 1 { len } else { len - 1 };
                assert_eq!(doc.cursor_byte(), start + column.min(max_column));
                assert_eq!(doc.position(), (column.min(max_column), l));
            }
        }
    }
}

#[test]
fn bytes_from_reads_the_text_piece_by_piece() {
    let long: String = "héllo wörld €\n".repeat(400);
    for sample in ["", "a", "é€𝄞", long.as_str()] {
        let rope = Rope::from_str(sample);
        let mut read = Vec::new();
        let mut pieces = 0;
        loop {
            let piece = bytes_from(&rope, read.len());
            if piece.is_empty() {
                break;
            }
            read.extend_from_slice(piece);
            pieces += 1;
        }
        assert_eq!(read, sample.as_bytes());
        assert!(pieces > 1 || sample.len() < 1000);
        assert!(bytes_from(&rope, sample.len()).is_empty());
        assert!(bytes_from(&rope, sample.len() + 5).is_empty());
        assert!(bytes_from(&rope, usize::MAX).is_empty());
        for at in 0..sample.len().min(3000) {
            let piece = bytes_from(&rope, at);
            assert!(!piece.is_empty());
            assert_eq!(piece, &sample.as_bytes()[at..at + piece.len()]);
        }
    }
}

#[test]
fn clamped_slice_brings_bounds_into_the_slice() {
    let bytes = b"abcdef";
    assert_eq!(clamped_slice(bytes, 1, 4), b"bcd");
    assert_eq!(clamped_slice(bytes, 0, 6), b"abcdef");
    assert_eq!(clamped_slice(bytes, 4, 9), b"ef");
    assert_eq!(clamped_slice(bytes, 7, 9), b"");
    assert_eq!(clamped_slice(bytes, 4, 2), b"");
    assert_eq!(clamped_slice(b"", 0, 1), b"");
}
