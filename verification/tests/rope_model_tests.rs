use anycode::code::Code;

// A plain model of a text and its lines, to hold the document against.

fn is_break(c: char) -> bool {
    matches!(c, '\n' | '\u{000B}' | '\u{000C}' | '\r' | '\u{0085}' | '\u{2028}' | '\u{2029}')
}

fn break_ends_at(s: &[char], i: usize) -> bool {
    i > 0 && i <= s.len() && is_break(s[i - 1]) && !(s[i - 1] == '\r' && i < s.len() && s[i] == '\n')
}

fn line_starts(s: &[char]) -> Vec<usize> {
    let mut starts = vec![0];
    for i in 1..=s.len() {
        if break_ends_at(s, i) {
            starts.push(i);
        }
    }
    starts
}

fn line_of(starts: &[usize], offset: usize) -> usize {
    starts.iter().filter(|start| **start <= offset).count() - 1
}

fn utf16_units(s: &[char]) -> usize {
    s.iter().map(|c| c.len_utf16()).sum()
}

fn utf16_to_char(s: &[char], units: usize) -> usize {
    let mut seen = 0;
    let mut count = 0;
    for c in s {
        if seen >= units {
            break;
        }
        seen += c.len_utf16();
        count += 1;
    }
    count
}

fn line_length(s: &[char], starts: &[usize], line: usize) -> usize {
    let start = starts[line];
    if line + 1 < starts.len() {
        let end = starts[line + 1];
        let break_len = if end >= 2 && s[end - 2] == '\r' && s[end - 1] == '\n' { 2 } else { 1 };
        end - start - break_len
    } else {
        s.len() - start
    }
}

struct Lcg(u64);

impl Lcg {
    fn next(&mut self, bound: usize) -> usize {
        self.0 = self.0.wrapping_mul(6364136223846793005).wrapping_add(1442695040888963407);
        ((self.0 >> 33) as usize) % bound
    }
}

const ALPHABET: [char; 16] = [
    'a', 'b', ' ', '\n', '\r', '\n', '\r', '\u{000B}', '\u{000C}', '\u{0085}', '\u{2028}',
    '\u{2029}', '\u{00E9}', '\u{20AC}', '\u{1F600}', '\u{10FFFF}',
];

fn random_text(rng: &mut Lcg, len: usize) -> Vec<char> {
    (0..len).map(|_| ALPHABET[rng.next(ALPHABET.len())]).collect()
}

fn hold_against(code: &Code, model: &[char], rng: &mut Lcg, samples: usize) {
    let text: String = model.iter().collect();
    assert_eq!(code.content(), text);
    assert_eq!(code.text.to_string(), text);
    assert_eq!(code.len_chars(), model.len());
    assert_eq!(code.len_utf16(), utf16_units(model));
    let starts = line_starts(model);
    assert_eq!(code.len_lines(), starts.len());
    assert_eq!(code.offset_at(starts.len(), 0), Some(model.len()));
    assert_eq!(code.offset_at(starts.len() + 1, 0), None);
    for _ in 0..samples {
        let offset = rng.next(model.len() + 1);
        let line = line_of(&starts, offset);
        assert_eq!(code.position(offset), (line, offset - starts[line]), "offset {}", offset);
        assert_eq!(
            code.char_to_position(offset),
            (line, utf16_units(&model[starts[line]..offset])),
            "offset {}",
            offset
        );
        assert_eq!(code.offset_at(line, offset - starts[line]), Some(offset));
        let units = rng.next(utf16_units(model) + 3);
        assert_eq!(code.utf16_to_char_offset(units), utf16_to_char(model, units), "units {}", units);
        let row = rng.next(starts.len());
        assert_eq!(code.line_len(row), line_length(model, &starts, row), "line {}", row);
    }
}

#[test]
fn a_large_text_agrees_with_the_model() {
    let mut rng = Lcg(7);
    let model = random_text(&mut rng, 6000);
    let text: String = model.iter().collect();
    let code = Code::from_str(&text);
    hold_against(&code, &model, &mut rng, 400);
    let starts = line_starts(&model);
    for line in 0..starts.len() {
        assert_eq!(code.offset_at(line, 0), Some(starts[line]), "line {}", line);
        assert_eq!(code.line_len(line), line_length(&model, &starts, line), "line {}", line);
    }
}

#[test]
fn every_offset_of_a_text_agrees_with_the_model() {
    let mut rng = Lcg(11);
    let model = random_text(&mut rng, 1500);
    let text: String = model.iter().collect();
    let code = Code::from_str(&text);
    let starts = line_starts(&model);
    for offset in 0..=model.len() {
        let line = line_of(&starts, offset);
        assert_eq!(code.position(offset), (line, offset - starts[line]), "offset {}", offset);
        assert_eq!(
            code.char_to_position(offset).1,
            utf16_units(&model[starts[line]..offset]),
            "offset {}",
            offset
        );
    }
    for units in 0..=(utf16_units(&model) + 2) {
        assert_eq!(code.utf16_to_char_offset(units), utf16_to_char(&model, units), "units {}", units);
    }
}

#[test]
fn edits_keep_the_document_and_the_model_in_step() {
    let mut rng = Lcg(42);
    let mut model: Vec<char> = Vec::new();
    let mut code = Code::new();
    for round in 0..300 {
        if model.is_empty() || rng.next(3) != 0 {
            let at = rng.next(model.len() + 1);
            let len = if round % 50 == 0 { 3000 } else { rng.next(40) };
            let piece = random_text(&mut rng, len);
            let text: String = piece.iter().collect();
            code.insert_text2(&text, at).unwrap();
            model.splice(at..at, piece);
        } else {
            let from = rng.next(model.len() + 1);
            let to = from + rng.next((model.len() - from).min(60) + 1);
            code.remove_text2(from, to).unwrap();
            let removed: String = model.drain(from..to).collect();
            assert_eq!(code.undo_history.last().unwrap().text, removed);
        }
        hold_against(&code, &model, &mut rng, 8);
    }
}

#[test]
fn breaks_that_edits_join_or_part_are_counted_anew() {
    let mut code = Code::from_str("a\rb");
    assert_eq!(code.len_lines(), 2);
    // A line feed after the carriage return makes one break of the two.
    code.insert_text2("\n", 2).unwrap();
    assert_eq!(code.text.to_string(), "a\r\nb");
    assert_eq!(code.len_lines(), 2);
    assert_eq!(code.position(2), (0, 2));
    assert_eq!(code.position(3), (1, 0));
    // A character between them makes two breaks again.
    code.insert_text2("x", 2).unwrap();
    assert_eq!(code.len_lines(), 3);
    assert_eq!(code.position(2), (1, 0));
    assert_eq!(code.position(4), (2, 0));
    code.remove_text2(2, 3).unwrap();
    assert_eq!(code.len_lines(), 2);
    assert_eq!(code.line_len(0), 1);
    assert_eq!(code.line_len(1), 1);
}

#[test]
fn undo_and_redo_walk_through_the_history_of_many_edits() {
    let mut rng = Lcg(3);
    let mut code = Code::new();
    let mut texts = vec![String::new()];
    for _ in 0..60 {
        let len = code.len_chars();
        if len == 0 || rng.next(3) != 0 {
            let piece_len = rng.next(20);
            let piece: String = random_text(&mut rng, piece_len).iter().collect();
            code.insert_text2(&piece, rng.next(len + 1)).unwrap();
        } else {
            let from = rng.next(len + 1);
            let to = from + rng.next(len - from + 1);
            code.remove_text2(from, to).unwrap();
        }
        texts.push(code.content());
    }
    for expected in texts.iter().rev().skip(1) {
        assert!(code.undo().is_some());
        assert_eq!(&code.content(), expected);
    }
    assert!(code.undo().is_none());
    for expected in texts.iter().skip(1) {
        assert!(code.redo().is_some());
        assert_eq!(&code.content(), expected);
    }
    assert!(code.redo().is_none());
}
