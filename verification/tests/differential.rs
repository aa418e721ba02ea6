use shortcut::config::order::sort_by_key;
use shortcut::config::ShortcutKV;
use shortcut::fs::{read_lines, write_lines};
use shortcut::shell::common::replace_file_content;
use shortcut::text::{join, split, str_eq, str_lt, template_lines, trim};

/// A small generator of numbers, the same at every run.
struct Numbers(u64);

impl Numbers {
    fn next(&mut self, bound: usize) -> usize {
        self.0 = self.0.wrapping_mul(6364136223846793005).wrapping_add(1442695040888963407);
        ((self.0 >> 33) as usize) % bound
    }

    fn text(&mut self, alphabet: &[char], longest: usize) -> String {
        let length = self.next(longest + 1);
        (0..length).map(|_| alphabet[self.next(alphabet.len())]).collect()
    }
}

const ALPHABET: [char; 12] =
    [' ', '\t', '\n', '\r', ';', 'a', 'b', '#', '\u{e9}', '\u{a0}', '\u{3000}', '\u{1f600}'];

#[test]
fn trim_agrees_with_str_trim() {
    let mut numbers = Numbers(1);
    for _ in 0..3000 {
        let text = numbers.text(&ALPHABET, 12);
        assert_eq!(trim(&text), text.trim());
    }
}

#[test]
fn split_agrees_with_str_split() {
    let mut numbers = Numbers(2);
    for _ in 0..3000 {
        let text = numbers.text(&ALPHABET, 16);
        for separator in [';', '\n', '\u{e9}'] {
            let expected: Vec<String> = text.split(separator).map(String::from).collect();
            assert_eq!(split(&text, separator), expected);
            assert_eq!(join(&expected, &separator.to_string()), text);
        }
    }
}

#[test]
fn read_lines_agrees_with_str_lines_but_for_the_last_newline() {
    let mut numbers = Numbers(3);
    for _ in 0..3000 {
        let text = numbers.text(&['\n', '\r', 'a', ' ', '\u{e9}'], 14);
        let mut expected: Vec<String> = text.lines().map(String::from).collect();
        if text.ends_with('\n') {
            expected.push(String::new());
        }
        assert_eq!(read_lines(&text), expected);
    }
}

#[test]
fn lines_without_newlines_survive_a_text() {
    let mut numbers = Numbers(9);
    for _ in 0..3000 {
        let count = numbers.next(6);
        let lines: Vec<String> = (0..count).map(|_| numbers.text(&['a', ' ', ';', '\u{e9}'], 3)).collect();
        if lines.len() == 1 && lines[0].is_empty() {
            continue;
        }
        assert_eq!(read_lines(&write_lines(&lines)), lines);
    }
}

#[test]
fn write_lines_agrees_with_join() {
    let mut numbers = Numbers(4);
    for _ in 0..1000 {
        let count = numbers.next(6);
        let lines: Vec<String> = (0..count).map(|_| numbers.text(&ALPHABET, 5)).collect();
        assert_eq!(write_lines(&lines), lines.join("\n"));
        assert_eq!(join(&lines, ";"), lines.join(";"));
    }
}

#[test]
fn template_lines_agree_with_the_filtered_split() {
    let mut numbers = Numbers(5);
    for _ in 0..2000 {
        let text = numbers.text(&ALPHABET, 20);
        let expected: Vec<String> =
            text.split("\n").filter(|x| x.trim().len() > 0).map(|s| s.to_owned()).collect();
        assert_eq!(template_lines(&text), expected);
    }
}

#[test]
fn comparisons_agree_with_those_of_str() {
    let mut numbers = Numbers(6);
    for _ in 0..5000 {
        let a = numbers.text(&ALPHABET, 5);
        let b = numbers.text(&ALPHABET, 5);
        assert_eq!(str_lt(&a, &b), a < b);
        assert_eq!(str_eq(&a, &b), a == b);
    }
}

#[test]
fn sorting_agrees_with_a_stable_sort() {
    let mut numbers = Numbers(7);
    for _ in 0..1000 {
        let count = numbers.next(9);
        let mut shortcuts: Vec<ShortcutKV> = (0..count)
            .map(|i| ShortcutKV { key: numbers.text(&['a', 'b', '\u{e9}'], 2), value: i.to_string() })
            .collect();
        let mut expected = shortcuts.clone();
        expected.sort_by(|x, y| x.key.cmp(&y.key));
        sort_by_key(&mut shortcuts);
        assert_eq!(shortcuts, expected);
    }
}

/// The block brought up to date in the plainest way: look for the markers,
/// cut, and put together.
fn plainly_replaced(existing: &[String], block: &[String]) -> Vec<String> {
    let opening = existing.iter().position(|x| x.trim() == block[0].trim());
    if let Some(opening) = opening {
        let last = block[block.len() - 1].trim();
        let closing = existing.iter().skip(opening).position(|x| x.trim() == last);
        if let Some(closing) = closing {
            let closing = closing + opening;
            let mut result = existing[..opening].to_vec();
            result.extend_from_slice(block);
            result.extend_from_slice(&existing[closing + 1..]);
            return result;
        }
    }
    let mut result = existing.to_vec();
    result.extend_from_slice(block);
    result
}

#[test]
fn replacing_agrees_with_the_plain_way() {
    let mut numbers = Numbers(8);
    let alphabet = [' ', 'X', 'Y', 'a'];
    for _ in 0..3000 {
        let count = numbers.next(8);
        let existing: Vec<String> = (0..count).map(|_| numbers.text(&alphabet, 2)).collect();
        let count = 1 + numbers.next(4);
        let block: Vec<String> = (0..count).map(|_| numbers.text(&alphabet, 2)).collect();
        assert_eq!(
            replace_file_content(existing.clone(), &block),
            plainly_replaced(&existing, &block)
        );
    }
}
