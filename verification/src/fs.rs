//! A file's text and its lines. Reading and writing the file itself is the
//! caller's part.

use crate::text::{
    join, joined, lemma_joined_split, lemma_split_is_not_empty, lemma_split_joined, split,
    split_spec,
};
use vstd::prelude::*;
use vstd::string::StrSliceExecFns;

verus! {

/// `line` without the carriage return at its end, if it has one.
pub open spec fn without_carriage_return(line: Seq<char>) -> Seq<char> {
    if line.len() > 0 && line.last() == '\r' {
        line.drop_last()
    } else {
        line
    }
}

/// A text that can stand on a line of its own: it holds no newline and does
/// not end in a carriage return.
pub open spec fn is_line(text: Seq<char>) -> bool {
    !text.contains('\n') && without_carriage_return(text) == text
}

/// The lines of a text. Newlines separate the lines, so a text that ends in a
/// newline has an empty last line; the empty text has no line. A carriage
/// return just before a newline belongs to the line's end too.
pub open spec fn text_lines(content: Seq<char>) -> Seq<Seq<char>> {
    if content.len() == 0 {
        Seq::empty()
    } else {
        let parts = split_spec(content, '\n');
        Seq::new(
            parts.len(),
            |i: int|
                if i + 1 < parts.len() {
                    without_carriage_return(parts[i])
                } else {
                    parts[i]
                },
        )
    }
}

/// The text that holds `lines`: a newline between each two of them, none at
/// the end.
pub open spec fn lines_text(lines: Seq<Seq<char>>) -> Seq<char> {
    joined(lines, "\n"@)
}

/// Lines that a text can hold and give back: each can stand on a line of its
/// own, and they are not one empty line alone, whose text is that of no line.
pub open spec fn can_be_read_back(lines: Seq<Seq<char>>) -> bool {
    &&& forall|i: int| 0 <= i < lines.len() ==> is_line(#[trigger] lines[i])
    &&& lines.len() == 1 ==> lines[0].len() > 0
}

/// The lines of a file's text: what stands between its newlines, without the
/// carriage returns before them. This is what `str::lines` gives, and an empty
/// last line more where the text ends in a newline.
pub fn read_lines(content: &str) -> (lines: Vec<String>)
    ensures
        lines.deep_view() == text_lines(content@),
{
    let mut lines: Vec<String> = Vec::new();
    if content.is_empty() {
        assert(lines.deep_view() =~= text_lines(content@));
        return lines;
    }
    let parts = split(content, '\n');
    let ghost wanted = text_lines(content@);
    let ghost cut = parts.deep_view();
    let mut i: usize = 0;
    assert(lines.deep_view() =~= wanted.subrange(0, 0));
    while i < parts.len()
        invariant
            i <= parts.len(),
            content@.len() > 0,
            cut == parts.deep_view(),
            cut == split_spec(content@, '\n'),
            wanted == text_lines(content@),
            lines.deep_view() == wanted.subrange(0, i as int),
        decreases parts.len() - i,
    {
        let ghost before = lines.deep_view();
        let part = parts[i].as_str();
        assert(cut[i as int] == part@);
        let n = part.unicode_len();
        let line = if i + 1 < parts.len() && n > 0 && part.get_char(n - 1) == '\r' {
            part.substring_char(0, n - 1)
        } else {
            part
        };
        assert(line@ =~= wanted[i as int]);
        lines.push(line.to_owned());
        assert(lines.deep_view() =~= before.push(wanted[i as int]));
        assert(wanted.subrange(0, i + 1) =~= wanted.subrange(0, i as int).push(wanted[i as int]));
        i += 1;
    }
    assert(wanted.subrange(0, parts.len() as int) =~= wanted);
    lines
}

/// The text of a file that holds `lines`.
pub fn write_lines(lines: &Vec<String>) -> (content: String)
    ensures
        content@ == lines_text(lines.deep_view()),
{
    join(lines, "\n")
}

/// A text that is joined from `lines` is not empty, where they are more than
/// one or the one is not empty.
proof fn lemma_lines_text_is_not_empty(lines: Seq<Seq<char>>)
    requires
        lines.len() > 1 || (lines.len() == 1 && lines[0].len() > 0),
    ensures
        lines_text(lines).len() > 0,
{
    reveal_strlit("\n");
}

/// Lines that were written are read back as they were, where a text can hold
/// them. The last line may be empty.
pub proof fn lemma_read_written_lines(lines: Seq<Seq<char>>)
    requires
        can_be_read_back(lines),
    ensures
        text_lines(lines_text(lines)) == lines,
{
    reveal_strlit("\n");
    assert("\n"@ =~= seq!['\n']);
    if lines.len() == 0 {
        assert(lines_text(lines) =~= Seq::<char>::empty());
        assert(text_lines(lines_text(lines)) =~= lines);
    } else {
        lemma_lines_text_is_not_empty(lines);
        lemma_split_joined(lines, '\n');
        assert(text_lines(lines_text(lines)) =~= lines);
    }
}

/// `text` holds a carriage return just before a newline.
pub open spec fn has_carriage_return_at_a_line_end(text: Seq<char>) -> bool {
    exists|i: int| 0 <= i < text.len() - 1 && #[trigger] text[i] == '\r' && text[i + 1] == '\n'
}

/// A part that a newline ends does not end in a carriage return, unless the
/// text holds one just before a newline.
proof fn lemma_parts_end_as_the_text_does(text: Seq<char>)
    requires
        !has_carriage_return_at_a_line_end(text),
    ensures
        forall|i: int|
            0 <= i < split_spec(text, '\n').len() - 1 ==> without_carriage_return(
                #[trigger] split_spec(text, '\n')[i],
            ) == split_spec(text, '\n')[i],
        text.len() > 0 && split_spec(text, '\n').last().len() > 0 ==> split_spec(
            text,
            '\n',
        ).last().last() == text.last(),
    decreases text.len(),
{
    if text.len() > 0 {
        let front = text.drop_last();
        let before = split_spec(front, '\n');
        let parts = split_spec(text, '\n');
        lemma_split_is_not_empty(front, '\n');
        assert(!has_carriage_return_at_a_line_end(front)) by {
            if has_carriage_return_at_a_line_end(front) {
                let i = choose|i: int|
                    0 <= i < front.len() - 1 && #[trigger] front[i] == '\r' && front[i + 1] == '\n';
                assert(text[i] == '\r' && text[i + 1] == '\n');
            }
        }
        lemma_parts_end_as_the_text_does(front);
        assert forall|i: int| 0 <= i < parts.len() - 1 implies without_carriage_return(
            #[trigger] parts[i],
        ) == parts[i] by {
            assert(parts[i] == before[i]);
            if i == before.len() - 1 && before[i].len() > 0 && before[i].last() == '\r' {
                // The text would end in a carriage return and a newline.
                assert(text.last() == '\n');
                assert(front.last() == '\r');
                assert(text[text.len() - 2] == '\r' && text[text.len() - 2 + 1] == '\n');
            }
        }
    }
}

/// What was read is written as it was: reading a text and writing its lines
/// gives the text again, where it holds no carriage return just before a
/// newline.
pub proof fn lemma_written_as_read(text: Seq<char>)
    requires
        !has_carriage_return_at_a_line_end(text),
    ensures
        lines_text(text_lines(text)) == text,
{
    reveal_strlit("\n");
    assert("\n"@ =~= seq!['\n']);
    if text.len() == 0 {
        assert(lines_text(text_lines(text)) =~= text);
    } else {
        lemma_parts_end_as_the_text_does(text);
        lemma_joined_split(text, '\n');
        assert(text_lines(text) =~= split_spec(text, '\n'));
    }
}

} // verus!
