//! Text primitives shared by the store and the shell adapters.

use vstd::prelude::*;
use vstd::string::{StrSliceExecFns, StringExecFns};
use vstd::utf8::{decode_utf8, encode_utf8, encode_utf8_decode_utf8};

verus! {

/// A result with its value and its message as plain text.
pub open spec fn viewed<T: View>(r: Result<T, String>) -> Result<T::V, Seq<char>> {
    match r {
        Ok(value) => Ok(value@),
        Err(message) => Err(message@),
    }
}

/// Whether `c` is white space.
pub uninterp spec fn is_white_space(c: char) -> bool;

/// `char::is_whitespace`: whether Unicode counts `c` as white space
/// (White_Space). The answer depends on `c` alone and is only named here, as
/// `is_white_space`.
#[verifier::external_body]
pub(crate) fn is_whitespace(c: char) -> (r: bool)
    ensures
        r == is_white_space(c),
{
    c.is_whitespace()
}

/// `text` without the white space that it begins with.
pub open spec fn trimmed_start(text: Seq<char>) -> Seq<char>
    decreases text.len(),
{
    if text.len() > 0 && is_white_space(text.first()) {
        trimmed_start(text.drop_first())
    } else {
        text
    }
}

/// `text` without the white space that it ends with.
pub open spec fn trimmed_end(text: Seq<char>) -> Seq<char>
    decreases text.len(),
{
    if text.len() > 0 && is_white_space(text.last()) {
        trimmed_end(text.drop_last())
    } else {
        text
    }
}

/// A line with the white space at both of its ends taken away.
pub open spec fn trimmed(line: Seq<char>) -> Seq<char> {
    trimmed_end(trimmed_start(line))
}

/// `text` begins with `start` characters of white space and no more.
pub proof fn lemma_trimmed_start(text: Seq<char>, start: int)
    requires
        0 <= start <= text.len(),
        forall|k: int| 0 <= k < start ==> is_white_space(#[trigger] text[k]),
        start < text.len() ==> !is_white_space(text[start]),
    ensures
        trimmed_start(text) == text.subrange(start, text.len() as int),
    decreases start,
{
    if start == 0 {
        assert(text.subrange(0, text.len() as int) =~= text);
    } else {
        let rest = text.drop_first();
        assert forall|k: int| 0 <= k < start - 1 implies is_white_space(#[trigger] rest[k]) by {
            assert(rest[k] == text[k + 1]);
        }
        lemma_trimmed_start(rest, start - 1);
        assert(rest.subrange(start - 1, rest.len() as int) =~= text.subrange(
            start,
            text.len() as int,
        ));
    }
}

/// `text` ends with white space from `end` on and no earlier.
pub proof fn lemma_trimmed_end(text: Seq<char>, end: int)
    requires
        0 <= end <= text.len(),
        forall|k: int| end <= k < text.len() ==> is_white_space(#[trigger] text[k]),
        end > 0 ==> !is_white_space(text[end - 1]),
    ensures
        trimmed_end(text) == text.subrange(0, end),
    decreases text.len() - end,
{
    if end == text.len() {
        assert(text.subrange(0, end) =~= text);
    } else {
        let rest = text.drop_last();
        assert(is_white_space(text[text.len() - 1]));
        lemma_trimmed_end(rest, end);
        assert(rest.subrange(0, end) =~= text.subrange(0, end));
    }
}

/// The slice of `line` between the white space at its ends.
pub fn trim<'a>(line: &'a str) -> (r: &'a str)
    ensures
        r@ == trimmed(line@),
{
    let n = line.unicode_len();
    let mut start: usize = 0;
    let mut end: usize = 0;
    let mut i: usize = 0;
    for c in it: line.chars()
        invariant
            i == it.index(),
            it.seq() == line@,
            n == line@.len(),
            i <= n,
            end <= i,
            start <= i,
            end > 0 ==> start < end,
            forall|k: int| 0 <= k < start ==> is_white_space(#[trigger] line@[k]),
            forall|k: int| end <= k < i ==> is_white_space(#[trigger] line@[k]),
            end == 0 ==> start == i,
            end > 0 ==> !is_white_space(line@[start as int]) && !is_white_space(line@[end - 1]),
    {
        if !is_whitespace(c) {
            if end == 0 {
                start = i;
            }
            end = i + 1;
        } else if end == 0 {
            start = i + 1;
        }
        i += 1;
    }
    proof {
        let front = line@.subrange(start as int, n as int);
        let kept = if end == 0 {
            0
        } else {
            end - start
        };
        lemma_trimmed_start(line@, start as int);
        assert forall|k: int| kept <= k < front.len() implies is_white_space(
            #[trigger] front[k],
        ) by {
            assert(front[k] == line@[k + start]);
        }
        if kept > 0 {
            assert(front[kept - 1] == line@[end - 1]);
        }
        lemma_trimmed_end(front, kept);
        assert(front.subrange(0, kept) =~= line@.subrange(start as int, start + kept));
    }
    if end == 0 {
        line.substring_char(start, start)
    } else {
        line.substring_char(start, end)
    }
}

/// Two texts are equal exactly when their UTF-8 encodings are.
pub proof fn lemma_encoding_is_injective(a: Seq<char>, b: Seq<char>)
    ensures
        (encode_utf8(a) == encode_utf8(b)) <==> (a == b),
{
    encode_utf8_decode_utf8(a);
    encode_utf8_decode_utf8(b);
    if encode_utf8(a) == encode_utf8(b) {
        assert(decode_utf8(encode_utf8(a)) == decode_utf8(encode_utf8(b)));
    }
}

/// Whether two string slices hold the same text.
pub fn str_eq(a: &str, b: &str) -> (r: bool)
    ensures
        r == (a@ == b@),
{
    let x = a.as_bytes();
    let y = b.as_bytes();
    proof {
        lemma_encoding_is_injective(a@, b@);
    }
    if x.len() != y.len() {
        return false;
    }
    let mut i: usize = 0;
    while i < x.len()
        invariant
            i <= x@.len(),
            x@.len() == y@.len(),
            x@ == encode_utf8(a@),
            y@ == encode_utf8(b@),
            (encode_utf8(a@) == encode_utf8(b@)) <==> (a@ == b@),
            forall|k: int| 0 <= k < i ==> x@[k] == y@[k],
        decreases x@.len() - i,
    {
        if x[i] != y[i] {
            return false;
        }
        i += 1;
    }
    assert(x@ =~= y@);
    true
}

/// The parts of `text` between the occurrences of `separator`: read from the
/// left, every separator ends one part and begins the next. A text without a
/// separator is one part, the empty text too.
pub open spec fn split_spec(text: Seq<char>, separator: char) -> Seq<Seq<char>>
    decreases text.len(),
{
    if text.len() == 0 {
        seq![Seq::<char>::empty()]
    } else {
        let parts = split_spec(text.drop_last(), separator);
        if text.last() == separator {
            parts.push(Seq::<char>::empty())
        } else {
            parts.update(parts.len() - 1, parts.last().push(text.last()))
        }
    }
}

/// `parts` in one text, with `separator` between each two of them.
pub open spec fn joined(parts: Seq<Seq<char>>, separator: Seq<char>) -> Seq<char>
    decreases parts.len(),
{
    if parts.len() == 0 {
        Seq::<char>::empty()
    } else if parts.len() == 1 {
        parts[0]
    } else {
        joined(parts.drop_last(), separator) + separator + parts.last()
    }
}

/// Splitting yields at least one part.
pub proof fn lemma_split_is_not_empty(text: Seq<char>, separator: char)
    ensures
        split_spec(text, separator).len() > 0,
    decreases text.len(),
{
    if text.len() > 0 {
        lemma_split_is_not_empty(text.drop_last(), separator);
    }
}

/// A text without the separator is one part.
pub proof fn lemma_split_without_separator(text: Seq<char>, separator: char)
    requires
        !text.contains(separator),
    ensures
        split_spec(text, separator) == seq![text],
    decreases text.len(),
{
    if text.len() == 0 {
        assert(text =~= Seq::<char>::empty());
    } else {
        let front = text.drop_last();
        assert(!front.contains(separator)) by {
            if front.contains(separator) {
                let i = choose|i: int| 0 <= i < front.len() && front[i] == separator;
                assert(text[i] == separator);
            }
        }
        assert(text.last() != separator) by {
            assert(text[text.len() - 1] == text.last());
        }
        lemma_split_without_separator(front, separator);
        assert(front.push(text.last()) =~= text);
        assert(seq![front].update(0, front.push(text.last())) =~= seq![text]);
    }
}

/// A separator and a text without one add one part.
pub proof fn lemma_split_one_more(head: Seq<char>, tail: Seq<char>, separator: char)
    requires
        !tail.contains(separator),
    ensures
        split_spec(head + seq![separator] + tail, separator) == split_spec(head, separator).push(
            tail,
        ),
    decreases tail.len(),
{
    let text = head + seq![separator] + tail;
    if tail.len() == 0 {
        assert(text.drop_last() =~= head);
        assert(tail =~= Seq::<char>::empty());
    } else {
        let front = tail.drop_last();
        assert(!front.contains(separator)) by {
            if front.contains(separator) {
                let i = choose|i: int| 0 <= i < front.len() && front[i] == separator;
                assert(tail[i] == separator);
            }
        }
        assert(tail.last() != separator) by {
            assert(tail[tail.len() - 1] == tail.last());
        }
        lemma_split_one_more(head, front, separator);
        assert(text.drop_last() =~= head + seq![separator] + front);
        assert(text.last() == tail.last());
        assert(front.push(tail.last()) =~= tail);
        let parts = split_spec(head, separator).push(front);
        assert(parts.update(parts.len() - 1, parts.last().push(tail.last())) =~= split_spec(
            head,
            separator,
        ).push(tail));
    }
}

/// Splitting what was joined gives the parts back, where there is a part and
/// no part holds the separator.
pub proof fn lemma_split_joined(parts: Seq<Seq<char>>, separator: char)
    requires
        parts.len() > 0,
        forall|i: int| 0 <= i < parts.len() ==> !(#[trigger] parts[i]).contains(separator),
    ensures
        split_spec(joined(parts, seq![separator]), separator) == parts,
    decreases parts.len(),
{
    if parts.len() == 1 {
        lemma_split_without_separator(parts[0], separator);
        assert(seq![parts[0]] =~= parts);
    } else {
        let front = parts.drop_last();
        assert forall|i: int| 0 <= i < front.len() implies !(#[trigger] front[i]).contains(
            separator,
        ) by {
            assert(front[i] == parts[i]);
        }
        lemma_split_joined(front, separator);
        assert(parts.last() == parts[parts.len() - 1]);
        lemma_split_one_more(joined(front, seq![separator]), parts.last(), separator);
        assert(front.push(parts.last()) =~= parts);
    }
}

/// Joining what was split gives the text back.
pub proof fn lemma_joined_split(text: Seq<char>, separator: char)
    ensures
        joined(split_spec(text, separator), seq![separator]) == text,
    decreases text.len(),
{
    if text.len() == 0 {
        assert(text =~= Seq::<char>::empty());
    } else {
        let front = text.drop_last();
        let before = split_spec(front, separator);
        let parts = split_spec(text, separator);
        lemma_joined_split(front, separator);
        lemma_split_is_not_empty(front, separator);
        assert(front.push(text.last()) =~= text);
        if text.last() == separator {
            assert(parts.drop_last() =~= before);
            assert(joined(parts, seq![separator]) =~= front.push(separator));
        } else if before.len() == 1 {
            assert(joined(parts, seq![separator]) =~= front.push(text.last()));
        } else {
            assert(parts.drop_last() =~= before.drop_last());
            assert(joined(parts, seq![separator]) =~= joined(before, seq![separator]).push(
                text.last(),
            ));
        }
    }
}

/// Cuts `text` at every `separator`.
pub fn split(text: &str, separator: char) -> (parts: Vec<String>)
    ensures
        parts.deep_view() == split_spec(text@, separator),
{
    let n = text.unicode_len();
    let mut parts: Vec<String> = Vec::new();
    let mut start: usize = 0;
    let mut i: usize = 0;
    assert(text@.subrange(0, 0) =~= Seq::<char>::empty());
    assert(parts.deep_view().push(text@.subrange(0, 0)) =~= split_spec(
        text@.subrange(0, 0),
        separator,
    ));
    for c in it: text.chars()
        invariant
            i == it.index(),
            it.seq() == text@,
            n == text@.len(),
            start <= i <= n,
            parts.deep_view().push(text@.subrange(start as int, i as int)) == split_spec(
                text@.subrange(0, i as int),
                separator,
            ),
    {
        let ghost read = text@.subrange(0, i as int);
        let ghost next = text@.subrange(0, i + 1);
        assert(next.drop_last() =~= read);
        assert(next.last() == c);
        if c == separator {
            let ghost before = parts.deep_view();
            let part = text.substring_char(start, i);
            parts.push(part.to_owned());
            assert(parts.deep_view() =~= before.push(text@.subrange(start as int, i as int)));
            start = i + 1;
            assert(text@.subrange(start as int, i + 1) =~= Seq::<char>::empty());
        } else {
            assert(text@.subrange(start as int, i + 1) =~= text@.subrange(
                start as int,
                i as int,
            ).push(c));
            assert(parts.deep_view().push(text@.subrange(start as int, i + 1)) =~= split_spec(
                read,
                separator,
            ).update(
                split_spec(read, separator).len() - 1,
                split_spec(read, separator).last().push(c),
            ));
        }
        i += 1;
    }
    let ghost before = parts.deep_view();
    let part = text.substring_char(start, i);
    parts.push(part.to_owned());
    assert(parts.deep_view() =~= before.push(text@.subrange(start as int, i as int)));
    assert(text@.subrange(0, i as int) =~= text@);
    parts
}

/// Puts `parts` together, with `separator` between each two of them.
pub fn join(parts: &Vec<String>, separator: &str) -> (text: String)
    ensures
        text@ == joined(parts.deep_view(), separator@),
{
    let mut text = String::new();
    let mut i: usize = 0;
    assert(parts.deep_view().subrange(0, 0) =~= Seq::<Seq<char>>::empty());
    while i < parts.len()
        invariant
            i <= parts.len(),
            text@ == joined(parts.deep_view().subrange(0, i as int), separator@),
        decreases parts.len() - i,
    {
        let ghost done = parts.deep_view().subrange(0, i as int);
        let ghost next = parts.deep_view().subrange(0, i + 1);
        assert(next.drop_last() =~= done);
        assert(next.last() == parts[i as int]@);
        if i > 0 {
            text.append(separator);
        }
        text.append(parts[i].as_str());
        assert(text@ =~= joined(next, separator@));
        i += 1;
    }
    assert(parts.deep_view().subrange(0, parts.len() as int) =~= parts.deep_view());
    text
}

/// The lines among `lines` that hold more than white space.
pub open spec fn non_blank(lines: Seq<Seq<char>>) -> Seq<Seq<char>>
    decreases lines.len(),
{
    if lines.len() == 0 {
        lines
    } else if trimmed(lines.last()).len() > 0 {
        non_blank(lines.drop_last()).push(lines.last())
    } else {
        non_blank(lines.drop_last())
    }
}

/// The lines of a script that hold more than white space.
pub open spec fn script_lines(script: Seq<char>) -> Seq<Seq<char>> {
    non_blank(split_spec(script, '\n'))
}

/// Cuts `script` into its lines and leaves out those that hold only white
/// space.
pub fn template_lines(script: &str) -> (r: Vec<String>)
    ensures
        r.deep_view() == script_lines(script@),
{
    let all = split(script, '\n');
    let ghost lines = all.deep_view();
    let mut kept: Vec<String> = Vec::new();
    let mut i: usize = 0;
    assert(lines.subrange(0, 0) =~= Seq::<Seq<char>>::empty());
    assert(kept.deep_view() =~= non_blank(lines.subrange(0, 0)));
    while i < all.len()
        invariant
            i <= all.len(),
            lines == all.deep_view(),
            kept.deep_view() == non_blank(lines.subrange(0, i as int)),
        decreases all.len() - i,
    {
        let ghost before = kept.deep_view();
        assert(lines.subrange(0, i + 1).drop_last() =~= lines.subrange(0, i as int));
        assert(lines.subrange(0, i + 1).last() == all[i as int]@);
        if !trim(all[i].as_str()).is_empty() {
            kept.push(all[i].clone());
            assert(kept.deep_view() =~= before.push(all[i as int]@));
        }
        i += 1;
    }
    assert(lines.subrange(0, all.len() as int) =~= lines);
    kept
}

/// The character for one decimal digit.
pub open spec fn digit(d: int) -> char
    recommends
        0 <= d < 10,
{
    if d == 0 {
        '0'
    } else if d == 1 {
        '1'
    } else if d == 2 {
        '2'
    } else if d == 3 {
        '3'
    } else if d == 4 {
        '4'
    } else if d == 5 {
        '5'
    } else if d == 6 {
        '6'
    } else if d == 7 {
        '7'
    } else if d == 8 {
        '8'
    } else {
        '9'
    }
}

/// The number `n` in decimal digits, without leading zeros.
pub open spec fn decimal(n: nat) -> Seq<char>
    decreases n,
{
    if n < 10 {
        seq![digit(n as int)]
    } else {
        decimal(n / 10).push(digit((n % 10) as int))
    }
}

/// One decimal digit as text.
fn digit_text(d: usize) -> (r: &'static str)
    requires
        d < 10,
    ensures
        r@ == seq![digit(d as int)],
{
    proof {
        reveal_strlit("0");
        reveal_strlit("1");
        reveal_strlit("2");
        reveal_strlit("3");
        reveal_strlit("4");
        reveal_strlit("5");
        reveal_strlit("6");
        reveal_strlit("7");
        reveal_strlit("8");
        reveal_strlit("9");
    }
    let r = if d == 0 {
        "0"
    } else if d == 1 {
        "1"
    } else if d == 2 {
        "2"
    } else if d == 3 {
        "3"
    } else if d == 4 {
        "4"
    } else if d == 5 {
        "5"
    } else if d == 6 {
        "6"
    } else if d == 7 {
        "7"
    } else if d == 8 {
        "8"
    } else {
        "9"
    };
    assert(r@ =~= seq![digit(d as int)]);
    r
}

/// Writes `n` in decimal digits.
pub fn number(n: usize) -> (r: String)
    ensures
        r@ == decimal(n as nat),
{
    let mut text = digit_text(n % 10).to_owned();
    let mut rest = n / 10;
    while rest > 0
        invariant
            decimal(n as nat) == if rest > 0 {
                decimal(rest as nat) + text@
            } else {
                text@
            },
        decreases rest,
    {
        let ghost before = text@;
        text = String::from_str(digit_text(rest % 10)).concat(text.as_str());
        assert(text@ =~= seq![digit((rest % 10) as int)] + before);
        assert(decimal(rest as nat) + before =~= if rest / 10 > 0 {
            decimal((rest / 10) as nat) + text@
        } else {
            text@
        });
        rest = rest / 10;
    }
    text
}

/// Whether the bytes `a` come before the bytes `b` in dictionary order, both
/// read from index `from` on: at the first index where they differ `a` holds
/// the smaller byte, or `a` ends there and `b` does not.
pub open spec fn bytes_lt_from(a: Seq<u8>, b: Seq<u8>, from: int) -> bool
    decreases b.len() - from,
{
    if from >= b.len() {
        false
    } else if from >= a.len() {
        true
    } else if a[from] != b[from] {
        a[from] < b[from]
    } else {
        bytes_lt_from(a, b, from + 1)
    }
}

/// The order of texts: that of their UTF-8 encodings, byte by byte. This is
/// the order in which `str` and `String` compare.
pub open spec fn text_lt(a: Seq<char>, b: Seq<char>) -> bool {
    bytes_lt_from(encode_utf8(a), encode_utf8(b), 0)
}

/// No byte string comes before itself.
pub proof fn lemma_bytes_lt_irreflexive(a: Seq<u8>, from: int)
    requires
        0 <= from,
    ensures
        !bytes_lt_from(a, a, from),
    decreases a.len() - from,
{
    if from < a.len() {
        lemma_bytes_lt_irreflexive(a, from + 1);
    }
}

/// Of two byte strings at most one comes before the other.
pub proof fn lemma_bytes_lt_asymmetric(a: Seq<u8>, b: Seq<u8>, from: int)
    requires
        0 <= from,
        bytes_lt_from(a, b, from),
    ensures
        !bytes_lt_from(b, a, from),
    decreases b.len() - from,
{
    if from < a.len() && from < b.len() && a[from] == b[from] {
        lemma_bytes_lt_asymmetric(a, b, from + 1);
    }
}

/// Of two byte strings that agree before `from` and are not equal, one comes
/// before the other.
pub proof fn lemma_bytes_lt_total(a: Seq<u8>, b: Seq<u8>, from: int)
    requires
        0 <= from,
        from <= a.len(),
        from <= b.len(),
        a.subrange(0, from) == b.subrange(0, from),
        a != b,
    ensures
        bytes_lt_from(a, b, from) || bytes_lt_from(b, a, from),
    decreases a.len() - from,
{
    if from < a.len() && from < b.len() && a[from] == b[from] {
        assert(a.subrange(0, from + 1) =~= a.subrange(0, from).push(a[from]));
        assert(b.subrange(0, from + 1) =~= b.subrange(0, from).push(b[from]));
        lemma_bytes_lt_total(a, b, from + 1);
    } else if from == a.len() && from == b.len() {
        assert(a =~= a.subrange(0, from));
        assert(b =~= b.subrange(0, from));
    }
}

/// Where `a` comes before `c`, any `b` has `a` before it or comes before `c`.
pub proof fn lemma_bytes_lt_between(a: Seq<u8>, b: Seq<u8>, c: Seq<u8>, from: int)
    requires
        0 <= from,
        bytes_lt_from(a, c, from),
    ensures
        bytes_lt_from(a, b, from) || bytes_lt_from(b, c, from),
    decreases c.len() - from,
{
    if from < a.len() && from < b.len() && from < c.len() && a[from] == b[from] && b[from]
        == c[from] {
        lemma_bytes_lt_between(a, b, c, from + 1);
    }
}

/// The order of texts is strict.
pub proof fn lemma_text_lt_irreflexive(a: Seq<char>)
    ensures
        !text_lt(a, a),
{
    lemma_bytes_lt_irreflexive(encode_utf8(a), 0);
}

/// Of two texts at most one comes before the other.
pub proof fn lemma_text_lt_asymmetric(a: Seq<char>, b: Seq<char>)
    requires
        text_lt(a, b),
    ensures
        !text_lt(b, a),
{
    lemma_bytes_lt_asymmetric(encode_utf8(a), encode_utf8(b), 0);
}

/// The order of texts is total: two different texts are ordered one way or the
/// other.
pub proof fn lemma_text_lt_total(a: Seq<char>, b: Seq<char>)
    requires
        a != b,
    ensures
        text_lt(a, b) || text_lt(b, a),
{
    lemma_encoding_is_injective(a, b);
    assert(encode_utf8(a).subrange(0, 0) =~= encode_utf8(b).subrange(0, 0));
    lemma_bytes_lt_total(encode_utf8(a), encode_utf8(b), 0);
}

/// Where `a` comes before `c`, any `b` has `a` before it or comes before `c`.
/// With this the order is transitive, and so is "does not come after".
pub proof fn lemma_text_lt_between(a: Seq<char>, b: Seq<char>, c: Seq<char>)
    requires
        text_lt(a, c),
    ensures
        text_lt(a, b) || text_lt(b, c),
{
    lemma_bytes_lt_between(encode_utf8(a), encode_utf8(b), encode_utf8(c), 0);
}

/// Whether `a` comes before `b`.
pub fn str_lt(a: &str, b: &str) -> (r: bool)
    ensures
        r == text_lt(a@, b@),
{
    let x = a.as_bytes();
    let y = b.as_bytes();
    let mut i: usize = 0;
    while i < x.len() && i < y.len()
        invariant
            i <= x@.len(),
            i <= y@.len(),
            x@ == encode_utf8(a@),
            y@ == encode_utf8(b@),
            text_lt(a@, b@) == bytes_lt_from(x@, y@, i as int),
        decreases x@.len() - i,
    {
        if x[i] != y[i] {
            return x[i] < y[i];
        }
        i += 1;
    }
    i < y.len()
}

} // verus!
