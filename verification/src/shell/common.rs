//! Keeping one generated block of lines inside a profile that the user also edits.
//!
//! A block is recognised by its first and last line. Lines are compared with the
//! white space at their ends taken away, so that a block whose markers were
//! re-indented is still found; what is copied is copied unchanged.

use crate::config::{Config, ConfigView};
use crate::shell::adapter::{ProfileLocation, ProfileLocationView};
use crate::sequence::{first_index, lemma_first_index, lemma_first_index_is};
use crate::text::{str_eq, trim, trimmed};
use vstd::prelude::*;
use vstd::string::StringExecFns;

verus! {

/// Whether `line` is the marker `marker`, white space at the ends aside.
pub open spec fn is_marker(line: Seq<char>, marker: Seq<char>) -> bool {
    trimmed(line) == trimmed(marker)
}

/// The index of the first line at or after `from` that is the marker, or
/// `lines.len()` where there is none.
pub open spec fn find_marker(lines: Seq<Seq<char>>, marker: Seq<char>, from: int) -> int {
    first_index(lines, |line: Seq<char>| is_marker(line, marker), from)
}

/// Where the block stands in `existing`: the index of the first line that is the
/// block's opening marker, and of the first line from there on that is its
/// closing marker. `None` where either is missing.
pub open spec fn block_span(existing: Seq<Seq<char>>, block: Seq<Seq<char>>) -> Option<(int, int)>
    recommends
        block.len() > 0,
{
    let opening = find_marker(existing, block.first(), 0);
    let closing = find_marker(existing, block.last(), opening);
    if closing < existing.len() {
        Some((opening, closing))
    } else {
        None
    }
}

/// `existing` with the block brought up to date: put in the place of the old
/// block where there is one, added at the end where there is none.
pub open spec fn replaced(existing: Seq<Seq<char>>, block: Seq<Seq<char>>) -> Seq<Seq<char>>
    recommends
        block.len() > 0,
{
    match block_span(existing, block) {
        Some((opening, closing)) => existing.subrange(0, opening) + block + existing.subrange(
            closing + 1,
            existing.len() as int,
        ),
        None => existing + block,
    }
}

/// The lines a profile gets: the block alone where there is no file yet.
pub open spec fn synchronized(existing: Option<Seq<Seq<char>>>, block: Seq<Seq<char>>) -> Seq<
    Seq<char>,
>
    recommends
        existing is Some ==> block.len() > 0,
{
    match existing {
        Some(lines) => replaced(lines, block),
        None => block,
    }
}

/// `find_marker` finds the first match: nothing before it matches, and it
/// matches unless it is the length.
pub proof fn lemma_find_marker(lines: Seq<Seq<char>>, marker: Seq<char>, from: int)
    requires
        0 <= from <= lines.len(),
    ensures
        from <= find_marker(lines, marker, from) <= lines.len(),
        forall|k: int|
            from <= k < find_marker(lines, marker, from) ==> !is_marker(#[trigger] lines[k], marker),
        find_marker(lines, marker, from) < lines.len() ==> is_marker(
            lines[find_marker(lines, marker, from)],
            marker,
        ),
{
    lemma_first_index(lines, |line: Seq<char>| is_marker(line, marker), from);
}

/// The first match is the only index that matches with nothing matching between
/// `from` and it.
pub proof fn lemma_find_marker_is(lines: Seq<Seq<char>>, marker: Seq<char>, from: int, at: int)
    requires
        0 <= from <= at <= lines.len(),
        forall|k: int| from <= k < at ==> !is_marker(#[trigger] lines[k], marker),
        at < lines.len() ==> is_marker(lines[at], marker),
    ensures
        find_marker(lines, marker, from) == at,
{
    lemma_first_index_is(lines, |line: Seq<char>| is_marker(line, marker), from, at);
}

/// The lines around the block survive: those before the opening marker and
/// those after the closing marker stand in the result, in their order and
/// unchanged, with the new block between them. Where there was no block to
/// replace, every line survives and the block follows them.
pub proof fn lemma_replaced_keeps_surroundings(existing: Seq<Seq<char>>, block: Seq<Seq<char>>)
    requires
        block.len() > 0,
    ensures
        match block_span(existing, block) {
            Some((opening, closing)) => {
                let r = replaced(existing, block);
                &&& 0 <= opening <= closing < existing.len()
                &&& r.len() == opening + block.len() + (existing.len() - closing - 1)
                &&& r.subrange(0, opening) == existing.subrange(0, opening)
                &&& r.subrange(opening, opening + block.len()) == block
                &&& r.subrange(opening + block.len(), r.len() as int) == existing.subrange(
                    closing + 1,
                    existing.len() as int,
                )
            },
            None => {
                let r = replaced(existing, block);
                &&& r.len() == existing.len() + block.len()
                &&& r.subrange(0, existing.len() as int) == existing
                &&& r.subrange(existing.len() as int, r.len() as int) == block
            },
        },
{
    lemma_find_marker(existing, block.first(), 0);
    let opening = find_marker(existing, block.first(), 0);
    lemma_find_marker(existing, block.last(), opening);
    let r = replaced(existing, block);
    match block_span(existing, block) {
        Some((opening, closing)) => {
            assert(r.subrange(0, opening) =~= existing.subrange(0, opening));
            assert(r.subrange(opening, opening + block.len()) =~= block);
            assert(r.subrange(opening + block.len(), r.len() as int) =~= existing.subrange(
                closing + 1,
                existing.len() as int,
            ));
        },
        None => {
            assert(r.subrange(0, existing.len() as int) =~= existing);
            assert(r.subrange(existing.len() as int, r.len() as int) =~= block);
        },
    }
}

/// A block that stands in a profile is replaced by its successor: where the
/// profile holds, behind lines without an opening marker, a block with the
/// same markers whose closing marker is its last line only, bringing the new
/// block up to date puts it in the old one's place and leaves the rest.
pub proof fn lemma_prior_block_is_replaced(
    before: Seq<Seq<char>>,
    prior: Seq<Seq<char>>,
    after: Seq<Seq<char>>,
    block: Seq<Seq<char>>,
)
    requires
        prior.len() > 0,
        block.len() > 0,
        is_marker(prior.first(), block.first()),
        find_marker(before, block.first(), 0) == before.len(),
        find_marker(prior, block.last(), 0) == prior.len() - 1,
    ensures
        replaced(before + prior + after, block) == before + block + after,
{
    let existing = before + prior + after;
    let opening = before.len() as int;
    let closing = before.len() + prior.len() - 1;
    lemma_find_marker(before, block.first(), 0);
    lemma_find_marker(prior, block.last(), 0);
    assert forall|k: int| 0 <= k < opening implies !is_marker(
        #[trigger] existing[k],
        block.first(),
    ) by {
        assert(existing[k] == before[k]);
    }
    assert(existing[opening] == prior[0]);
    lemma_find_marker_is(existing, block.first(), 0, opening);
    assert forall|k: int| opening <= k < closing implies !is_marker(
        #[trigger] existing[k],
        block.last(),
    ) by {
        assert(existing[k] == prior[k - opening]);
    }
    assert(existing[closing] == prior[prior.len() - 1]);
    lemma_find_marker_is(existing, block.last(), opening, closing);
    assert(existing.subrange(0, opening) =~= before);
    assert(existing.subrange(closing + 1, existing.len() as int) =~= after);
}

/// The block's closing marker is its last line only: no earlier line of the
/// block reads the same once trimmed.
pub open spec fn closes_at_end(block: Seq<Seq<char>>) -> bool
    recommends
        block.len() > 0,
{
    find_marker(block, block.last(), 0) == block.len() - 1
}

/// `existing` holds the block's opening marker, and no closing marker at or
/// after its first occurrence.
pub open spec fn left_open(existing: Seq<Seq<char>>, block: Seq<Seq<char>>) -> bool
    recommends
        block.len() > 0,
{
    &&& find_marker(existing, block.first(), 0) < existing.len()
    &&& block_span(existing, block) is None
}

/// When bringing a block up to date a second time changes nothing.
///
/// It does so exactly when the block's closing marker occurs in the block only
/// as its last line, and the profile did not hold an opening marker without a
/// closing one. In the two other cases the second run finds a closing marker
/// that the first run did not put where the second looks for it, and cuts
/// differently.
pub proof fn lemma_synchronized_twice(existing: Option<Seq<Seq<char>>>, block: Seq<Seq<char>>)
    requires
        block.len() > 0,
    ensures
        synchronized(Some(synchronized(existing, block)), block) == synchronized(existing, block)
            <==> closes_at_end(block) && !(existing is Some && left_open(existing->0, block)),
{
    let lines = match existing {
        Some(lines) => lines,
        None => Seq::<Seq<char>>::empty(),
    };
    let n = block.len() as int;
    let len = lines.len() as int;
    let once = synchronized(existing, block);
    let twice = replaced(once, block);
    let k = find_marker(block, block.last(), 0);
    lemma_find_marker(block, block.last(), 0);
    assert(is_marker(block[n - 1], block.last()));
    assert(k <= n - 1);
    let opening = find_marker(lines, block.first(), 0);
    lemma_find_marker(lines, block.first(), 0);
    let closing = find_marker(lines, block.last(), opening);
    lemma_find_marker(lines, block.last(), opening);
    assert(is_marker(block[0], block.first()));
    if closing < len {
        // The block was there: it is found again where it was put.
        assert(existing is Some);
        assert(once == lines.subrange(0, opening) + block + lines.subrange(closing + 1, len));
        lemma_find_marker_is(once, block.first(), 0, opening);
        lemma_find_marker_is(once, block.last(), opening, opening + k);
        assert(twice == once.subrange(0, opening) + block + once.subrange(
            opening + k + 1,
            once.len() as int,
        ));
        if k == n - 1 {
            assert(twice =~= once);
        } else {
            assert(twice.len() != once.len());
        }
    } else if opening < len {
        // An opening marker without a closing one: the block was added at the
        // end, and the second run cuts from the old opening marker.
        assert(existing is Some);
        assert(left_open(lines, block));
        assert(once == lines + block);
        lemma_find_marker_is(once, block.first(), 0, opening);
        lemma_find_marker_is(once, block.last(), opening, len + k);
        assert(twice == once.subrange(0, opening) + block + once.subrange(
            len + k + 1,
            once.len() as int,
        ));
        let d = len - opening;
        if twice.len() == once.len() {
            assert(d == n - 1 - k);
            if k >= d {
                assert(once[len + k - d] == block[k - d]);
                assert(twice[opening + k] == block[k]);
                assert(twice[opening + k] != once[len + k - d]);
            } else {
                assert(once[opening + k] == lines[opening + k]);
                assert(twice[opening + k] == block[k]);
                assert(twice[opening + k] != once[opening + k]);
            }
        }
        assert(twice != once);
    } else {
        // No opening marker, or no file: the block stands at the end.
        assert(once =~= lines + block);
        lemma_find_marker_is(once, block.first(), 0, len);
        lemma_find_marker_is(once, block.last(), len, len + k);
        assert(twice == once.subrange(0, len) + block + once.subrange(
            len + k + 1,
            once.len() as int,
        ));
        if k == n - 1 {
            assert(twice =~= once);
        } else {
            assert(twice.len() != once.len());
        }
    }
}

/// The first index at or after `from` whose line is `marker`, white space at
/// the ends aside.
fn position_of_marker(lines: &Vec<String>, marker: &str, from: usize) -> (r: usize)
    requires
        from <= lines.len(),
    ensures
        r == find_marker(lines.deep_view(), marker@, from as int),
{
    let wanted = trim(marker);
    let mut i: usize = from;
    while i < lines.len()
        invariant
            from <= i <= lines.len(),
            wanted@ == trimmed(marker@),
            find_marker(lines.deep_view(), marker@, from as int) == find_marker(
                lines.deep_view(),
                marker@,
                i as int,
            ),
        decreases lines.len() - i,
    {
        assert(lines.deep_view()[i as int] == lines[i as int]@);
        if str_eq(trim(lines[i].as_str()), wanted) {
            return i;
        }
        i += 1;
    }
    i
}

/// Appends copies of the lines of `block` to `lines`.
fn push_lines(lines: &mut Vec<String>, block: &Vec<String>)
    ensures
        final(lines).deep_view() == old(lines).deep_view() + block.deep_view(),
{
    let mut i: usize = 0;
    while i < block.len()
        invariant
            i <= block.len(),
            lines.deep_view() == old(lines).deep_view() + block.deep_view().subrange(0, i as int),
        decreases block.len() - i,
    {
        let ghost before = lines.deep_view();
        lines.push(block[i].clone());
        assert(lines.deep_view() =~= before.push(block[i as int]@));
        assert(block.deep_view().subrange(0, i + 1) =~= block.deep_view().subrange(0, i as int).push(
            block[i as int]@,
        ));
        i += 1;
    }
    assert(block.deep_view().subrange(0, block.len() as int) =~= block.deep_view());
}

/// Brings the block `new_content` up to date inside `existing_content`.
///
/// The block's first and last line are its markers. Where `existing_content`
/// holds the opening marker and, at or after its first occurrence, the closing
/// marker, everything from the one to the first of the other is replaced by
/// `new_content`; the lines before and after stay as they are. Otherwise
/// `new_content` is added at the end.
pub fn replace_file_content(existing_content: Vec<String>, new_content: &Vec<String>) -> (r: Vec<
    String,
>)
    requires
        new_content.len() > 0,
    ensures
        r.deep_view() == replaced(existing_content.deep_view(), new_content.deep_view()),
{
    let ghost existing = existing_content.deep_view();
    let ghost block = new_content.deep_view();
    let n = existing_content.len();
    assert(block.first() == new_content[0]@);
    assert(block.last() == new_content[new_content.len() - 1]@);
    let fr = position_of_marker(&existing_content, new_content[0].as_str(), 0);
    proof {
        lemma_find_marker(existing, block.first(), 0);
    }
    let to = position_of_marker(
        &existing_content,
        new_content[new_content.len() - 1].as_str(),
        fr,
    );
    proof {
        lemma_find_marker(existing, block.last(), fr as int);
    }
    let mut updated_content = existing_content;
    if to < n {
        let mut suffix = updated_content.split_off(to + 1);
        updated_content.truncate(fr);
        assert(updated_content.deep_view() =~= existing.subrange(0, fr as int));
        assert(suffix.deep_view() =~= existing.subrange(to + 1, n as int));
        push_lines(&mut updated_content, new_content);
        let ghost head = updated_content.deep_view();
        updated_content.append(&mut suffix);
        assert(updated_content.deep_view() =~= head + existing.subrange(to + 1, n as int));
    } else {
        push_lines(&mut updated_content, new_content);
    }
    updated_content
}

/// The lines to write to a profile: `block` alone where the file does not exist
/// yet, else what `replace_file_content` makes of the lines it holds.
pub fn synchronize(existing: Option<Vec<String>>, block: &Vec<String>) -> (r: Vec<String>)
    requires
        existing is Some ==> block.len() > 0,
    ensures
        r.deep_view() == synchronized(existing.deep_view(), block.deep_view()),
{
    match existing {
        Some(lines) => replace_file_content(lines, block),
        None => {
            let mut lines: Vec<String> = Vec::new();
            assert(lines.deep_view() =~= Seq::<Seq<char>>::empty());
            push_lines(&mut lines, block);
            assert(Seq::<Seq<char>>::empty() + block.deep_view() =~= block.deep_view());
            lines
        },
    }
}

/// The line that tells the user how setting up the shell `name` went.
pub open spec fn report(name: Seq<char>, outcome: Result<(), Seq<char>>) -> Seq<char> {
    match outcome {
        Ok(()) => "Successfully set up "@ + name,
        Err(message) => "Erring setting up "@ + name + ": "@ + message,
    }
}

/// A shell that can use the shortcuts.
pub trait Shell {
    /// The shell's name.
    spec fn title(&self) -> Seq<char>;

    /// The block of lines that makes the shortcuts of `store` usable in this
    /// shell.
    spec fn block(&self, store: ConfigView) -> Seq<Seq<char>>;

    /// The files that hold the block, or why there is none.
    spec fn profile_locations(&self, store: ConfigView) -> Result<
        Seq<ProfileLocationView>,
        Seq<char>,
    >;

    /// The shell's name, as the user reads it.
    fn name(&self) -> (r: &'static str)
        ensures
            r@ == self.title(),
    ;

    /// Renders the block for `config`. It is never empty.
    fn render(&self, config: &Config) -> (r: Vec<String>)
        ensures
            r.len() > 0,
            r.deep_view() == self.block(config@),
    ;

    /// The files to bring up to date for `config`. An error is a warning: the
    /// shell has no place to write to, and is left out.
    fn locations(&self, config: &Config) -> (r: Result<Vec<ProfileLocation>, String>)
        ensures
            match r {
                Ok(locations) => self.profile_locations(config@) == Ok::<
                    Seq<ProfileLocationView>,
                    Seq<char>,
                >(locations.deep_view()),
                Err(warning) => self.profile_locations(config@) == Err::<
                    Seq<ProfileLocationView>,
                    Seq<char>,
                >(warning@),
            },
    ;

    /// The lines to write to one of the shell's files, which holds the lines
    /// `existing`, or does not exist.
    fn try_configure(&self, config: &Config, existing: Option<Vec<String>>) -> (r: Vec<String>)
        ensures
            r.deep_view() == synchronized(existing.deep_view(), self.block(config@)),
    {
        let block = self.render(config);
        synchronize(existing, &block)
    }

    /// The line that tells the user how setting up this shell went.
    fn configure(&self, outcome: &Result<(), String>) -> (r: String)
        ensures
            r@ == report(
                self.title(),
                match *outcome {
                    Ok(()) => Ok(()),
                    Err(message) => Err(message@),
                },
            ),
    {
        match outcome {
            Ok(()) => String::from_str("Successfully set up ").concat(self.name()),
            Err(msg) => String::from_str("Erring setting up ").concat(self.name()).concat(
                ": ",
            ).concat(msg.as_str()),
        }
    }
}

} // verus!
