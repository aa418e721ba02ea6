use shortcut::shell::common::{replace_file_content, synchronize};

fn lines(text: &[&str]) -> Vec<String> {
    text.iter().map(|line| line.to_string()).collect()
}

#[test]
fn an_absent_file_gets_the_block() {
    let block = lines(&["X", "a", "b", "c", "Y"]);
    assert_eq!(synchronize(None, &block), block);
    let one = lines(&["only"]);
    assert_eq!(synchronize(None, &one), one);
    assert_eq!(synchronize(None, &vec![]), lines(&[]));
}

#[test]
fn an_empty_file_gets_the_block() {
    let block = lines(&["X", "a", "Y"]);
    assert_eq!(synchronize(Some(vec![]), &block), block);
    assert_eq!(replace_file_content(vec![], &block), block);
}

#[test]
fn a_file_without_markers_gets_the_block_at_its_end() {
    let existing = lines(&["export A=1", "", "alias ll='ls -l'"]);
    let block = lines(&["X", "a", "Y"]);
    assert_eq!(
        replace_file_content(existing, &block),
        lines(&["export A=1", "", "alias ll='ls -l'", "X", "a", "Y"])
    );
}

#[test]
fn an_opening_marker_without_a_closing_one_appends() {
    let existing = lines(&["0", "X", "A", "B"]);
    let block = lines(&["X", "a", "Y"]);
    assert_eq!(
        replace_file_content(existing, &block),
        lines(&["0", "X", "A", "B", "X", "a", "Y"])
    );
}

#[test]
fn a_closing_marker_before_the_opening_one_does_not_count() {
    let existing = lines(&["Y", "0", "X", "A"]);
    let block = lines(&["X", "a", "Y"]);
    assert_eq!(
        replace_file_content(existing, &block),
        lines(&["Y", "0", "X", "A", "X", "a", "Y"])
    );
}

#[test]
fn the_block_is_replaced_where_it_stands() {
    let existing = lines(&["before", "X", "old 1", "old 2", "Y", "after 1", "after 2"]);
    let block = lines(&["X", "new", "Y"]);
    assert_eq!(
        synchronize(Some(existing), &block),
        lines(&["before", "X", "new", "Y", "after 1", "after 2"])
    );
}

#[test]
fn markers_match_with_other_indentation() {
    let existing = lines(&["  keep  ", "\t# start  ", "old", "   # end", " tail "]);
    let block = lines(&["# start", "new", "# end"]);
    assert_eq!(
        replace_file_content(existing, &block),
        lines(&["  keep  ", "# start", "new", "# end", " tail "])
    );
    let existing = lines(&["# start", "old", "# end"]);
    let block = lines(&["  # start\t", "new", "\t# end  "]);
    assert_eq!(replace_file_content(existing, &block), lines(&["  # start\t", "new", "\t# end  "]));
}

#[test]
fn markers_do_not_match_inside_a_line() {
    let existing = lines(&["# start here", "x # start", "# end."]);
    let block = lines(&["# start", "new", "# end"]);
    assert_eq!(
        replace_file_content(existing, &block),
        lines(&["# start here", "x # start", "# end.", "# start", "new", "# end"])
    );
}

#[test]
fn the_first_opening_and_the_first_closing_after_it_are_taken() {
    let existing = lines(&["X", "1", "Y", "2", "X", "3", "Y", "4"]);
    let block = lines(&["X", "n", "Y"]);
    assert_eq!(
        replace_file_content(existing, &block),
        lines(&["X", "n", "Y", "2", "X", "3", "Y", "4"])
    );
}

#[test]
fn a_block_of_one_line_replaces_that_line() {
    let existing = lines(&["a", " M ", "b"]);
    let block = lines(&["M"]);
    assert_eq!(replace_file_content(existing, &block), lines(&["a", "M", "b"]));
    assert_eq!(replace_file_content(lines(&["a"]), &block), lines(&["a", "M"]));
}

#[test]
fn equal_markers_take_the_opening_line_as_the_closing_one() {
    let existing = lines(&["a", "M", "b", "M", "c"]);
    let block = lines(&["M", "x", "M"]);
    assert_eq!(
        replace_file_content(existing, &block),
        lines(&["a", "M", "x", "M", "b", "M", "c"])
    );
}

#[test]
fn synchronizing_twice_is_synchronizing_once() {
    let block = lines(&["# start", "body", "# end"]);
    let files = [
        None,
        Some(lines(&[])),
        Some(lines(&["a", "b"])),
        Some(lines(&["a", "# start", "old", "# end", "b"])),
        Some(lines(&["# start", "# end"])),
        Some(lines(&["# end", "a"])),
    ];
    for file in files {
        let once = synchronize(file, &block);
        let twice = synchronize(Some(once.clone()), &block);
        assert_eq!(twice, once);
    }
}

#[test]
fn a_closing_marker_inside_the_block_breaks_the_second_run() {
    let block = lines(&["{", "}", "x", "}"]);
    let once = synchronize(None, &block);
    assert_eq!(once, block);
    let twice = synchronize(Some(once.clone()), &block);
    assert_eq!(twice, lines(&["{", "}", "x", "}", "x", "}"]));
}

#[test]
fn an_unclosed_block_is_cut_at_the_second_run() {
    let block = lines(&["X", "a", "Y"]);
    let once = synchronize(Some(lines(&["X"])), &block);
    assert_eq!(once, lines(&["X", "X", "a", "Y"]));
    let twice = synchronize(Some(once), &block);
    assert_eq!(twice, lines(&["X", "a", "Y"]));
}

#[test]
fn lines_outside_the_block_are_kept_as_they_are() {
    let existing = lines(&["  one\t", "", "two  ", "X", "gone", "Y", "", "\tthree", "four "]);
    let block = lines(&["X", "a", "b", "Y"]);
    let result = replace_file_content(existing.clone(), &block);
    assert_eq!(result[..3], existing[..3]);
    assert_eq!(result[3..7], block[..]);
    assert_eq!(result[7..], existing[6..]);
    assert_eq!(result.len(), 3 + 4 + 3);
}
