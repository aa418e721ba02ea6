//! The order in which a store keeps its shortcuts: by key, and among equal
//! keys by age.

use crate::config::{ShortcutKV, ShortcutView};
use crate::text::{lemma_text_lt_asymmetric, lemma_text_lt_between, str_lt, text_lt};
use vstd::prelude::*;

verus! {

/// No shortcut stands before one whose key comes before its own.
pub open spec fn is_sorted(shortcuts: Seq<ShortcutView>) -> bool {
    forall|i: int, j: int|
        0 <= i < j < shortcuts.len() ==> !text_lt(
            (#[trigger] shortcuts[j]).key,
            (#[trigger] shortcuts[i]).key,
        )
}

/// Where a shortcut with the key `key` belongs among `shortcuts`: behind the
/// last of them whose key does not come after `key`.
pub open spec fn insertion_point(shortcuts: Seq<ShortcutView>, key: Seq<char>) -> int
    decreases shortcuts.len(),
{
    if shortcuts.len() > 0 && text_lt(key, shortcuts.last().key) {
        insertion_point(shortcuts.drop_last(), key)
    } else {
        shortcuts.len() as int
    }
}

/// `shortcuts` with `entry` put where it belongs.
pub open spec fn inserted(shortcuts: Seq<ShortcutView>, entry: ShortcutView) -> Seq<ShortcutView> {
    shortcuts.insert(insertion_point(shortcuts, entry.key), entry)
}

/// `shortcuts` sorted by key. Shortcuts of one key keep their order.
pub open spec fn sorted_by_key(shortcuts: Seq<ShortcutView>) -> Seq<ShortcutView>
    decreases shortcuts.len(),
{
    if shortcuts.len() == 0 {
        shortcuts
    } else {
        inserted(sorted_by_key(shortcuts.drop_last()), shortcuts.last())
    }
}

/// The insertion point is the one index that has only later keys from it on
/// and a key that is not later just before it.
pub proof fn lemma_insertion_point(shortcuts: Seq<ShortcutView>, key: Seq<char>)
    ensures
        0 <= insertion_point(shortcuts, key) <= shortcuts.len(),
        forall|j: int|
            insertion_point(shortcuts, key) <= j < shortcuts.len() ==> text_lt(
                key,
                (#[trigger] shortcuts[j]).key,
            ),
        insertion_point(shortcuts, key) > 0 ==> !text_lt(
            key,
            shortcuts[insertion_point(shortcuts, key) - 1].key,
        ),
    decreases shortcuts.len(),
{
    if shortcuts.len() > 0 && text_lt(key, shortcuts.last().key) {
        let front = shortcuts.drop_last();
        lemma_insertion_point(front, key);
        assert forall|j: int| insertion_point(shortcuts, key) <= j < shortcuts.len() implies text_lt(
            key,
            (#[trigger] shortcuts[j]).key,
        ) by {
            if j < front.len() {
                assert(shortcuts[j] == front[j]);
            }
        }
    }
}

/// An index with only later keys from it on, and a key that is not later just
/// before it, is the insertion point.
pub proof fn lemma_insertion_point_is(shortcuts: Seq<ShortcutView>, key: Seq<char>, at: int)
    requires
        0 <= at <= shortcuts.len(),
        forall|j: int| at <= j < shortcuts.len() ==> text_lt(key, (#[trigger] shortcuts[j]).key),
        at > 0 ==> !text_lt(key, shortcuts[at - 1].key),
    ensures
        insertion_point(shortcuts, key) == at,
    decreases shortcuts.len(),
{
    if at < shortcuts.len() {
        assert(text_lt(key, shortcuts[shortcuts.len() - 1].key));
        lemma_insertion_point_is(shortcuts.drop_last(), key, at);
    }
}

/// Putting a shortcut where it belongs keeps sorted shortcuts sorted.
pub proof fn lemma_inserted_is_sorted(shortcuts: Seq<ShortcutView>, entry: ShortcutView)
    requires
        is_sorted(shortcuts),
    ensures
        is_sorted(inserted(shortcuts, entry)),
{
    let at = insertion_point(shortcuts, entry.key);
    let after = inserted(shortcuts, entry);
    lemma_insertion_point(shortcuts, entry.key);
    assert forall|i: int, j: int| 0 <= i < j < after.len() implies !text_lt(
        (#[trigger] after[j]).key,
        (#[trigger] after[i]).key,
    ) by {
        if j == at {
            // `after[i]` stood before `at`, and the key just before `at` is not later
            // than the entry's.
            assert(after[i] == shortcuts[i]);
            if i < at - 1 && text_lt(entry.key, shortcuts[i].key) {
                lemma_text_lt_between(entry.key, shortcuts[at - 1].key, shortcuts[i].key);
            }
        } else if i == at {
            // `after[j]` stood at or behind `at`: its key is later than the entry's.
            assert(after[j] == shortcuts[j - 1]);
            lemma_text_lt_asymmetric(entry.key, shortcuts[j - 1].key);
        } else {
            let i0 = if i < at { i } else { i - 1 };
            let j0 = if j < at { j } else { j - 1 };
            assert(after[i] == shortcuts[i0]);
            assert(after[j] == shortcuts[j0]);
        }
    }
}

/// Sorting sorts.
pub proof fn lemma_sorted_by_key_is_sorted(shortcuts: Seq<ShortcutView>)
    ensures
        is_sorted(sorted_by_key(shortcuts)),
        sorted_by_key(shortcuts).len() == shortcuts.len(),
    decreases shortcuts.len(),
{
    if shortcuts.len() > 0 {
        lemma_sorted_by_key_is_sorted(shortcuts.drop_last());
        lemma_insertion_point(sorted_by_key(shortcuts.drop_last()), shortcuts.last().key);
        lemma_inserted_is_sorted(sorted_by_key(shortcuts.drop_last()), shortcuts.last());
    }
}

/// Sorting leaves sorted shortcuts as they are.
pub proof fn lemma_sorted_stays(shortcuts: Seq<ShortcutView>)
    requires
        is_sorted(shortcuts),
    ensures
        sorted_by_key(shortcuts) == shortcuts,
    decreases shortcuts.len(),
{
    if shortcuts.len() > 0 {
        let front = shortcuts.drop_last();
        assert(is_sorted(front)) by {
            assert forall|i: int, j: int| 0 <= i < j < front.len() implies !text_lt(
                (#[trigger] front[j]).key,
                (#[trigger] front[i]).key,
            ) by {
                assert(front[i] == shortcuts[i] && front[j] == shortcuts[j]);
            }
        }
        lemma_sorted_stays(front);
        if front.len() > 0 {
            assert(front[front.len() - 1] == shortcuts[front.len() - 1]);
            assert(!text_lt(shortcuts[shortcuts.len() - 1].key, shortcuts[front.len() - 1].key));
        }
        lemma_insertion_point_is(front, shortcuts.last().key, front.len() as int);
        assert(front.insert(front.len() as int, shortcuts.last()) =~= shortcuts);
    }
}

/// Sorting moves shortcuts and neither adds nor drops one.
pub proof fn lemma_sorted_by_key_permutes(shortcuts: Seq<ShortcutView>)
    ensures
        sorted_by_key(shortcuts).to_multiset() == shortcuts.to_multiset(),
    decreases shortcuts.len(),
{
    broadcast use vstd::seq_lib::group_to_multiset_ensures;

    if shortcuts.len() > 0 {
        let front = sorted_by_key(shortcuts.drop_last());
        let entry = shortcuts.last();
        let at = insertion_point(front, entry.key);
        lemma_sorted_by_key_permutes(shortcuts.drop_last());
        lemma_insertion_point(front, entry.key);
        let after = front.insert(at, entry);
        assert(after.remove(at) =~= front);
        assert(after.to_multiset().remove(entry) == front.to_multiset());
        assert(after.to_multiset().count(entry) > 0) by {
            assert(after[at] == entry);
            assert(after.contains(entry));
        }
        assert(shortcuts.drop_last().push(entry) =~= shortcuts);
        assert(after.to_multiset() =~= front.to_multiset().insert(entry));
    }
}

/// Sorting keeps the order among the shortcuts of one key: those of the key
/// `key` are the same, in the same order, before and after.
pub proof fn lemma_sorted_keeps_order_of_key(shortcuts: Seq<ShortcutView>, key: Seq<char>)
    ensures
        sorted_by_key(shortcuts).filter(|shortcut: ShortcutView| shortcut.key == key)
            == shortcuts.filter(|shortcut: ShortcutView| shortcut.key == key),
    decreases shortcuts.len(),
{
    let hit = |shortcut: ShortcutView| shortcut.key == key;
    reveal(Seq::filter);
    if shortcuts.len() > 0 {
        let front = shortcuts.drop_last();
        let sorted = sorted_by_key(front);
        let entry = shortcuts.last();
        let at = insertion_point(sorted, entry.key);
        lemma_insertion_point(sorted, entry.key);
        let head = sorted.subrange(0, at);
        let tail = sorted.subrange(at, sorted.len() as int);
        lemma_sorted_keeps_order_of_key(front, key);
        assert(sorted.insert(at, entry) =~= head + seq![entry] + tail);
        assert(sorted =~= head + tail);
        Seq::filter_distributes_over_add(head + seq![entry], tail, hit);
        Seq::filter_distributes_over_add(head, seq![entry], hit);
        Seq::filter_distributes_over_add(head, tail, hit);
        assert(seq![entry].filter(hit) =~= if hit(entry) {
            seq![entry]
        } else {
            Seq::<ShortcutView>::empty()
        }) by {
            assert(seq![entry].drop_last() =~= Seq::<ShortcutView>::empty());
            assert(seq![entry].last() == entry);
            assert(Seq::<ShortcutView>::empty().filter(hit) =~= Seq::<ShortcutView>::empty());
        }
        if hit(entry) {
            assert(tail.filter(hit).len() == 0) by {
                if tail.filter(hit).len() > 0 {
                    let found = tail.filter(hit)[0];
                    tail.lemma_filter_contains_rev(hit, found);
                    let j = choose|j: int| 0 <= j < tail.len() && tail[j] == found;
                    assert(tail[j] == sorted[at + j]);
                    crate::text::lemma_text_lt_irreflexive(key);
                }
            }
            assert(sorted.insert(at, entry).filter(hit) =~= sorted.filter(hit).push(entry));
        } else {
            assert(sorted.insert(at, entry).filter(hit) =~= sorted.filter(hit));
        }
    }
}

/// Where a shortcut with the key `key` belongs among the first `count` of
/// `shortcuts`.
fn find_insertion_point(shortcuts: &Vec<ShortcutKV>, count: usize, key: &str) -> (at: usize)
    requires
        count <= shortcuts.len(),
    ensures
        at <= count,
        at == insertion_point(shortcuts.deep_view().subrange(0, count as int), key@),
{
    let ghost front = shortcuts.deep_view().subrange(0, count as int);
    let mut at: usize = count;
    while at > 0 && str_lt(key, shortcuts[at - 1].key.as_str())
        invariant
            at <= count <= shortcuts.len(),
            front == shortcuts.deep_view().subrange(0, count as int),
            forall|j: int| at <= j < count ==> text_lt(key@, (#[trigger] front[j]).key),
        decreases at,
    {
        assert(front[at - 1] == shortcuts[at - 1]@);
        at -= 1;
    }
    proof {
        if at > 0 {
            assert(front[at - 1] == shortcuts[at - 1]@);
        }
        lemma_insertion_point_is(front, key@, at as int);
    }
    at
}

/// Puts `entry` where it belongs among `shortcuts`.
pub fn insert_by_key(shortcuts: &mut Vec<ShortcutKV>, entry: ShortcutKV)
    ensures
        final(shortcuts).deep_view() == inserted(old(shortcuts).deep_view(), entry@),
{
    let ghost before = shortcuts.deep_view();
    assert(before.subrange(0, shortcuts.len() as int) =~= before);
    let at = find_insertion_point(shortcuts, shortcuts.len(), entry.key.as_str());
    shortcuts.insert(at, entry);
    assert(shortcuts.deep_view() =~= before.insert(at as int, entry@));
}

/// Sorts `shortcuts` by key. Shortcuts of one key keep their order.
pub fn sort_by_key(shortcuts: &mut Vec<ShortcutKV>)
    ensures
        final(shortcuts).deep_view() == sorted_by_key(old(shortcuts).deep_view()),
{
    let ghost before = shortcuts.deep_view();
    let n = shortcuts.len();
    let mut i: usize = 0;
    assert(shortcuts.deep_view().subrange(0, 0) =~= sorted_by_key(before.subrange(0, 0)));
    while i < n
        invariant
            i <= n,
            n == before.len(),
            shortcuts.len() == n,
            shortcuts.deep_view().subrange(0, i as int) == sorted_by_key(
                before.subrange(0, i as int),
            ),
            shortcuts.deep_view().subrange(i as int, n as int) == before.subrange(
                i as int,
                n as int,
            ),
        decreases n - i,
    {
        let ghost now = shortcuts.deep_view();
        let ghost front = now.subrange(0, i as int);
        let ghost entry = before[i as int];
        assert(now[i as int] == now.subrange(i as int, n as int)[0]);
        assert(before.subrange(0, i + 1).drop_last() =~= before.subrange(0, i as int));
        assert(before.subrange(0, i + 1).last() == entry);
        let at = find_insertion_point(shortcuts, i, shortcuts[i].key.as_str());
        if at < i {
            let moved = shortcuts.remove(i);
            shortcuts.insert(at, moved);
        }
        assert(shortcuts.deep_view().subrange(0, i + 1) =~= front.insert(at as int, entry));
        assert(shortcuts.deep_view().subrange(i + 1, n as int) =~= before.subrange(
            i + 1,
            n as int,
        )) by {
            assert forall|k: int| i + 1 <= k < n implies shortcuts.deep_view()[k] == before[k] by {
                assert(now[k] == now.subrange(i as int, n as int)[k - i]);
            }
        }
        i += 1;
    }
    assert(shortcuts.deep_view().subrange(0, n as int) =~= shortcuts.deep_view());
    assert(before.subrange(0, n as int) =~= before);
}

} // verus!
