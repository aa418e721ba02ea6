//! What holds of the store's operations taken together.

use crate::config::order::{
    insertion_point, lemma_inserted_is_sorted, lemma_insertion_point,
    lemma_sorted_by_key_permutes, lemma_sorted_stays, sorted_by_key,
};
use crate::config::{
    deserialized, index_of_key, is_profile, profile_line, profiles_of, shortcut_lines,
    shortcuts_of, AddOutcome, ConfigVersion, ConfigView, RemoveOutcome, ShortcutView, HEADER_LINES,
    PROFILE_SEPARATOR,
};
use crate::sequence::{lemma_first_index, lemma_first_index_is};
use crate::text::{lemma_joined_split, lemma_split_joined};
use vstd::prelude::*;

verus! {

/// Lines are read as a store unless the header is short, a key is left
/// without its value, or the version token is not the one that is known. In
/// particular no lines at all are no store.
pub proof fn lemma_deserialize_fails(lines: Seq<Seq<char>>)
    ensures
        deserialized(lines) is Err <==> lines.len() < HEADER_LINES || (lines.len() - HEADER_LINES)
            % 2 != 0 || lines[0] != ConfigVersion::V0.token(),
        lines.len() == 0 ==> deserialized(lines) is Err,
        deserialized(lines) is Ok ==> lines.len() == HEADER_LINES + 2 * deserialized(
            lines,
        )->Ok_0.shortcuts.len(),
{
}

/// The profile line gives the profile locations back.
pub proof fn lemma_profiles_of_profile_line(profiles: Seq<Seq<char>>)
    requires
        forall|i: int| 0 <= i < profiles.len() ==> is_profile(#[trigger] profiles[i]),
    ensures
        profiles_of(profile_line(profiles)) == profiles,
{
    reveal_strlit(";");
    assert(";"@ =~= seq![PROFILE_SEPARATOR]);
    if profiles.len() == 0 {
        assert(profiles =~= Seq::<Seq<char>>::empty());
    } else {
        assert(is_profile(profiles[profiles.len() - 1]));
        assert(profile_line(profiles).len() > 0);
        lemma_split_joined(profiles, PROFILE_SEPARATOR);
    }
}

/// The shortcut lines give the shortcuts back.
pub proof fn lemma_shortcuts_of_shortcut_lines(shortcuts: Seq<ShortcutView>)
    ensures
        shortcuts_of(shortcut_lines(shortcuts)) == shortcuts,
{
    assert(shortcuts_of(shortcut_lines(shortcuts)) =~= shortcuts);
}

/// A store that is written down and read again is the store that it was.
pub proof fn lemma_serialize_deserialize(store: ConfigView)
    requires
        store.wf(),
    ensures
        deserialized(store.serialize()) == Ok::<ConfigView, Seq<char>>(store),
{
    let lines = store.serialize();
    let shortcuts = shortcut_lines(store.shortcuts);
    assert(lines.len() == HEADER_LINES + 2 * store.shortcuts.len());
    assert(lines.subrange(HEADER_LINES as int, lines.len() as int) =~= shortcuts);
    lemma_shortcuts_of_shortcut_lines(store.shortcuts);
    lemma_profiles_of_profile_line(store.power_shell_profiles);
    assert(store.version == ConfigVersion::V0);
}

/// Lines that are read as a store are the lines that the store is written
/// down as: a store has one way to be written.
pub proof fn lemma_deserialize_serialize(lines: Seq<Seq<char>>)
    requires
        deserialized(lines) is Ok,
    ensures
        deserialized(lines)->Ok_0.serialize() == lines,
{
    let store = deserialized(lines)->Ok_0;
    let rest = lines.subrange(HEADER_LINES as int, lines.len() as int);
    reveal_strlit(";");
    assert(";"@ =~= seq![PROFILE_SEPARATOR]);
    if lines[3].len() == 0 {
        assert(profile_line(store.power_shell_profiles) =~= lines[3]);
    } else {
        lemma_joined_split(lines[3], PROFILE_SEPARATOR);
    }
    assert(shortcut_lines(shortcuts_of(rest)) =~= rest);
    assert(store.serialize() =~= lines);
}

/// Sorting brings in no key that was not there.
pub proof fn lemma_sorted_has_no_new_key(shortcuts: Seq<ShortcutView>, key: Seq<char>)
    requires
        index_of_key(shortcuts, key) >= shortcuts.len(),
    ensures
        forall|i: int|
            0 <= i < sorted_by_key(shortcuts).len() ==> (#[trigger] sorted_by_key(
                shortcuts,
            )[i]).key != key,
{
    broadcast use vstd::seq_lib::group_to_multiset_ensures;

    let sorted = sorted_by_key(shortcuts);
    lemma_sorted_by_key_permutes(shortcuts);
    lemma_first_index(shortcuts, |shortcut: ShortcutView| shortcut.key == key, 0);
    assert forall|i: int| 0 <= i < sorted.len() implies (#[trigger] sorted[i]).key != key by {
        assert(sorted.contains(sorted[i]));
        assert(sorted.to_multiset().count(sorted[i]) > 0);
        assert(shortcuts.contains(sorted[i]));
        let j = choose|j: int| 0 <= j < shortcuts.len() && shortcuts[j] == sorted[i];
        assert(shortcuts[j].key != key);
    }
}

/// After an addition the first shortcut of the key is the one that was
/// added.
pub proof fn lemma_added_is_first(store: ConfigView, key: Seq<char>, value: Seq<char>)
    ensures
        ({
            let after = store.add(key, value).0.shortcuts;
            let at = index_of_key(after, key);
            0 <= at < after.len() && after[at] == ShortcutView { key, value }
        }),
{
    let hit = |shortcut: ShortcutView| shortcut.key == key;
    let entry = ShortcutView { key, value };
    let at = index_of_key(store.shortcuts, key);
    let after = store.add(key, value).0.shortcuts;
    lemma_first_index(store.shortcuts, hit, 0);
    if at >= store.shortcuts.len() {
        let sorted = sorted_by_key(store.shortcuts);
        let place = insertion_point(sorted, key);
        assert(store.shortcuts.push(entry).drop_last() =~= store.shortcuts);
        assert(after == sorted.insert(place, entry));
        lemma_insertion_point(sorted, key);
        lemma_sorted_has_no_new_key(store.shortcuts, key);
        assert forall|k: int| 0 <= k < place implies !hit(#[trigger] after[k]) by {
            assert(after[k] == sorted[k]);
        }
        lemma_first_index_is(after, hit, 0, place);
    } else if store.shortcuts[at].value != value {
        assert forall|k: int| 0 <= k < at implies !hit(#[trigger] after[k]) by {
            assert(after[k] == store.shortcuts[k]);
        }
        lemma_first_index_is(after, hit, 0, at);
    }
}

/// Adding the same shortcut a second time changes nothing, and says so.
pub proof fn lemma_add_twice(store: ConfigView, key: Seq<char>, value: Seq<char>)
    ensures
        store.add(key, value).0.add(key, value) == (store.add(key, value).0, AddOutcome::NoChange),
{
    lemma_added_is_first(store, key, value);
}

/// Adding a key that the store holds with another value says what the
/// shortcut was and what it is, and leaves the store with one shortcut of
/// that key, which has the new value. All other shortcuts stay as they were.
pub proof fn lemma_add_existing_key(store: ConfigView, key: Seq<char>, value: Seq<char>)
    requires
        store.wf(),
        index_of_key(store.shortcuts, key) < store.shortcuts.len(),
        store.shortcuts[index_of_key(store.shortcuts, key)].value != value,
    ensures
        ({
            let at = index_of_key(store.shortcuts, key);
            let (after, outcome) = store.add(key, value);
            &&& outcome == AddOutcome::Updated(store.shortcuts[at], ShortcutView { key, value })
            &&& store.shortcuts[at].key == key
            &&& after.shortcuts.len() == store.shortcuts.len()
            &&& after.shortcuts[at] == ShortcutView { key, value }
            &&& forall|i: int|
                0 <= i < after.shortcuts.len() && i != at ==> #[trigger] after.shortcuts[i]
                    == store.shortcuts[i] && after.shortcuts[i].key != key
        }),
{
    let at = index_of_key(store.shortcuts, key);
    lemma_first_index(store.shortcuts, |shortcut: ShortcutView| shortcut.key == key, 0);
}

/// Removing a key that the store does not hold changes nothing, and says so.
pub proof fn lemma_remove_absent_key(store: ConfigView, key: Seq<char>)
    requires
        forall|i: int| 0 <= i < store.shortcuts.len() ==> (#[trigger] store.shortcuts[i]).key != key,
    ensures
        store.remove(key) == (store, RemoveOutcome::NotFound),
{
    lemma_first_index(store.shortcuts, |shortcut: ShortcutView| shortcut.key == key, 0);
}

/// Removing a key that the store holds takes out the shortcut of that key and
/// hands it back. The other shortcuts stay, in their order, and none of them
/// has the key.
pub proof fn lemma_remove_present_key(store: ConfigView, key: Seq<char>)
    requires
        store.wf(),
        index_of_key(store.shortcuts, key) < store.shortcuts.len(),
    ensures
        ({
            let at = index_of_key(store.shortcuts, key);
            let (after, outcome) = store.remove(key);
            &&& outcome == RemoveOutcome::Removed(store.shortcuts[at])
            &&& store.shortcuts[at].key == key
            &&& after.shortcuts == store.shortcuts.remove(at)
            &&& store.shortcuts == after.shortcuts.insert(at, store.shortcuts[at])
            &&& forall|i: int|
                0 <= i < after.shortcuts.len() ==> (#[trigger] after.shortcuts[i]).key != key
            &&& store.remove(key).0.remove(key) == (after, RemoveOutcome::NotFound)
        }),
{
    let at = index_of_key(store.shortcuts, key);
    let after = store.remove(key).0;
    lemma_first_index(store.shortcuts, |shortcut: ShortcutView| shortcut.key == key, 0);
    assert(store.shortcuts =~= after.shortcuts.insert(at, store.shortcuts[at]));
    assert forall|i: int| 0 <= i < after.shortcuts.len() implies (
    #[trigger] after.shortcuts[i]).key != key by {
        if i < at {
            assert(after.shortcuts[i] == store.shortcuts[i]);
        } else {
            assert(after.shortcuts[i] == store.shortcuts[i + 1]);
        }
    }
    lemma_remove_absent_key(after, key);
}

/// Adding a shortcut keeps a store well formed.
pub proof fn lemma_add_keeps_wf(store: ConfigView, key: Seq<char>, value: Seq<char>)
    requires
        store.wf(),
    ensures
        store.add(key, value).0.wf(),
{
    let entry = ShortcutView { key, value };
    let at = index_of_key(store.shortcuts, key);
    let after = store.add(key, value).0.shortcuts;
    lemma_first_index(store.shortcuts, |shortcut: ShortcutView| shortcut.key == key, 0);
    if at >= store.shortcuts.len() {
        let place = insertion_point(store.shortcuts, key);
        assert(store.shortcuts.push(entry).drop_last() =~= store.shortcuts);
        lemma_sorted_stays(store.shortcuts);
        lemma_insertion_point(store.shortcuts, key);
        lemma_inserted_is_sorted(store.shortcuts, entry);
        assert(after == store.shortcuts.insert(place, entry));
        assert forall|i: int, j: int| 0 <= i < j < after.len() implies (#[trigger] after[i]).key != (
        #[trigger] after[j]).key by {
            let i0 = if i < place { i } else { i - 1 };
            let j0 = if j < place { j } else { j - 1 };
            if i != place {
                assert(after[i] == store.shortcuts[i0]);
            }
            if j != place {
                assert(after[j] == store.shortcuts[j0]);
            }
        }
    } else if store.shortcuts[at].value != value {
        assert forall|i: int| 0 <= i < after.len() implies (#[trigger] after[i]).key
            == store.shortcuts[i].key by {}
        assert forall|i: int, j: int| 0 <= i < j < after.len() implies !crate::text::text_lt(
            (#[trigger] after[j]).key,
            (#[trigger] after[i]).key,
        ) by {
            assert(after[i].key == store.shortcuts[i].key);
            assert(after[j].key == store.shortcuts[j].key);
        }
        assert forall|i: int, j: int| 0 <= i < j < after.len() implies (#[trigger] after[i]).key != (
        #[trigger] after[j]).key by {
            assert(after[i].key == store.shortcuts[i].key);
            assert(after[j].key == store.shortcuts[j].key);
        }
    }
}

/// Removing a shortcut keeps a store well formed.
pub proof fn lemma_remove_keeps_wf(store: ConfigView, key: Seq<char>)
    requires
        store.wf(),
    ensures
        store.remove(key).0.wf(),
{
    let at = index_of_key(store.shortcuts, key);
    let after = store.remove(key).0.shortcuts;
    lemma_first_index(store.shortcuts, |shortcut: ShortcutView| shortcut.key == key, 0);
    if at < store.shortcuts.len() {
        assert forall|i: int, j: int| 0 <= i < j < after.len() implies !crate::text::text_lt(
            (#[trigger] after[j]).key,
            (#[trigger] after[i]).key,
        ) && after[i].key != after[j].key by {
            let i0 = if i < at { i } else { i + 1 };
            let j0 = if j < at { j } else { j + 1 };
            assert(after[i] == store.shortcuts[i0]);
            assert(after[j] == store.shortcuts[j0]);
        }
    }
}

/// Adding a profile location that can be written down keeps a store well
/// formed.
pub proof fn lemma_add_profile_keeps_wf(store: ConfigView, profile: Seq<char>)
    requires
        store.wf(),
        is_profile(profile),
    ensures
        store.add_power_shell_profile(profile).wf(),
{
    let after = store.add_power_shell_profile(profile).power_shell_profiles;
    if !store.power_shell_profiles.contains(profile) {
        assert forall|i: int, j: int| 0 <= i < after.len() && 0 <= j < after.len() && i
            != j implies after[i] != after[j] by {
            if i < store.power_shell_profiles.len() {
                assert(store.power_shell_profiles.contains(after[i]));
            }
            if j < store.power_shell_profiles.len() {
                assert(store.power_shell_profiles.contains(after[j]));
            }
        }
    }
}

} // verus!
