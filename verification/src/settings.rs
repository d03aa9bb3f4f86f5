//! A user's settings: values under keys, where the last write to a key wins.

use vstd::prelude::*;

verus! {

/// A setting: an opaque value under a key.
#[derive(Debug)]
pub struct SettingEntry {
    pub key: String,
    pub value: String,
}

/// What a `SettingEntry` holds, as plain values.
pub struct SettingEntryView {
    pub key: Seq<char>,
    pub value: Seq<char>,
}

impl DeepView for SettingEntry {
    type V = SettingEntryView;

    open spec fn deep_view(&self) -> SettingEntryView {
        SettingEntryView { key: self.key@, value: self.value@ }
    }
}

impl Clone for SettingEntry {
    fn clone(&self) -> (r: Self)
        ensures
            r == *self,
    {
        SettingEntry { key: self.key.clone(), value: self.value.clone() }
    }
}

/// The index of the first setting under the key, or the number of settings where there is
/// none.
pub open spec fn key_index(table: Seq<SettingEntryView>, key: Seq<char>) -> int
    decreases table.len(),
{
    if table.len() == 0 {
        0
    } else if table[0].key == key {
        0
    } else {
        1 + key_index(table.drop_first(), key)
    }
}

/// The value under a key: that of the first setting under it.
pub open spec fn setting_value(table: Seq<SettingEntryView>, key: Seq<char>) -> Option<Seq<char>> {
    if key_index(table, key) < table.len() {
        Some(table[key_index(table, key)].value)
    } else {
        None
    }
}

/// The settings after a value was written under a key: the setting under the key holds the
/// value; where there was none, a new setting stands at the end.
pub open spec fn setting_put(table: Seq<SettingEntryView>, key: Seq<char>, value: Seq<char>) -> Seq<
    SettingEntryView,
> {
    if key_index(table, key) < table.len() {
        table.update(key_index(table, key), SettingEntryView { key, value })
    } else {
        table.push(SettingEntryView { key, value })
    }
}

/// The settings after the setting under a key was deleted.
pub open spec fn setting_removed(table: Seq<SettingEntryView>, key: Seq<char>) -> Seq<
    SettingEntryView,
> {
    if key_index(table, key) < table.len() {
        table.remove(key_index(table, key))
    } else {
        table
    }
}

/// The settings after the incoming ones were written, one after the other.
pub open spec fn settings_applied(table: Seq<SettingEntryView>, incoming: Seq<SettingEntryView>) -> Seq<
    SettingEntryView,
>
    decreases incoming.len(),
{
    if incoming.len() == 0 {
        table
    } else {
        setting_put(
            settings_applied(table, incoming.drop_last()),
            incoming.last().key,
            incoming.last().value,
        )
    }
}

/// Whether no two settings share a key.
pub open spec fn keys_distinct(table: Seq<SettingEntryView>) -> bool {
    forall|i: int, j: int|
        0 <= i < j < table.len() ==> (#[trigger] table[i]).key != (#[trigger] table[j]).key
}

/// Finds the first setting under a key.
pub fn find_key(table: &Vec<SettingEntry>, key: &str) -> (i: usize)
    ensures
        i == key_index(table.deep_view(), key@),
        i <= table.len(),
{
    let mut i: usize = 0;
    assert(table.deep_view().skip(0) =~= table.deep_view());
    while i < table.len()
        invariant
            i <= table.len(),
            key_index(table.deep_view(), key@) == i + key_index(
                table.deep_view().skip(i as int),
                key@,
            ),
        decreases table.len() - i,
    {
        let ghost rest = table.deep_view().skip(i as int);
        assert(rest[0] == table[i as int].deep_view());
        if *table[i].key.as_str() == *key {
            return i;
        }
        assert(rest.drop_first() =~= table.deep_view().skip(i + 1));
        i = i + 1;
    }
    i
}

/// Reads the value under a key.
pub fn get_setting(table: &Vec<SettingEntry>, key: &str) -> (r: Option<String>)
    ensures
        r.deep_view() == setting_value(table.deep_view(), key@),
{
    let i = find_key(table, key);
    if i < table.len() {
        Some(table[i].value.clone())
    } else {
        None
    }
}

/// Writes a value under a key.
pub fn put_setting(table: &mut Vec<SettingEntry>, key: &str, value: &str)
    ensures
        final(table).deep_view() == setting_put(old(table).deep_view(), key@, value@),
{
    let i = find_key(table, key);
    let ghost before = table.deep_view();
    let entry = SettingEntry { key: String::from_str(key), value: String::from_str(value) };
    if i < table.len() {
        table[i] = entry;
        assert(table.deep_view() =~= setting_put(before, key@, value@));
    } else {
        table.push(entry);
        assert(table.deep_view() =~= setting_put(before, key@, value@));
    }
}

/// Deletes the setting under a key, if there is one.
pub fn remove_setting(table: &mut Vec<SettingEntry>, key: &str)
    ensures
        final(table).deep_view() == setting_removed(old(table).deep_view(), key@),
{
    let i = find_key(table, key);
    let ghost before = table.deep_view();
    if i < table.len() {
        table.remove(i);
        assert(table.deep_view() =~= setting_removed(before, key@));
    }
}

/// Writes the incoming settings, one after the other, and hands back how many were written.
pub fn apply_settings(table: &mut Vec<SettingEntry>, incoming: &Vec<SettingEntry>) -> (written:
    usize)
    ensures
        final(table).deep_view() == settings_applied(old(table).deep_view(), incoming.deep_view()),
        written == incoming.len(),
{
    let mut i: usize = 0;
    assert(incoming.deep_view().take(0) =~= Seq::empty());
    while i < incoming.len()
        invariant
            i <= incoming.len(),
            table.deep_view() == settings_applied(
                old(table).deep_view(),
                incoming.deep_view().take(i as int),
            ),
        decreases incoming.len() - i,
    {
        let ghost next = incoming.deep_view().take(i + 1);
        assert(next.last() == incoming[i as int].deep_view());
        assert(next.drop_last() =~= incoming.deep_view().take(i as int));
        put_setting(table, incoming[i].key.as_str(), incoming[i].value.as_str());
        i = i + 1;
    }
    assert(incoming.deep_view().take(i as int) =~= incoming.deep_view());
    i
}

/// The index of the first setting under a key lies within the table or at its end; no
/// setting in front of it is under the key, and the one at it is.
pub proof fn lemma_key_index(table: Seq<SettingEntryView>, key: Seq<char>)
    ensures
        0 <= key_index(table, key) <= table.len(),
        forall|j: int| 0 <= j < key_index(table, key) ==> (#[trigger] table[j]).key != key,
        key_index(table, key) < table.len() ==> table[key_index(table, key)].key == key,
    decreases table.len(),
{
    if table.len() > 0 && table[0].key != key {
        let rest = table.drop_first();
        lemma_key_index(rest, key);
        assert forall|j: int| 0 <= j < key_index(table, key) implies (#[trigger] table[j]).key
            != key by {
            if j > 0 {
                assert(table[j] == rest[j - 1]);
            }
        }
    }
}

/// Where the index `i` holds the first setting under the key, it is the key's index.
pub proof fn lemma_key_index_is(table: Seq<SettingEntryView>, key: Seq<char>, i: int)
    requires
        0 <= i <= table.len(),
        forall|j: int| 0 <= j < i ==> (#[trigger] table[j]).key != key,
        i < table.len() ==> table[i].key == key,
    ensures
        key_index(table, key) == i,
{
    lemma_key_index(table, key);
    let k = key_index(table, key);
    if k < i {
        assert(table[k].key != key);
    }
    if i < k {
        assert(table[i].key != key);
    }
}

/// After a write, the key holds the value written, and every other key holds what it held.
pub proof fn lemma_put_then_get(
    table: Seq<SettingEntryView>,
    key: Seq<char>,
    value: Seq<char>,
    other: Seq<char>,
)
    ensures
        setting_value(setting_put(table, key, value), key) == Some(value),
        other != key ==> setting_value(setting_put(table, key, value), other) == setting_value(
            table,
            other,
        ),
{
    let after = setting_put(table, key, value);
    let i = key_index(table, key);
    lemma_key_index(table, key);
    assert forall|j: int| 0 <= j < i implies (#[trigger] after[j]).key != key by {
        assert(after[j] == table[j]);
    }
    lemma_key_index_is(after, key, i);
    if other != key {
        let o = key_index(table, other);
        lemma_key_index(table, other);
        assert forall|j: int| 0 <= j < o implies (#[trigger] after[j]).key != other by {
            if j != i {
                assert(after[j] == table[j]);
            }
        }
        if o < table.len() {
            assert(o != i);
            assert(after[o] == table[o]);
            lemma_key_index_is(after, other, o);
        } else {
            lemma_key_index_is(after, other, after.len() as int);
        }
    }
}

/// A write keeps the keys apart.
pub proof fn lemma_put_keeps_keys_distinct(
    table: Seq<SettingEntryView>,
    key: Seq<char>,
    value: Seq<char>,
)
    requires
        keys_distinct(table),
    ensures
        keys_distinct(setting_put(table, key, value)),
{
    let after = setting_put(table, key, value);
    lemma_key_index(table, key);
    assert forall|i: int, j: int| 0 <= i < j < after.len() implies (#[trigger] after[i]).key != (
    #[trigger] after[j]).key by {
        if j < table.len() {
            assert(after[i].key == table[i].key);
            assert(after[j].key == table[j].key);
        } else {
            assert(after[i] == table[i]);
        }
    }
}

/// The value that the last of the incoming settings under a key holds.
pub open spec fn last_written(incoming: Seq<SettingEntryView>, key: Seq<char>) -> Option<Seq<char>>
    decreases incoming.len(),
{
    if incoming.len() == 0 {
        None
    } else if incoming.last().key == key {
        Some(incoming.last().value)
    } else {
        last_written(incoming.drop_last(), key)
    }
}

/// After the incoming settings were written, every key among them holds the value that
/// the last of them wrote, and every other key holds what it held.
pub proof fn lemma_settings_reflect_incoming(
    table: Seq<SettingEntryView>,
    incoming: Seq<SettingEntryView>,
    key: Seq<char>,
)
    ensures
        setting_value(settings_applied(table, incoming), key) == (match last_written(incoming, key) {
            Some(value) => Some(value),
            None => setting_value(table, key),
        }),
    decreases incoming.len(),
{
    if incoming.len() > 0 {
        lemma_settings_reflect_incoming(table, incoming.drop_last(), key);
        lemma_put_then_get(
            settings_applied(table, incoming.drop_last()),
            incoming.last().key,
            incoming.last().value,
            key,
        );
    }
}

/// Writing the same settings a second time changes no value: every key holds after the
/// second pass what it held after the first.
pub proof fn lemma_settings_repeatable(
    table: Seq<SettingEntryView>,
    incoming: Seq<SettingEntryView>,
    key: Seq<char>,
)
    ensures
        setting_value(settings_applied(settings_applied(table, incoming), incoming), key)
            == setting_value(settings_applied(table, incoming), key),
{
    lemma_settings_reflect_incoming(table, incoming, key);
    lemma_settings_reflect_incoming(settings_applied(table, incoming), incoming, key);
}

/// Writing settings keeps the keys apart.
pub proof fn lemma_applied_keeps_keys_distinct(
    table: Seq<SettingEntryView>,
    incoming: Seq<SettingEntryView>,
)
    requires
        keys_distinct(table),
    ensures
        keys_distinct(settings_applied(table, incoming)),
    decreases incoming.len(),
{
    if incoming.len() > 0 {
        lemma_applied_keeps_keys_distinct(table, incoming.drop_last());
        lemma_put_keeps_keys_distinct(
            settings_applied(table, incoming.drop_last()),
            incoming.last().key,
            incoming.last().value,
        );
    }
}

/// Tells whether no two settings share a key.
pub fn keys_are_distinct(table: &Vec<SettingEntry>) -> (r: bool)
    ensures
        r == keys_distinct(table.deep_view()),
{
    let mut j: usize = 0;
    while j < table.len()
        invariant
            j <= table.len(),
            forall|a: int, b: int|
                0 <= a < b < j ==> (#[trigger] table.deep_view()[a]).key != (
                #[trigger] table.deep_view()[b]).key,
        decreases table.len() - j,
    {
        let mut i: usize = 0;
        while i < j
            invariant
                i <= j < table.len(),
                forall|a: int|
                    0 <= a < i ==> (#[trigger] table.deep_view()[a]).key
                        != table.deep_view()[j as int].key,
            decreases j - i,
        {
            assert(table.deep_view()[i as int] == table[i as int].deep_view());
            assert(table.deep_view()[j as int] == table[j as int].deep_view());
            if table[i].key == table[j].key {
                return false;
            }
            i = i + 1;
        }
        j = j + 1;
    }
    true
}

} // verus!
