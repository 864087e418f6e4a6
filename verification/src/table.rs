//! A table of values under names.
use crate::text::{same, texts, Text};
use vstd::prelude::*;

verus! {

/// A value that can be duplicated without a change to its model.
pub trait Duplicate: View + Sized {
    fn duplicate(&self) -> (r: Self)
        ensures
            r@ == self@,
    ;
}

impl Duplicate for u32 {
    fn duplicate(&self) -> (r: u32) {
        *self
    }
}

/// A list of names, as a value in a table.
#[derive(Debug)]
pub struct Names(pub Vec<String>);

impl View for Names {
    type V = Seq<Text>;

    open spec fn view(&self) -> Seq<Text> {
        texts(self.0@)
    }
}

/// A map from strings to values. Entries stand in the order in which they were
/// put in; the last one under a name counts.
#[derive(Debug)]
pub struct Table<V> {
    entries: Vec<(String, V)>,
}

pub open spec fn table_map<V: View>(entries: Seq<(String, V)>) -> Map<Text, V::V>
    decreases entries.len(),
{
    if entries.len() == 0 {
        Map::empty()
    } else {
        table_map(entries.drop_last()).insert(entries.last().0@, entries.last().1@)
    }
}

impl<V: View> View for Table<V> {
    type V = Map<Text, V::V>;

    closed spec fn view(&self) -> Map<Text, V::V> {
        table_map(self.entries@)
    }
}

impl<V: View> Table<V> {
    pub fn new() -> (r: Table<V>)
        ensures
            r@ == Map::<Text, V::V>::empty(),
    {
        Table { entries: Vec::new() }
    }

    /// Puts `value` under `key`, in place of what stood there.
    pub fn insert(&mut self, key: String, value: V)
        ensures
            final(self)@ == old(self)@.insert(key@, value@),
    {
        self.entries.push((key, value));
        assert(self.entries@.drop_last() =~= old(self).entries@);
    }

    /// What stands under `key`, if anything.
    pub fn get(&self, key: &str) -> (r: Option<&V>)
        ensures
            match r {
                Some(v) => self@.contains_key(key@) && self@[key@] == v@,
                None => !self@.contains_key(key@),
            },
    {
        let mut i: usize = self.entries.len();
        let ghost all = self.entries@;
        assert(all.subrange(0, i as int) =~= all);
        while i > 0
            invariant
                i <= all.len(),
                all == self.entries@,
                self@ == table_map(all),
                self@.contains_key(key@) == table_map(all.subrange(0, i as int)).contains_key(key@),
                self@.contains_key(key@) ==> self@[key@] == table_map(
                    all.subrange(0, i as int),
                )[key@],
            decreases i,
        {
            let entry = &self.entries[i - 1];
            assert(all.subrange(0, i as int).drop_last() =~= all.subrange(0, i - 1));
            assert(all.subrange(0, i as int).last() == all[i - 1]);
            if same(entry.0.as_str(), key) {
                return Some(&entry.1);
            }
            i = i - 1;
        }
        None
    }

    pub fn copy(&self) -> (r: Table<V>) where V: Duplicate
        ensures
            r@ == self@,
    {
        let mut out: Table<V> = Table::new();
        let mut i: usize = 0;
        let ghost all = self.entries@;
        while i < self.entries.len()
            invariant
                i <= all.len(),
                all == self.entries@,
                out@ == table_map(all.subrange(0, i as int)),
            decreases all.len() - i,
        {
            let entry = &self.entries[i];
            out.insert(entry.0.clone(), entry.1.duplicate());
            assert(all.subrange(0, i + 1).drop_last() =~= all.subrange(0, i as int));
            i = i + 1;
        }
        assert(all.subrange(0, i as int) =~= all);
        out
    }

    pub fn contains_key(&self, key: &str) -> (r: bool)
        ensures
            r == self@.contains_key(key@),
    {
        self.get(key).is_some()
    }
}

} // verus!
