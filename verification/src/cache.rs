//! The record that outlives a run: the terminals, the schedules fetched so
//! far, and the flush date they were fetched under.

use vstd::prelude::*;
use crate::model::{copy_terminals, Terminal, TerminalCombo, TerminalComboView, TerminalView};
use crate::text::{decimal, push_decimal};
use crate::text::{lemma_decimal_has_no_blank, lemma_decimal_injective};

verus! {

/// A stored schedule with the key it is stored under.
pub type Entry = (Seq<char>, TerminalComboView);

/// The map that a list of entries stands for: a later entry replaces an
/// earlier one with the same key.
pub open spec fn as_map(entries: Seq<Entry>) -> Map<Seq<char>, TerminalComboView>
    decreases entries.len(),
{
    if entries.len() == 0 {
        Map::empty()
    } else {
        as_map(entries.drop_last()).insert(entries.last().0, entries.last().1)
    }
}

/// Whether no key occurs twice in a list of entries.
pub open spec fn keys_distinct(entries: Seq<Entry>) -> bool {
    forall|i: int, j: int|
        0 <= i < j < entries.len() ==> (#[trigger] entries[i]).0 != (#[trigger] entries[j]).0
}

/// The key under which the schedule from one terminal to another is stored:
/// the two identifiers in decimal with one blank between them.
pub open spec fn cache_key(from: int, to: int) -> Seq<char> {
    decimal(from) + seq![' '] + decimal(to)
}

/// The cache as plain values.
pub ghost struct CacheView {
    pub terminals: Seq<TerminalView>,
    pub sailings: Map<Seq<char>, TerminalComboView>,
    pub cache_flush_date: Seq<char>,
}

impl CacheView {
    /// The cache that holds nothing.
    pub open spec fn empty() -> CacheView {
        CacheView {
            terminals: Seq::empty(),
            sailings: Map::empty(),
            cache_flush_date: Seq::empty(),
        }
    }
}

/// The persisted record. Its schedules are kept as a list of entries in
/// which no key occurs twice.
#[derive(Debug)]
pub struct Cache {
    terminals: Vec<Terminal>,
    sailings: Vec<(String, TerminalCombo)>,
    cache_flush_date: String,
}

impl View for Cache {
    type V = CacheView;

    closed spec fn view(&self) -> CacheView {
        CacheView {
            terminals: self.terminals.deep_view(),
            sailings: as_map(self.sailings.deep_view()),
            cache_flush_date: self.cache_flush_date@,
        }
    }
}

impl Cache {
    #[verifier::type_invariant]
    spec fn well_formed(self) -> bool {
        keys_distinct(self.sailings.deep_view())
    }

    /// The cache that holds nothing.
    pub fn empty() -> (r: Cache)
        ensures
            r@ == CacheView::empty(),
    {
        let r = Cache { terminals: Vec::new(), sailings: Vec::new(), cache_flush_date: String::new() };
        assert(r.terminals.deep_view() =~= Seq::empty());
        assert(r.sailings.deep_view() =~= Seq::empty());
        r
    }

    /// The key under which the schedule from one terminal to another is stored.
    pub fn key(from: i32, to: i32) -> (r: String)
        ensures
            r@ == cache_key(from as int, to as int),
    {
        proof {
            reveal_strlit(" ");
            assert(" "@ =~= seq![' ']);
        }
        let mut out: String = String::new();
        push_decimal(&mut out, from as i64);
        out.append(" ");
        push_decimal(&mut out, to as i64);
        assert(out@ =~= cache_key(from as int, to as int));
        out
    }

    /// Where in the list the entry with the given key stands.
    fn position(list: &Vec<(String, TerminalCombo)>, key: &str) -> (r: Option<usize>)
        ensures
            match r {
                Some(i) => i < list.len() && list.deep_view()[i as int].0 == key@,
                None => forall|j: int|
                    0 <= j < list.len() ==> (#[trigger] list.deep_view()[j]).0 != key@,
            },
    {
        let wanted: String = key.to_owned();
        let mut i: usize = 0;
        while i < list.len()
            invariant
                i <= list.len(),
                wanted@ == key@,
                forall|j: int| 0 <= j < i ==> (#[trigger] list.deep_view()[j]).0 != key@,
            decreases list.len() - i,
        {
            assert(list.deep_view()[i as int].0 == list[i as int].0@);
            if list[i].0 == wanted {
                return Some(i);
            }
            i = i + 1;
        }
        None
    }

    /// Whether a schedule is stored under `key`.
    pub fn contains_sailing(&self, key: &str) -> (r: bool)
        ensures
            r == self@.sailings.dom().contains(key@),
    {
        proof {
            use_type_invariant(self);
            lemma_as_map_keys(self.sailings.deep_view(), key@);
        }
        Cache::position(&self.sailings, key).is_some()
    }

    /// The schedule stored under `key`, if there is one.
    pub fn sailing(&self, key: &str) -> (r: Option<&TerminalCombo>)
        ensures
            match r {
                Some(combo) => self@.sailings.dom().contains(key@) && self@.sailings[key@]
                    == combo@,
                None => !self@.sailings.dom().contains(key@),
            },
    {
        proof {
            use_type_invariant(self);
            lemma_as_map_keys(self.sailings.deep_view(), key@);
        }
        match Cache::position(&self.sailings, key) {
            Some(i) => {
                proof {
                    lemma_as_map_holds_entry(self.sailings.deep_view(), i as int);
                    assert(self.sailings.deep_view()[i as int].1 == self.sailings[i as int].1@);
                }
                Some(&self.sailings[i].1)
            },
            None => None,
        }
    }

    /// Stores `combo` under `key`, in place of what was stored there.
    pub fn insert_sailing(&mut self, key: String, combo: TerminalCombo)
        ensures
            final(self)@ == (CacheView {
                sailings: old(self)@.sailings.insert(key@, combo@),
                ..old(self)@
            }),
    {
        proof {
            use_type_invariant(&*self);
        }
        let mut list: Vec<(String, TerminalCombo)> = Vec::new();
        std::mem::swap(&mut list, &mut self.sailings);
        let ghost before = list.deep_view();
        match Cache::position(&list, key.as_str()) {
            Some(i) => {
                proof {
                    lemma_as_map_update(before, i as int, combo@);
                }
                list.set(i, (key, combo));
                assert(list.deep_view() =~= before.update(i as int, (before[i as int].0, combo@)));
            },
            None => {
                list.push((key, combo));
                assert(list.deep_view().drop_last() =~= before);
                assert(list.deep_view().last() == (key@, combo@));
                assert forall|a: int, b: int| 0 <= a < b < list.len() implies (
                #[trigger] list.deep_view()[a]).0 != (#[trigger] list.deep_view()[b]).0 by {
                    assert(list.deep_view()[a] == before[a]);
                    if b < before.len() {
                        assert(list.deep_view()[b] == before[b]);
                    }
                }
            },
        }
        self.sailings = list;
    }

    /// Forgets every stored schedule.
    pub fn clear_sailings(&mut self)
        ensures
            final(self)@ == (CacheView { sailings: Map::empty(), ..old(self)@ }),
    {
        let list: Vec<(String, TerminalCombo)> = Vec::new();
        assert(list.deep_view() =~= Seq::empty());
        self.sailings = list;
    }

    /// Replaces the list of terminals by `terminals`.
    pub fn set_terminals(&mut self, terminals: Vec<Terminal>)
        ensures
            final(self)@ == (CacheView { terminals: terminals.deep_view(), ..old(self)@ }),
    {
        proof {
            use_type_invariant(&*self);
        }
        self.terminals = terminals;
    }

    /// Replaces the flush date by `date`.
    pub fn set_flush_date(&mut self, date: String)
        ensures
            final(self)@ == (CacheView { cache_flush_date: date@, ..old(self)@ }),
    {
        proof {
            use_type_invariant(&*self);
        }
        self.cache_flush_date = date;
    }

    /// The terminals, in the order in which they were stored.
    pub fn terminals(&self) -> (r: &Vec<Terminal>)
        ensures
            r.deep_view() == self@.terminals,
    {
        &self.terminals
    }

    /// The flush date under which the contents were fetched.
    pub fn flush_date(&self) -> (r: &str)
        ensures
            r@ == self@.cache_flush_date,
    {
        self.cache_flush_date.as_str()
    }

    /// Whether the contents were fetched under the flush date `date`.
    pub fn has_flush_date(&self, date: &String) -> (r: bool)
        ensures
            r == (self@.cache_flush_date == date@),
    {
        self.cache_flush_date == *date
    }

    /// The stored schedules as a list of entries, each key once.
    pub fn entries(&self) -> (r: &Vec<(String, TerminalCombo)>)
        ensures
            as_map(r.deep_view()) == self@.sailings,
            keys_distinct(r.deep_view()),
    {
        proof {
            use_type_invariant(self);
        }
        &self.sailings
    }

    /// How many schedules are stored.
    pub fn sailing_count(&self) -> (r: usize)
        ensures
            r == self@.sailings.dom().len(),
    {
        proof {
            use_type_invariant(self);
            lemma_as_map_size(self.sailings.deep_view());
        }
        self.sailings.len()
    }

    /// The cache made of the given parts. Of two entries with the same key
    /// the later one is kept.
    pub fn from_parts(
        terminals: Vec<Terminal>,
        sailings: Vec<(String, TerminalCombo)>,
        cache_flush_date: String,
    ) -> (r: Cache)
        ensures
            r@ == (CacheView {
                terminals: terminals.deep_view(),
                sailings: as_map(sailings.deep_view()),
                cache_flush_date: cache_flush_date@,
            }),
    {
        let mut cache = Cache { terminals, sailings: Vec::new(), cache_flush_date };
        assert(cache.sailings.deep_view() =~= Seq::empty());
        let mut i: usize = 0;
        while i < sailings.len()
            invariant
                i <= sailings.len(),
                cache@ == (CacheView {
                    terminals: terminals.deep_view(),
                    sailings: as_map(sailings.deep_view().subrange(0, i as int)),
                    cache_flush_date: cache_flush_date@,
                }),
            decreases sailings.len() - i,
        {
            let ghost done = sailings.deep_view().subrange(0, i as int);
            let ghost next = sailings.deep_view().subrange(0, i + 1);
            assert(next.drop_last() =~= done);
            assert(next.last() == (sailings[i as int].0@, sailings[i as int].1@));
            cache.insert_sailing(sailings[i].0.clone(), sailings[i].1.clone());
            i = i + 1;
        }
        assert(sailings.deep_view().subrange(0, i as int) =~= sailings.deep_view());
        cache
    }
}

impl Clone for Cache {
    /// Takes the cache apart and builds it anew from the parts.
    fn clone(&self) -> (r: Self)
        ensures
            r@ == self@,
    {
        let entries: &Vec<(String, TerminalCombo)> = self.entries();
        let mut sailings: Vec<(String, TerminalCombo)> = Vec::new();
        let mut i: usize = 0;
        while i < entries.len()
            invariant
                i <= entries.len(),
                sailings.len() == i,
                forall|j: int|
                    0 <= j < i ==> (#[trigger] sailings.deep_view()[j]) == entries.deep_view()[j],
            decreases entries.len() - i,
        {
            let ghost before = sailings.deep_view();
            sailings.push((entries[i].0.clone(), entries[i].1.clone()));
            assert forall|j: int| 0 <= j < i + 1 implies (#[trigger] sailings.deep_view()[j])
                == entries.deep_view()[j] by {
                if j < i {
                    assert(sailings.deep_view()[j] == before[j]);
                }
            }
            i = i + 1;
        }
        assert(sailings.deep_view() =~= entries.deep_view());
        Cache::from_parts(
            copy_terminals(self.terminals()),
            sailings,
            self.flush_date().to_owned(),
        )
    }
}

/// Under distinct keys every entry of the list is in the map, with its own value.
pub proof fn lemma_as_map_holds_entry(entries: Seq<Entry>, i: int)
    requires
        keys_distinct(entries),
        0 <= i < entries.len(),
    ensures
        as_map(entries).dom().contains(entries[i].0),
        as_map(entries)[entries[i].0] == entries[i].1,
    decreases entries.len(),
{
    if i < entries.len() - 1 {
        let rest = entries.drop_last();
        assert(rest[i] == entries[i]);
        assert(entries.last() == entries[entries.len() - 1]);
        lemma_as_map_holds_entry(rest, i);
    }
}

/// The keys of the map are the keys that occur in the list.
pub proof fn lemma_as_map_keys(entries: Seq<Entry>, key: Seq<char>)
    ensures
        as_map(entries).dom().contains(key) <==> exists|i: int|
            0 <= i < entries.len() && (#[trigger] entries[i]).0 == key,
    decreases entries.len(),
{
    if entries.len() > 0 {
        let rest = entries.drop_last();
        lemma_as_map_keys(rest, key);
        if exists|i: int| 0 <= i < rest.len() && (#[trigger] rest[i]).0 == key {
            let i = choose|i: int| 0 <= i < rest.len() && (#[trigger] rest[i]).0 == key;
            assert(entries[i].0 == key);
        }
        if entries.last().0 == key {
            assert(entries[entries.len() - 1].0 == key);
        }
        if exists|i: int| 0 <= i < entries.len() && (#[trigger] entries[i]).0 == key {
            let i = choose|i: int| 0 <= i < entries.len() && (#[trigger] entries[i]).0 == key;
            if i < rest.len() {
                assert(rest[i].0 == key);
            }
        }
    }
}

/// Replacing the value of an entry in the list is storing that value under
/// the entry's key in the map.
pub proof fn lemma_as_map_update(entries: Seq<Entry>, i: int, value: TerminalComboView)
    requires
        keys_distinct(entries),
        0 <= i < entries.len(),
    ensures
        as_map(entries.update(i, (entries[i].0, value))) == as_map(entries).insert(
            entries[i].0,
            value,
        ),
        keys_distinct(entries.update(i, (entries[i].0, value))),
    decreases entries.len(),
{
    let key = entries[i].0;
    let updated = entries.update(i, (key, value));
    let rest = entries.drop_last();
    assert forall|a: int, b: int| 0 <= a < b < updated.len() implies (#[trigger] updated[a]).0 != (
    #[trigger] updated[b]).0 by {
        assert(updated[a].0 == entries[a].0);
        assert(updated[b].0 == entries[b].0);
    }
    if i == entries.len() - 1 {
        assert(updated.drop_last() =~= rest);
        assert(as_map(updated) =~= as_map(entries).insert(key, value));
    } else {
        assert(rest[i] == entries[i]);
        assert(updated.drop_last() =~= rest.update(i, (key, value)));
        lemma_as_map_update(rest, i, value);
        assert(entries[entries.len() - 1].0 != entries[i].0);
        assert(as_map(updated) =~= as_map(entries).insert(key, value));
    }
}

/// Under distinct keys the map has as many keys as the list has entries.
pub proof fn lemma_as_map_size(entries: Seq<Entry>)
    requires
        keys_distinct(entries),
    ensures
        as_map(entries).dom().finite(),
        as_map(entries).dom().len() == entries.len(),
    decreases entries.len(),
{
    if entries.len() > 0 {
        let rest = entries.drop_last();
        assert forall|a: int, b: int| 0 <= a < b < rest.len() implies (#[trigger] rest[a]).0 != (
        #[trigger] rest[b]).0 by {
            assert(rest[a] == entries[a]);
            assert(rest[b] == entries[b]);
        }
        lemma_as_map_size(rest);
        lemma_as_map_keys(rest, entries.last().0);
        if as_map(rest).dom().contains(entries.last().0) {
            let i = choose|i: int| 0 <= i < rest.len() && (#[trigger] rest[i]).0 == entries.last().0;
            assert(rest[i] == entries[i]);
            assert(entries[entries.len() - 1].0 == entries[i].0);
        }
    } else {
        assert(as_map(entries).dom() =~= Set::empty());
    }
}

/// Two pairs of terminals share a key only where they are the same pair,
/// in the same order.
pub proof fn lemma_cache_key_injective(a: int, b: int, c: int, d: int)
    ensures
        cache_key(a, b) == cache_key(c, d) <==> a == c && b == d,
{
    if cache_key(a, b) == cache_key(c, d) {
        let left = cache_key(a, b);
        let right = cache_key(c, d);
        let n = decimal(a).len() as int;
        let m = decimal(c).len() as int;
        lemma_decimal_has_no_blank(a);
        lemma_decimal_has_no_blank(c);
        assert(left[n] == ' ');
        assert(right[m] == ' ');
        if n < m {
            assert(right[n] == decimal(c)[n]);
        }
        if m < n {
            assert(left[m] == decimal(a)[m]);
        }
        assert(n == m);
        assert(decimal(a) =~= left.subrange(0, n));
        assert(decimal(c) =~= right.subrange(0, n));
        assert(decimal(b) =~= left.subrange(n + 1, left.len() as int));
        assert(decimal(d) =~= right.subrange(n + 1, right.len() as int));
        lemma_decimal_injective(a, c);
        lemma_decimal_injective(b, d);
    }
}

/// The order of the entries does not matter: two lists with distinct keys
/// that hold the same entries stand for the same map.
pub proof fn lemma_as_map_ignores_order(first: Seq<Entry>, second: Seq<Entry>)
    requires
        keys_distinct(first),
        keys_distinct(second),
        forall|entry: Entry| first.contains(entry) <==> second.contains(entry),
    ensures
        as_map(first) == as_map(second),
{
    assert forall|key: Seq<char>| #[trigger]
        as_map(first).dom().contains(key) implies as_map(second).dom().contains(key) && as_map(
        first,
    )[key] == as_map(second)[key] by {
        lemma_as_map_keys(first, key);
        let i = choose|i: int| 0 <= i < first.len() && (#[trigger] first[i]).0 == key;
        lemma_as_map_holds_entry(first, i);
        assert(first.contains(first[i]));
        let j = choose|j: int| 0 <= j < second.len() && second[j] == first[i];
        lemma_as_map_holds_entry(second, j);
    }
    assert forall|key: Seq<char>| #[trigger]
        as_map(second).dom().contains(key) implies as_map(first).dom().contains(key) by {
        lemma_as_map_keys(second, key);
        let j = choose|j: int| 0 <= j < second.len() && (#[trigger] second[j]).0 == key;
        assert(second.contains(second[j]));
        let i = choose|i: int| 0 <= i < first.len() && first[i] == second[j];
        lemma_as_map_holds_entry(first, i);
    }
    assert(as_map(first).dom() =~= as_map(second).dom());
    assert(as_map(first) =~= as_map(second));
}

} // verus!
