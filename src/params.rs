//! Request parameter lists: each key at most once, later values replacing earlier ones.

use vstd::prelude::*;

verus! {

/// A list of request parameters. Each key appears at most once.
#[derive(Debug)]
pub struct ParamList {
    entries: Vec<(String, String)>,
}

/// Whether the keys of `entries` are pairwise distinct.
pub open spec fn distinct_keys(entries: Seq<(String, String)>) -> bool {
    forall|i: int, j: int|
        0 <= i < entries.len() && 0 <= j < entries.len() && i != j ==> (#[trigger] entries[i]).0@
            != (#[trigger] entries[j]).0@
}

/// The mapping from key to value that a list of distinct-key entries holds.
pub open spec fn entries_map(entries: Seq<(String, String)>) -> Map<Seq<char>, Seq<char>>
    decreases entries.len(),
{
    if entries.len() == 0 {
        Map::empty()
    } else {
        entries_map(entries.drop_last()).insert(entries.last().0@, entries.last().1@)
    }
}

impl ParamList {
    /// The key/value pairs, in the order they were first added.
    pub closed spec fn entries(&self) -> Seq<(String, String)> {
        self.entries@
    }

    /// The parameters as a mapping from key to value.
    pub closed spec fn view(&self) -> Map<Seq<char>, Seq<char>> {
        entries_map(self.entries@)
    }

    /// Whether each key appears once; every parameter list is.
    pub closed spec fn wf(&self) -> bool {
        distinct_keys(self.entries@)
    }

    /// Each key appears once.
    #[verifier::type_invariant]
    spec fn keys_distinct(&self) -> bool {
        distinct_keys(self.entries@)
    }

    /// A copy of this list.
    pub fn duplicate(&self) -> (r: ParamList)
        ensures
            r.wf(),
            r.view() == self.view(),
            r.entries().len() == self.entries().len(),
    {
        let mut entries: Vec<(String, String)> = Vec::new();
        let mut i: usize = 0;
        while i < self.entries.len()
            invariant
                i <= self.entries@.len(),
                entries@.len() == i,
                forall|j: int|
                    0 <= j < i ==> (#[trigger] entries@[j]).0@ == self.entries@[j].0@ && entries@[j].1@
                        == self.entries@[j].1@,
            decreases self.entries.len() - i,
        {
            let k = self.entries[i].0.clone();
            let v = self.entries[i].1.clone();
            entries.push((k, v));
            i = i + 1;
        }
        proof {
            use_type_invariant(self);
            lemma_same_texts(entries@, self.entries@);
        }
        ParamList { entries }
    }

    /// An empty parameter list.
    pub fn new() -> (r: ParamList)
        ensures
            r.wf(),
            r.view() == Map::<Seq<char>, Seq<char>>::empty(),
            r.entries().len() == 0,
    {
        ParamList { entries: Vec::new() }
    }

    /// The number of parameters.
    pub fn len(&self) -> (r: usize)
        ensures
            r == self.entries().len(),
    {
        self.entries.len()
    }

    /// The key and value of the parameter at `index`, in the order keys were first added.
    pub fn entry(&self, index: usize) -> (r: (&str, &str))
        requires
            index < self.entries().len(),
        ensures
            r.0@ == self.entries()[index as int].0@,
            r.1@ == self.entries()[index as int].1@,
    {
        (self.entries[index].0.as_str(), self.entries[index].1.as_str())
    }

    /// The value of `key`, if present.
    pub fn get(&self, key: &String) -> (r: Option<&String>)
        ensures
            r is Some <==> self.view().contains_key(key@),
            r is Some ==> r->0@ == self.view()[key@],
    {
        proof {
            use_type_invariant(self);
        }
        let mut i: usize = 0;
        while i < self.entries.len()
            invariant
                i <= self.entries@.len(),
                distinct_keys(self.entries@),
                forall|j: int| 0 <= j < i ==> (#[trigger] self.entries@[j]).0@ != key@,
            decreases self.entries.len() - i,
        {
            if self.entries[i].0 == *key {
                proof {
                    lemma_entries_map_at(self.entries@, i as int);
                }
                return Some(&self.entries[i].1);
            }
            i = i + 1;
        }
        proof {
            lemma_entries_map_absent(self.entries@, key@);
        }
        None
    }

    /// Set `key` to `value`, replacing an earlier value of the same key.
    pub fn add_param(&mut self, key: String, value: String)
        ensures
            final(self).wf(),
            final(self).view() == old(self).view().insert(key@, value@),
            final(self).entries().len() >= old(self).entries().len(),
            final(self).entries().len() >= 1,
    {
        let mut taken = ParamList::new();
        core::mem::swap(self, &mut taken);
        proof {
            use_type_invariant(&taken);
        }
        let ParamList { entries } = taken;
        let mut entries = entries;
        set_entry(&mut entries, key, value);
        *self = ParamList { entries };
    }
}

/// Set `key` to `value` in a list of distinct-key entries, replacing an earlier value of the
/// same key.
fn set_entry(entries: &mut Vec<(String, String)>, key: String, value: String)
    requires
        distinct_keys(old(entries)@),
    ensures
        distinct_keys(final(entries)@),
        entries_map(final(entries)@) == entries_map(old(entries)@).insert(key@, value@),
        final(entries)@.len() >= old(entries)@.len(),
        final(entries)@.len() >= 1,
{
        let mut i: usize = 0;
        while i < entries.len()
            invariant
                i <= entries@.len(),
                entries@ == old(entries)@,
                distinct_keys(entries@),
                forall|j: int| 0 <= j < i ==> (#[trigger] entries@[j]).0@ != key@,
            decreases entries.len() - i,
        {
            if entries[i].0 == key {
                let ghost before = entries@;
                entries.set(i, (key, value));
                proof {
                    lemma_entries_map_update(before, i as int, entries@[i as int]);
                }
                return;
            }
            i = i + 1;
        }
        let ghost before = entries@;
        entries.push((key, value));
        proof {
            lemma_entries_map_absent(before, key@);
            assert(entries@.drop_last() =~= before);
            assert forall|a: int, b: int|
                0 <= a < entries@.len() && 0 <= b < entries@.len() && a != b implies (
            #[trigger] entries@[a]).0@ != (#[trigger] entries@[b]).0@ by {
                if a < before.len() && b < before.len() {
                    assert(entries@[a] == before[a]);
                    assert(entries@[b] == before[b]);
                } else if a < before.len() {
                    assert(entries@[a] == before[a]);
                } else {
                    assert(entries@[b] == before[b]);
                }
            }
        }
}

/// A key that no entry holds is absent from the mapping.
pub proof fn lemma_entries_map_absent(entries: Seq<(String, String)>, key: Seq<char>)
    requires
        forall|j: int| 0 <= j < entries.len() ==> (#[trigger] entries[j]).0@ != key,
    ensures
        !entries_map(entries).contains_key(key),
    decreases entries.len(),
{
    if entries.len() > 0 {
        let init = entries.drop_last();
        assert forall|j: int| 0 <= j < init.len() implies (#[trigger] init[j]).0@ != key by {
            assert(init[j] == entries[j]);
        }
        lemma_entries_map_absent(init, key);
        assert(entries.last() == entries[entries.len() - 1]);
    }
}

/// With distinct keys, the mapping gives each entry's key that entry's value.
pub proof fn lemma_entries_map_at(entries: Seq<(String, String)>, i: int)
    requires
        distinct_keys(entries),
        0 <= i < entries.len(),
    ensures
        entries_map(entries).contains_key(entries[i].0@),
        entries_map(entries)[entries[i].0@] == entries[i].1@,
    decreases entries.len(),
{
    let init = entries.drop_last();
    if i < entries.len() - 1 {
        assert(init[i] == entries[i]);
        assert forall|a: int, b: int|
            0 <= a < init.len() && 0 <= b < init.len() && a != b implies (#[trigger] init[a]).0@
                != (#[trigger] init[b]).0@ by {
            assert(init[a] == entries[a]);
            assert(init[b] == entries[b]);
        }
        lemma_entries_map_at(init, i);
        assert(entries.last() == entries[entries.len() - 1]);
    }
}

/// Replacing the value of an entry, keeping its key, replaces that key's value in the mapping.
pub proof fn lemma_entries_map_update(entries: Seq<(String, String)>, i: int, e: (String, String))
    requires
        distinct_keys(entries),
        0 <= i < entries.len(),
        e.0@ == entries[i].0@,
    ensures
        distinct_keys(entries.update(i, e)),
        entries_map(entries.update(i, e)) == entries_map(entries).insert(e.0@, e.1@),
    decreases entries.len(),
{
    let updated = entries.update(i, e);
    assert forall|a: int, b: int|
        0 <= a < updated.len() && 0 <= b < updated.len() && a != b implies (
    #[trigger] updated[a]).0@ != (#[trigger] updated[b]).0@ by {
        assert(updated[a].0@ == entries[a].0@);
        assert(updated[b].0@ == entries[b].0@);
    }
    let init = entries.drop_last();
    let n = entries.len() - 1;
    assert forall|a: int, b: int|
        0 <= a < init.len() && 0 <= b < init.len() && a != b implies (#[trigger] init[a]).0@
            != (#[trigger] init[b]).0@ by {
        assert(init[a] == entries[a]);
        assert(init[b] == entries[b]);
    }
    if i == n {
        assert(updated.drop_last() =~= init);
        assert(entries.last() == entries[n]);
        assert(entries_map(updated) =~= entries_map(entries).insert(e.0@, e.1@));
    } else {
        lemma_entries_map_update(init, i, e);
        assert(updated.drop_last() =~= init.update(i, e));
        assert(updated.last() == entries.last());
        assert(entries.last() == entries[n]);
        assert(entries.last().0@ != e.0@);
        assert(entries_map(updated) =~= entries_map(entries).insert(e.0@, e.1@));
    }
}

/// A parameter list's mapping is the one its entries hold.
pub proof fn lemma_view_is_entries_map(p: ParamList)
    ensures
        p.view() == entries_map(p.entries()),
{
}

/// Entry lists with the same texts have the same mapping and the same key distinctness.
pub proof fn lemma_same_texts(a: Seq<(String, String)>, b: Seq<(String, String)>)
    requires
        a.len() == b.len(),
        forall|j: int| 0 <= j < a.len() ==> (#[trigger] a[j]).0@ == b[j].0@ && a[j].1@ == b[j].1@,
    ensures
        entries_map(a) == entries_map(b),
        distinct_keys(a) == distinct_keys(b),
    decreases a.len(),
{
    if a.len() > 0 {
        let n = a.len() - 1;
        assert forall|j: int| 0 <= j < n implies (#[trigger] a.drop_last()[j]).0@ == b.drop_last()[j].0@
            && a.drop_last()[j].1@ == b.drop_last()[j].1@ by {
            assert(a.drop_last()[j] == a[j]);
            assert(b.drop_last()[j] == b[j]);
        }
        lemma_same_texts(a.drop_last(), b.drop_last());
        assert(a.last() == a[n]);
        assert(b.last() == b[n]);
    }
    assert(distinct_keys(a) == distinct_keys(b)) by {
        if distinct_keys(a) {
            assert forall|i: int, j: int|
                0 <= i < b.len() && 0 <= j < b.len() && i != j implies (#[trigger] b[i]).0@
                    != (#[trigger] b[j]).0@ by {
                assert(a[i].0@ == b[i].0@);
                assert(a[j].0@ == b[j].0@);
            }
        }
        if distinct_keys(b) {
            assert forall|i: int, j: int|
                0 <= i < a.len() && 0 <= j < a.len() && i != j implies (#[trigger] a[i]).0@
                    != (#[trigger] a[j]).0@ by {
                assert(a[i].0@ == b[i].0@);
                assert(a[j].0@ == b[j].0@);
            }
        }
    }
}

/// The character of a decimal digit.
pub open spec fn digit_char(d: nat) -> char {
    if d == 0 {
        '0'
    } else if d == 1 {
        '1'
    } else if d == 2 {
        '2'
    } else if d == 3 {
        '3'
    } else if d == 4 {
        '4'
    } else if d == 5 {
        '5'
    } else if d == 6 {
        '6'
    } else if d == 7 {
        '7'
    } else if d == 8 {
        '8'
    } else {
        '9'
    }
}

/// A natural number written in decimal, without leading zeros.
pub open spec fn decimal_of(n: nat) -> Seq<char>
    decreases n,
{
    if n < 10 {
        seq![digit_char(n)]
    } else {
        decimal_of(n / 10) + seq![digit_char(n % 10)]
    }
}

/// An integer written in decimal, with a leading `-` when negative.
pub open spec fn signed_decimal_of(n: int) -> Seq<char> {
    if n < 0 {
        seq!['-'] + decimal_of((-n) as nat)
    } else {
        decimal_of(n as nat)
    }
}

fn digit_str(d: u64) -> (r: &'static str)
    requires
        d < 10,
    ensures
        r@ == seq![digit_char(d as nat)],
{
    proof {
        reveal_strlit("0");
        reveal_strlit("1");
        reveal_strlit("2");
        reveal_strlit("3");
        reveal_strlit("4");
        reveal_strlit("5");
        reveal_strlit("6");
        reveal_strlit("7");
        reveal_strlit("8");
        reveal_strlit("9");
    }
    if d == 0 {
        "0"
    } else if d == 1 {
        "1"
    } else if d == 2 {
        "2"
    } else if d == 3 {
        "3"
    } else if d == 4 {
        "4"
    } else if d == 5 {
        "5"
    } else if d == 6 {
        "6"
    } else if d == 7 {
        "7"
    } else if d == 8 {
        "8"
    } else {
        "9"
    }
}

/// Write a natural number in decimal.
pub fn decimal_string(n: u64) -> (r: String)
    ensures
        r@ == decimal_of(n as nat),
    decreases n,
{
    if n < 10 {
        digit_str(n).to_owned()
    } else {
        let mut s = decimal_string(n / 10);
        s.append(digit_str(n % 10));
        s
    }
}

/// Write an integer in decimal, with a leading `-` when negative.
pub fn signed_decimal_string(n: i32) -> (r: String)
    ensures
        r@ == signed_decimal_of(n as int),
{
    if n < 0 {
        let magnitude: u64 = (0i64 - n as i64) as u64;
        let mut s = "-".to_owned();
        proof {
            reveal_strlit("-");
        }
        s.append(decimal_string(magnitude).as_str());
        s
    } else {
        decimal_string(n as u64)
    }
}

} // verus!
