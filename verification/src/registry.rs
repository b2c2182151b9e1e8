use vstd::prelude::*;

verus! {

/// The built-in functions that the standard library registers, one for each
/// name that it sets in its library tables.
#[derive(Clone, Copy, PartialEq, Eq, Structural)]
pub enum Builtin {
    CoroutineCreate,
    CoroutineResume,
    CoroutineContinue,
    CoroutineStatus,
    CoroutineYield,
    CoroutineYieldTo,
    CoroutineRunning,
    StringLen,
    StringByte,
    StringChar,
    StringSub,
    StringLower,
    StringReverse,
    StringUpper,
    StringRep,
    StringFind,
    StringMatch,
    StringGmatch,
    StringGsub,
}

impl View for Builtin {
    type V = Builtin;

    open spec fn view(&self) -> Builtin {
        *self
    }
}

/// The map that a list of entries stands for, a later entry for a key
/// taking the place of an earlier one.
pub open spec fn entries_map<V: View>(s: Seq<(String, V)>) -> Map<Seq<char>, V::V>
    decreases s.len(),
{
    if s.len() == 0 {
        Map::empty()
    } else {
        entries_map(s.drop_last()).insert(s.last().0@, s.last().1@)
    }
}

/// No key occurs twice among the entries.
pub open spec fn keys_distinct<V>(s: Seq<(String, V)>) -> bool {
    forall|a: int, b: int| 0 <= a < b < s.len() ==> (#[trigger] s[a]).0@ != (#[trigger] s[b]).0@
}

proof fn lemma_entries_map_has<V: View>(s: Seq<(String, V)>, i: int)
    requires
        keys_distinct(s),
        0 <= i < s.len(),
    ensures
        entries_map(s).contains_key(s[i].0@),
        entries_map(s)[s[i].0@] == s[i].1@,
    decreases s.len(),
{
    if i < s.len() - 1 {
        let p = s.drop_last();
        assert(p[i] == s[i]);
        assert forall|a: int, b: int| 0 <= a < b < p.len() implies (#[trigger] p[a]).0@ != (
        #[trigger] p[b]).0@ by {
            assert(p[a] == s[a]);
            assert(p[b] == s[b]);
        }
        lemma_entries_map_has(p, i);
        assert(s[i].0@ != s[s.len() - 1].0@);
    }
}

proof fn lemma_entries_map_lacks<V: View>(s: Seq<(String, V)>, k: Seq<char>)
    requires
        forall|i: int| 0 <= i < s.len() ==> (#[trigger] s[i]).0@ != k,
    ensures
        !entries_map(s).contains_key(k),
    decreases s.len(),
{
    if s.len() > 0 {
        let p = s.drop_last();
        assert forall|i: int| 0 <= i < p.len() implies (#[trigger] p[i]).0@ != k by {
            assert(p[i] == s[i]);
        }
        lemma_entries_map_lacks(p, k);
        assert(s[s.len() - 1].0@ != k);
    }
}

proof fn lemma_entries_map_update<V: View>(s: Seq<(String, V)>, i: int, e: (String, V))
    requires
        keys_distinct(s),
        0 <= i < s.len(),
        e.0@ == s[i].0@,
    ensures
        entries_map(s.update(i, e)) =~= entries_map(s).insert(e.0@, e.1@),
    decreases s.len(),
{
    let t = s.update(i, e);
    if i == s.len() - 1 {
        assert(t.drop_last() =~= s.drop_last());
    } else {
        let p = s.drop_last();
        assert(t.drop_last() =~= p.update(i, e));
        assert forall|a: int, b: int| 0 <= a < b < p.len() implies (#[trigger] p[a]).0@ != (
        #[trigger] p[b]).0@ by {
            assert(p[a] == s[a]);
            assert(p[b] == s[b]);
        }
        lemma_entries_map_update(p, i, e);
        assert(s[i].0@ != s[s.len() - 1].0@);
        assert(t.last() == s.last());
    }
}

/// A table from names to values, such as the library tables and the
/// globals of a Lua state.
pub struct Table<V> {
    entries: Vec<(String, V)>,
}

impl<V: View> View for Table<V> {
    type V = Map<Seq<char>, V::V>;

    closed spec fn view(&self) -> Map<Seq<char>, V::V> {
        entries_map(self.entries@)
    }
}

impl<V> Table<V> {
    #[verifier::type_invariant]
    closed spec fn keys_unique(&self) -> bool {
        keys_distinct(self.entries@)
    }
}

impl<V: View> Table<V> {
    /// An empty table.
    pub fn new() -> (r: Table<V>)
        ensures
            r@ == Map::<Seq<char>, V::V>::empty(),
    {
        Table { entries: Vec::new() }
    }

    /// Sets `key` to `value`, in place of any value that `key` had.
    pub fn set(&mut self, key: String, value: V)
        ensures
            final(self)@ == old(self)@.insert(key@, value@),
    {
        proof {
            use_type_invariant(&*self);
        }
        let mut entries: Vec<(String, V)> = Vec::new();
        std::mem::swap(&mut entries, &mut self.entries);
        let ghost s = entries@;
        let mut i: usize = 0;
        let mut found = false;
        while i < entries.len()
            invariant
                entries@ == s,
                i <= s.len(),
                keys_distinct(s),
                !found ==> forall|j: int| 0 <= j < i ==> (#[trigger] s[j]).0@ != key@,
                found ==> i < s.len() && s[i as int].0@ == key@,
            ensures
                entries@ == s,
                found ==> i < s.len() && s[i as int].0@ == key@,
                !found ==> forall|j: int| 0 <= j < s.len() ==> (#[trigger] s[j]).0@ != key@,
            decreases s.len() - i,
        {
            if entries[i].0 == key {
                found = true;
                break;
            }
            i = i + 1;
        }
        if found {
            let ghost e = (key, value);
            proof {
                lemma_entries_map_update(s, i as int, e);
                assert forall|a: int, b: int|
                    0 <= a < b < s.update(i as int, e).len() implies (#[trigger] s.update(
                    i as int,
                    e,
                )[a]).0@ != (#[trigger] s.update(i as int, e)[b]).0@ by {}
            }
            entries.set(i, (key, value));
        } else {
            proof {
                assert(s.push((key, value)).drop_last() =~= s);
            }
            entries.push((key, value));
        }
        self.entries = entries;
    }

    /// The value of `key`, if it has one.
    pub fn get(&self, key: &str) -> (r: Option<&V>)
        ensures
            match r {
                Some(v) => self@.contains_key(key@) && self@[key@] == v@,
                None => !self@.contains_key(key@),
            },
    {
        proof {
            use_type_invariant(self);
        }
        let k = key.to_owned();
        let mut i: usize = 0;
        while i < self.entries.len()
            invariant
                k@ == key@,
                i <= self.entries@.len(),
                keys_distinct(self.entries@),
                forall|j: int| 0 <= j < i ==> (#[trigger] self.entries@[j]).0@ != key@,
            decreases self.entries@.len() - i,
        {
            if self.entries[i].0 == k {
                proof {
                    lemma_entries_map_has(self.entries@, i as int);
                }
                return Some(&self.entries[i].1);
            }
            i = i + 1;
        }
        proof {
            lemma_entries_map_lacks(self.entries@, key@);
        }
        None
    }
}

/// Reading a key of a table back after setting it gives the value that was
/// set, and every other key keeps its value.
pub proof fn lemma_read_after_write<V: View>(
    before: Table<V>,
    after: Table<V>,
    key: Seq<char>,
    value: V::V,
    other: Seq<char>,
)
    requires
        after@ == before@.insert(key, value),
    ensures
        after@.contains_key(key),
        after@[key] == value,
        other != key ==> (after@.contains_key(other) == before@.contains_key(other)),
        other != key && before@.contains_key(other) ==> after@[other] == before@[other],
{
}

/// The part of a Lua state that the standard library fills: its global
/// library tables.
pub struct Context {
    globals: Table<Table<Builtin>>,
}

impl View for Context {
    type V = Map<Seq<char>, Map<Seq<char>, Builtin>>;

    closed spec fn view(&self) -> Map<Seq<char>, Map<Seq<char>, Builtin>> {
        self.globals@
    }
}

impl Context {
    /// A state with no globals.
    pub fn new() -> (r: Context)
        ensures
            r@ == Map::<Seq<char>, Map<Seq<char>, Builtin>>::empty(),
    {
        Context { globals: Table::new() }
    }

    /// Sets the global `name` to the table `value`.
    pub fn set_global(&mut self, name: String, value: Table<Builtin>)
        ensures
            final(self)@ == old(self)@.insert(name@, value@),
    {
        self.globals.set(name, value);
    }

    /// The global table `name`, if there is one.
    pub fn get_global(&self, name: &str) -> (r: Option<&Table<Builtin>>)
        ensures
            match r {
                Some(t) => self@.contains_key(name@) && self@[name@] == t@,
                None => !self@.contains_key(name@),
            },
    {
        self.globals.get(name)
    }
}

} // verus!
