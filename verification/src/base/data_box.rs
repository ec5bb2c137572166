//! A small string-keyed store for simple values. It models the kind of loose
//! metadata that items, tracks and timelines carry: retrieval by key and
//! expected kind, where a missing key and a value of another kind both read
//! as absent.

use vstd::prelude::*;

verus! {

/// A stored value: a whole number, a piece of text, or a flag.
#[derive(Debug)]
pub enum Value {
    Integer(i128),
    Text(String),
    Flag(bool),
}

/// The mathematical shape of a stored value.
pub ghost enum ValueModel {
    Integer(int),
    Text(Seq<char>),
    Flag(bool),
}

impl View for Value {
    type V = ValueModel;

    open spec fn view(&self) -> ValueModel {
        match self {
            Value::Integer(i) => ValueModel::Integer(*i as int),
            Value::Text(s) => ValueModel::Text(s@),
            Value::Flag(b) => ValueModel::Flag(*b),
        }
    }
}

impl PartialEq for Value {
    /// Two values are equal when they have the same kind and hold the same
    /// thing.
    fn eq(&self, other: &Value) -> (r: bool) {
        match (self, other) {
            (Value::Integer(a), Value::Integer(b)) => *a == *b,
            (Value::Text(a), Value::Text(b)) => a.eq(b),
            (Value::Flag(a), Value::Flag(b)) => *a == *b,
            _ => false,
        }
    }
}

impl vstd::std_specs::cmp::PartialEqSpecImpl for Value {
    open spec fn obeys_eq_spec() -> bool {
        true
    }

    open spec fn eq_spec(&self, other: &Value) -> bool {
        self@ == other@
    }
}

impl Eq for Value {

}

impl Clone for Value {
    /// A clone stands for the same value.
    fn clone(&self) -> (r: Value)
        ensures
            r@ == self@,
    {
        match self {
            Value::Integer(i) => Value::Integer(*i),
            Value::Text(s) => Value::Text(s.clone()),
            Value::Flag(b) => Value::Flag(*b),
        }
    }
}

/// Whether no two entries share a key.
pub open spec fn unique_keys(s: Seq<(String, Value)>) -> bool {
    forall|i: int, j: int| 0 <= i < j < s.len() ==> (#[trigger] s[i]).0@ != (#[trigger] s[j]).0@
}

/// The map an entry list stands for; a later entry would shadow an earlier
/// one with the same key.
pub open spec fn entries_map(s: Seq<(String, Value)>) -> Map<Seq<char>, ValueModel>
    decreases s.len(),
{
    if s.len() == 0 {
        Map::empty()
    } else {
        entries_map(s.drop_last()).insert(s.last().0@, s.last().1@)
    }
}

/// What the map of an entry list with unique keys holds: exactly the listed
/// keys, each with its listed value.
pub proof fn lemma_entries_map_characterize(s: Seq<(String, Value)>)
    requires
        unique_keys(s),
    ensures
        forall|key: Seq<char>|
            #[trigger] entries_map(s).contains_key(key) <==> exists|k: int|
                0 <= k < s.len() && (#[trigger] s[k]).0@ == key,
        forall|k: int|
            0 <= k < s.len() ==> entries_map(s)[(#[trigger] s[k]).0@] == s[k].1@,
    decreases s.len(),
{
    if s.len() > 0 {
        let pre = s.drop_last();
        assert(forall|k: int| 0 <= k < pre.len() ==> #[trigger] pre[k] == s[k]);
        assert(unique_keys(pre));
        lemma_entries_map_characterize(pre);
        let m = entries_map(s);
        assert(m == entries_map(pre).insert(s.last().0@, s.last().1@));
        assert forall|key: Seq<char>| #[trigger] m.contains_key(key) implies exists|k: int|
            0 <= k < s.len() && (#[trigger] s[k]).0@ == key by {
            if key == s.last().0@ {
                assert(0 <= s.len() - 1 < s.len() && s[s.len() - 1].0@ == key);
            } else {
                assert(entries_map(pre).contains_key(key));
                let k = choose|k: int| 0 <= k < pre.len() && (#[trigger] pre[k]).0@ == key;
                assert(0 <= k < s.len() && s[k].0@ == key);
            }
        }
        assert forall|key: Seq<char>|
            (exists|k: int| 0 <= k < s.len() && (#[trigger] s[k]).0@ == key) implies #[trigger]
            m.contains_key(key) by {
            let k = choose|k: int| 0 <= k < s.len() && (#[trigger] s[k]).0@ == key;
            if k < s.len() - 1 {
                assert(pre[k].0@ == key);
                assert(entries_map(pre).contains_key(key));
            }
        }
        assert forall|k: int| 0 <= k < s.len() implies m[(#[trigger] s[k]).0@] == s[k].1@ by {
            if k < s.len() - 1 {
                assert(pre[k] == s[k]);
                assert(s[k].0@ != s.last().0@);
                assert(entries_map(pre)[pre[k].0@] == pre[k].1@);
            }
        }
    }
}

/// A string-keyed store for simple values.
///
/// In contracts a store reads as a map from key text to value shape. Setting
/// a key replaces whatever it held before.
#[derive(Debug)]
pub struct DataBox {
    entries: Vec<(String, Value)>,
}

impl View for DataBox {
    type V = Map<Seq<char>, ValueModel>;

    closed spec fn view(&self) -> Map<Seq<char>, ValueModel> {
        entries_map(self.entries@)
    }
}

impl DataBox {
    #[verifier::type_invariant]
    spec fn wf(&self) -> bool {
        unique_keys(self.entries@)
    }

    /// An empty store.
    pub fn new() -> (d: DataBox)
        ensures
            d@ == Map::<Seq<char>, ValueModel>::empty(),
    {
        DataBox { entries: Vec::new() }
    }

    /// The index of the entry that holds `key`, if any.
    fn find(&self, key: &str) -> (r: Option<usize>)
        ensures
            match r {
                Some(i) => {
                    &&& i < self.entries@.len()
                    &&& self.entries@[i as int].0@ == key@
                },
                None => forall|k: int|
                    0 <= k < self.entries@.len() ==> (#[trigger] self.entries@[k]).0@ != key@,
            },
    {
        let key_string: String = String::from_str(key);
        let n: usize = self.entries.len();
        let mut i: usize = 0;
        while i < n
            invariant
                key_string@ == key@,
                n == self.entries@.len(),
                0 <= i <= n,
                forall|k: int| 0 <= k < i ==> (#[trigger] self.entries@[k]).0@ != key@,
            decreases n - i,
        {
            if self.entries[i].0 == key_string {
                return Some(i);
            }
            i = i + 1;
        }
        None
    }

    /// Read the value stored under `key`; absent when the key holds nothing.
    pub fn get(&self, key: &str) -> (r: Option<Value>)
        ensures
            match r {
                Some(v) => self@.contains_key(key@) && v@ == self@[key@],
                None => !self@.contains_key(key@),
            },
    {
        proof {
            use_type_invariant(&*self);
            lemma_entries_map_characterize(self.entries@);
        }
        match self.find(key) {
            Some(i) => Some(self.entries[i].1.clone()),
            None => None,
        }
    }

    /// Store `value` under `key`, replacing whatever the key held.
    pub fn set(&mut self, key: &str, value: Value)
        ensures
            final(self)@ == old(self)@.insert(key@, value@),
    {
        proof {
            use_type_invariant(&*self);
            lemma_entries_map_characterize(self.entries@);
        }
        let found = self.find(key);
        let mut entries: Vec<(String, Value)> = Vec::new();
        std::mem::swap(&mut entries, &mut self.entries);
        let ghost before = entries@;
        match found {
            Some(i) => {
                entries[i] = (String::from_str(key), value);
                proof {
                    assert(forall|k: int|
                        0 <= k < entries@.len() && k != i ==> #[trigger] entries@[k] == before[k]);
                    assert(unique_keys(entries@));
                    lemma_entries_map_characterize(entries@);
                    let lhs = entries_map(entries@);
                    let rhs = entries_map(before).insert(key@, entries@[i as int].1@);
                    assert forall|key2: Seq<char>| #[trigger]
                        lhs.contains_key(key2) implies rhs.contains_key(key2) by {
                        let k = choose|k: int|
                            0 <= k < entries@.len() && (#[trigger] entries@[k]).0@ == key2;
                        if k != i as int {
                            assert(before[k].0@ == key2);
                        }
                    }
                    assert forall|key2: Seq<char>| #[trigger]
                        rhs.contains_key(key2) implies lhs.contains_key(key2) by {
                        if key2 == key@ {
                            assert(entries@[i as int].0@ == key2);
                        } else {
                            let k = choose|k: int|
                                0 <= k < before.len() && (#[trigger] before[k]).0@ == key2;
                            assert(entries@[k].0@ == key2);
                        }
                    }
                    assert forall|key2: Seq<char>| #[trigger]
                        lhs.contains_key(key2) implies lhs[key2] == rhs[key2] by {
                        let k = choose|k: int|
                            0 <= k < entries@.len() && (#[trigger] entries@[k]).0@ == key2;
                        assert(lhs[key2] == entries@[k].1@);
                        if k == i as int {
                            assert(key2 == key@);
                        } else {
                            assert(key2 != key@);
                            assert(before[k].0@ == key2);
                            assert(entries_map(before)[key2] == before[k].1@);
                        }
                    }
                    assert(lhs =~= rhs);
                }
            },
            None => {
                entries.push((String::from_str(key), value));
                proof {
                    assert(entries@.drop_last() =~= before);
                    assert(unique_keys(entries@)) by {
                        assert(forall|k: int|
                            0 <= k < before.len() ==> #[trigger] entries@[k] == before[k]);
                    }
                }
            },
        }
        self.entries = entries;
    }

    /// Drop whatever `key` holds; a key that holds nothing is left as it is.
    pub fn erase(&mut self, key: &str)
        ensures
            final(self)@ == old(self)@.remove(key@),
    {
        proof {
            use_type_invariant(&*self);
            lemma_entries_map_characterize(self.entries@);
        }
        let found = self.find(key);
        match found {
            Some(i) => {
                let mut entries: Vec<(String, Value)> = Vec::new();
                std::mem::swap(&mut entries, &mut self.entries);
                let ghost before = entries@;
                entries.remove(i);
                proof {
                    assert(forall|a: int|
                        0 <= a < entries@.len() ==> #[trigger] entries@[a] == (
                        if a < i as int {
                            before[a]
                        } else {
                            before[a + 1]
                        }));
                    assert(unique_keys(entries@));
                    lemma_entries_map_characterize(entries@);
                    let lhs = entries_map(entries@);
                    let rhs = entries_map(before).remove(key@);
                    assert forall|key2: Seq<char>| #[trigger]
                        lhs.contains_key(key2) implies rhs.contains_key(key2) && lhs[key2]
                        == rhs[key2] by {
                        let k = choose|k: int|
                            0 <= k < entries@.len() && (#[trigger] entries@[k]).0@ == key2;
                        let kb: int = if k < i as int {
                            k
                        } else {
                            k + 1
                        };
                        assert(before[kb].0@ == key2);
                        assert(key2 != key@);
                        assert(entries_map(before)[key2] == before[kb].1@);
                        assert(lhs[key2] == entries@[k].1@);
                    }
                    assert forall|key2: Seq<char>| #[trigger]
                        rhs.contains_key(key2) implies lhs.contains_key(key2) by {
                        let kb = choose|k: int|
                            0 <= k < before.len() && (#[trigger] before[k]).0@ == key2;
                        let k: int = if kb < i as int {
                            kb
                        } else {
                            kb - 1
                        };
                        assert(kb != i as int);
                        assert(entries@[k].0@ == key2);
                    }
                    assert(lhs =~= rhs);
                }
                self.entries = entries;
            },
            None => {
                proof {
                    assert(entries_map(self.entries@) =~= entries_map(self.entries@).remove(key@));
                }
            },
        }
    }

    /// Drop everything the store holds.
    pub fn clear(&mut self)
        ensures
            final(self)@ == Map::<Seq<char>, ValueModel>::empty(),
    {
        self.entries = Vec::new();
    }

    /// Read the whole number stored under `key`; absent both when the key
    /// holds nothing and when it holds a value of another kind.
    pub fn get_integer(&self, key: &str) -> (r: Option<i128>)
        ensures
            match r {
                Some(i) => self@.contains_key(key@) && self@[key@] == ValueModel::Integer(i as int),
                None => !self@.contains_key(key@) || !(self@[key@] is Integer),
            },
    {
        match self.get(key) {
            Some(Value::Integer(i)) => Some(i),
            _ => None,
        }
    }

    /// Read the text stored under `key`; absent both when the key holds
    /// nothing and when it holds a value of another kind.
    pub fn get_text(&self, key: &str) -> (r: Option<String>)
        ensures
            match r {
                Some(s) => self@.contains_key(key@) && self@[key@] == ValueModel::Text(s@),
                None => !self@.contains_key(key@) || !(self@[key@] is Text),
            },
    {
        match self.get(key) {
            Some(Value::Text(s)) => Some(s),
            _ => None,
        }
    }

    /// Read the flag stored under `key`; absent both when the key holds
    /// nothing and when it holds a value of another kind.
    pub fn get_flag(&self, key: &str) -> (r: Option<bool>)
        ensures
            match r {
                Some(b) => self@.contains_key(key@) && self@[key@] == ValueModel::Flag(b),
                None => !self@.contains_key(key@) || !(self@[key@] is Flag),
            },
    {
        match self.get(key) {
            Some(Value::Flag(b)) => Some(b),
            _ => None,
        }
    }
}

impl Default for DataBox {
    /// An empty store.
    fn default() -> (d: DataBox)
        ensures
            d@ == Map::<Seq<char>, ValueModel>::empty(),
    {
        DataBox { entries: Vec::new() }
    }
}

impl Clone for DataBox {
    /// A clone stands for the same map.
    fn clone(&self) -> (r: DataBox)
        ensures
            r@ == self@,
    {
        proof {
            use_type_invariant(&*self);
        }
        let n: usize = self.entries.len();
        let mut entries: Vec<(String, Value)> = Vec::new();
        let mut i: usize = 0;
        while i < n
            invariant
                n == self.entries@.len(),
                0 <= i <= n,
                entries@.len() == i,
                forall|k: int| 0 <= k < i ==> #[trigger] entries@[k].0@ == self.entries@[k].0@,
                forall|k: int| 0 <= k < i ==> #[trigger] entries@[k].1@ == self.entries@[k].1@,
            decreases n - i,
        {
            let pair = (self.entries[i].0.clone(), self.entries[i].1.clone());
            entries.push(pair);
            i = i + 1;
        }
        let d = DataBox { entries };
        proof {
            lemma_entries_map_equal(self.entries@, d.entries@);
        }
        d
    }
}

/// Entry lists that agree key for key and value for value stand for the same
/// map.
proof fn lemma_entries_map_equal(a: Seq<(String, Value)>, b: Seq<(String, Value)>)
    requires
        a.len() == b.len(),
        forall|k: int| 0 <= k < a.len() ==> (#[trigger] a[k]).0@ == (#[trigger] b[k]).0@,
        forall|k: int| 0 <= k < a.len() ==> (#[trigger] a[k]).1@ == (#[trigger] b[k]).1@,
    ensures
        entries_map(a) == entries_map(b),
    decreases a.len(),
{
    if a.len() > 0 {
        assert(forall|k: int| 0 <= k < a.len() - 1 ==> #[trigger] a.drop_last()[k] == a[k]);
        assert(forall|k: int| 0 <= k < b.len() - 1 ==> #[trigger] b.drop_last()[k] == b[k]);
        lemma_entries_map_equal(a.drop_last(), b.drop_last());
    }
}

} // verus!
