//! The ordered metadata map attached to every entity: property names to
//! tagged values, with unique keys.
//!
//! Entries keep their insertion order, so rendering a given map is
//! deterministic. Setting an existing key overwrites its value in place;
//! merging prefers the other map's value for shared keys.

use vstd::prelude::*;
use vstd::string::StringExecFns;
use crate::value::Value;
use crate::value::ValV;
use crate::value::value_str;
use crate::value::str_equal;

verus! {

/// The mathematical shape of a property list: keyed entries in order.
pub type EntriesV = Seq<(Seq<char>, ValV)>;

pub open spec fn has_key(s: EntriesV, k: Seq<char>) -> bool {
    exists|i: int| 0 <= i < s.len() && s[i].0 == k
}

pub open spec fn key_index(s: EntriesV, k: Seq<char>) -> int {
    choose|i: int| 0 <= i < s.len() && s[i].0 == k
}

pub open spec fn value_of_key(s: EntriesV, k: Seq<char>) -> ValV {
    s[key_index(s, k)].1
}

pub open spec fn unique_keys(s: EntriesV) -> bool {
    forall|i: int, j: int| 0 <= i < j < s.len() ==> s[i].0 != s[j].0
}

/// Insert-or-overwrite: an existing key keeps its position, a new key goes
/// to the end.
pub open spec fn set_entry(s: EntriesV, k: Seq<char>, v: ValV) -> EntriesV {
    if has_key(s, k) {
        s.update(key_index(s, k), (k, v))
    } else {
        s.push((k, v))
    }
}

/// Removal: a present key's entry disappears, a missing key changes nothing.
pub open spec fn remove_entry(s: EntriesV, k: Seq<char>) -> EntriesV {
    if has_key(s, k) {
        s.remove(key_index(s, k))
    } else {
        s
    }
}

/// Folding the entries of `b` into `a` from left to right.
pub open spec fn merge_entries(a: EntriesV, b: EntriesV) -> EntriesV
    decreases b.len(),
{
    if b.len() == 0 {
        a
    } else {
        merge_entries(set_entry(a, b[0].0, b[0].1), b.drop_first())
    }
}

/// What `set_entry` does, key by key.
pub proof fn lemma_set_entry(s: EntriesV, k: Seq<char>, v: ValV)
    requires
        unique_keys(s),
    ensures
        unique_keys(set_entry(s, k, v)),
        has_key(set_entry(s, k, v), k),
        value_of_key(set_entry(s, k, v), k) == v,
        forall|k2: Seq<char>| k2 != k ==> has_key(set_entry(s, k, v), k2) == has_key(s, k2),
        forall|k2: Seq<char>|
            k2 != k && has_key(s, k2) ==> value_of_key(set_entry(s, k, v), k2) == value_of_key(
                s,
                k2,
            ),
        set_entry(s, k, v).len() == if has_key(s, k) {
            s.len() as int
        } else {
            s.len() + 1 as int
        },
{
    let t = set_entry(s, k, v);
    if has_key(s, k) {
        let i0 = key_index(s, k);
        assert(0 <= i0 < s.len() && s[i0].0 == k);
        assert(t[i0].0 == k);
        assert(has_key(t, k));
        assert forall|j: int| 0 <= j < t.len() && t[j].0 == k implies j == i0 by {
            if j != i0 {
                assert(t[j] == s[j]);
            }
        }
        assert(t[key_index(t, k)].0 == k && 0 <= key_index(t, k) < t.len());
        assert(value_of_key(t, k) == v);
        assert forall|k2: Seq<char>| k2 != k implies has_key(t, k2) == has_key(s, k2) by {
            if has_key(s, k2) {
                let j = key_index(s, k2);
                assert(0 <= j < s.len() && s[j].0 == k2);
                assert(j != i0);
                assert(t[j].0 == k2);
            }
            if has_key(t, k2) {
                let j = key_index(t, k2);
                assert(0 <= j < t.len() && t[j].0 == k2);
                assert(j != i0);
                assert(s[j].0 == k2);
            }
        }
        assert forall|k2: Seq<char>|
            k2 != k && has_key(s, k2) implies value_of_key(t, k2) == value_of_key(s, k2) by {
            let j = key_index(s, k2);
            assert(0 <= j < s.len() && s[j].0 == k2);
            assert(j != i0);
            assert(t[j].0 == k2);
            let j2 = key_index(t, k2);
            assert(0 <= j2 < t.len() && t[j2].0 == k2);
            if j2 != i0 && j2 != j {
                assert(s[j2].0 == k2);
            }
            assert(j2 == j);
        }
    } else {
        assert(forall|i: int| 0 <= i < s.len() ==> s[i].0 != k);
        assert(t[s.len() as int].0 == k);
        assert(has_key(t, k));
        assert forall|j: int| 0 <= j < t.len() && t[j].0 == k implies j == s.len() by {
            if j < s.len() {
                assert(t[j] == s[j]);
            }
        }
        assert(t[key_index(t, k)].0 == k && 0 <= key_index(t, k) < t.len());
        assert(value_of_key(t, k) == v);
        assert forall|k2: Seq<char>| k2 != k implies has_key(t, k2) == has_key(s, k2) by {
            if has_key(s, k2) {
                let j = key_index(s, k2);
                assert(t[j].0 == k2);
            }
            if has_key(t, k2) {
                let j = key_index(t, k2);
                assert(j < s.len());
                assert(s[j].0 == k2);
            }
        }
        assert forall|k2: Seq<char>|
            k2 != k && has_key(s, k2) implies value_of_key(t, k2) == value_of_key(s, k2) by {
            let j = key_index(s, k2);
            assert(t[j].0 == k2);
            let j2 = key_index(t, k2);
            assert(0 <= j2 < t.len() && t[j2].0 == k2);
            assert(j2 < s.len());
            if j2 != j {
                assert(s[j2].0 == k2);
            }
            assert(j2 == j);
        }
    }
}

/// What `remove_entry` does, key by key.
pub proof fn lemma_remove_entry(s: EntriesV, k: Seq<char>)
    requires
        unique_keys(s),
    ensures
        unique_keys(remove_entry(s, k)),
        !has_key(remove_entry(s, k), k),
        forall|k2: Seq<char>| k2 != k ==> has_key(remove_entry(s, k), k2) == has_key(s, k2),
{
    let t = remove_entry(s, k);
    if has_key(s, k) {
        let i0 = key_index(s, k);
        assert(0 <= i0 < s.len() && s[i0].0 == k);
        assert(forall|j: int| 0 <= j < i0 ==> t[j] == s[j]);
        assert(forall|j: int| i0 <= j < t.len() ==> t[j] == s[j + 1]);
        assert forall|j: int| 0 <= j < t.len() implies t[j].0 != k by {
            if j < i0 {
                assert(t[j] == s[j]);
            } else {
                assert(t[j] == s[j + 1]);
            }
        }
        assert forall|i: int, j: int| 0 <= i < j < t.len() implies t[i].0 != t[j].0 by {
            if j < i0 {
            } else if i < i0 {
                assert(t[i] == s[i] && t[j] == s[j + 1]);
            } else {
                assert(t[i] == s[i + 1] && t[j] == s[j + 1]);
            }
        }
        assert forall|k2: Seq<char>| k2 != k implies has_key(t, k2) == has_key(s, k2) by {
            if has_key(s, k2) {
                let j = key_index(s, k2);
                assert(0 <= j < s.len() && s[j].0 == k2);
                assert(j != i0);
                if j < i0 {
                    assert(t[j].0 == k2);
                } else {
                    assert(t[j - 1].0 == k2);
                }
            }
            if has_key(t, k2) {
                let j = key_index(t, k2);
                assert(0 <= j < t.len() && t[j].0 == k2);
                if j < i0 {
                    assert(s[j].0 == k2);
                } else {
                    assert(s[j + 1].0 == k2);
                }
            }
        }
    }
}

/// Splitting a keyed sequence at its first entry.
proof fn lemma_key_front(b: EntriesV, k: Seq<char>)
    requires
        unique_keys(b),
        b.len() > 0,
    ensures
        unique_keys(b.drop_first()),
        has_key(b, k) == (b[0].0 == k || has_key(b.drop_first(), k)),
        b[0].0 == k ==> value_of_key(b, k) == b[0].1 && !has_key(b.drop_first(), k),
        (b[0].0 != k && has_key(b.drop_first(), k)) ==> value_of_key(b, k) == value_of_key(
            b.drop_first(),
            k,
        ),
{
    let r = b.drop_first();
    assert(forall|i: int| 0 <= i < r.len() ==> r[i] == b[i + 1]);
    if has_key(b, k) {
        let j = key_index(b, k);
        assert(0 <= j < b.len() && b[j].0 == k);
        if j > 0 {
            assert(r[j - 1].0 == k);
        }
    }
    if has_key(r, k) {
        let j = key_index(r, k);
        assert(0 <= j < r.len() && r[j].0 == k);
        assert(b[j + 1].0 == k);
    }
    if b[0].0 == k {
        assert(has_key(b, k));
        assert forall|j: int| 0 <= j < b.len() && b[j].0 == k implies j == 0 by {}
        assert(key_index(b, k) == 0);
        if has_key(r, k) {
            let j = key_index(r, k);
            assert(b[j + 1].0 == k);
        }
    } else if has_key(r, k) {
        let j = key_index(r, k);
        assert(b[j + 1].0 == k);
        let j2 = key_index(b, k);
        assert(0 <= j2 < b.len() && b[j2].0 == k);
        assert(j2 != 0);
        assert(r[j2 - 1].0 == k);
        let jr = key_index(r, k);
        assert(0 <= jr < r.len() && r[jr].0 == k);
        if jr != j2 - 1 {
            assert(b[jr + 1].0 == k);
        }
        assert(jr == j2 - 1);
        assert(value_of_key(b, k) == b[j2].1);
        assert(value_of_key(r, k) == r[j2 - 1].1);
    }
}

/// Merge semantics: keys only in `a` keep their value, keys in `b` take the
/// value from `b`, and keys only in `b` are added.
pub proof fn lemma_merge_semantics(a: EntriesV, b: EntriesV)
    requires
        unique_keys(a),
        unique_keys(b),
    ensures
        unique_keys(merge_entries(a, b)),
        forall|k: Seq<char>|
            has_key(merge_entries(a, b), k) == (has_key(a, k) || has_key(b, k)),
        forall|k: Seq<char>|
            has_key(b, k) ==> value_of_key(merge_entries(a, b), k) == value_of_key(b, k),
        forall|k: Seq<char>|
            !has_key(b, k) && has_key(a, k) ==> value_of_key(merge_entries(a, b), k)
                == value_of_key(a, k),
    decreases b.len(),
{
    if b.len() == 0 {
    } else {
        let k0 = b[0].0;
        let v0 = b[0].1;
        let a2 = set_entry(a, k0, v0);
        let rest = b.drop_first();
        lemma_set_entry(a, k0, v0);
        assert(unique_keys(rest)) by {
            lemma_key_front(b, k0);
        }
        lemma_merge_semantics(a2, rest);
        let m = merge_entries(a, b);
        assert(m == merge_entries(a2, rest));
        assert forall|k: Seq<char>|
            has_key(m, k) == (has_key(a, k) || has_key(b, k)) by {
            lemma_key_front(b, k);
        }
        assert forall|k: Seq<char>|
            has_key(b, k) implies value_of_key(m, k) == value_of_key(b, k) by {
            lemma_key_front(b, k);
            if b[0].0 == k {
                assert(!has_key(rest, k));
                assert(value_of_key(m, k) == value_of_key(a2, k));
                assert(value_of_key(a2, k) == v0);
            } else {
                assert(has_key(rest, k));
                assert(value_of_key(m, k) == value_of_key(rest, k));
            }
        }
        assert forall|k: Seq<char>|
            !has_key(b, k) && has_key(a, k) implies value_of_key(m, k) == value_of_key(
            a,
            k,
        ) by {
            lemma_key_front(b, k);
            assert(k != k0);
            assert(!has_key(rest, k));
            assert(has_key(a2, k));
            assert(value_of_key(m, k) == value_of_key(a2, k));
            assert(value_of_key(a2, k) == value_of_key(a, k));
        }
    }
}

/// How a property list is rendered: each entry as `key=value, ` between
/// brackets.
pub open spec fn entries_body(s: EntriesV) -> Seq<char>
    decreases s.len(),
{
    if s.len() == 0 {
        Seq::<char>::empty()
    } else {
        entries_body(s.drop_last()) + s.last().0 + "="@ + value_str(s.last().1) + ", "@
    }
}

pub open spec fn props_str(s: EntriesV) -> Seq<char> {
    "["@ + entries_body(s) + "]"@
}

/// An error raised by an indexed read of a key that is not there.
#[derive(Debug, Clone, Copy, PartialEq, Eq, Structural)]
pub enum PropsError {
    KeyNotFound,
}

/// A mapping from property names to values, rendered in insertion order.
#[derive(Debug, Clone, PartialEq)]
pub struct Properties {
    entries: Vec<(String, Value)>,
}

impl Properties {
    /// The entries in order, as plain data.
    pub closed spec fn entries_spec(&self) -> EntriesV {
        Seq::new(self.entries@.len(), |i: int| (self.entries@[i].0@, self.entries@[i].1@))
    }

    /// Keys are unique.
    pub open spec fn wf(&self) -> bool {
        unique_keys(self.entries_spec())
    }

    pub open spec fn spec_has(&self, k: Seq<char>) -> bool {
        has_key(self.entries_spec(), k)
    }

    pub open spec fn spec_value(&self, k: Seq<char>) -> ValV {
        value_of_key(self.entries_spec(), k)
    }

    /// An empty property map.
    pub fn new() -> (r: Properties)
        ensures
            r.wf(),
            r.entries_spec() == Seq::<(Seq<char>, ValV)>::empty(),
    {
        let r = Properties { entries: Vec::new() };
        proof {
            assert(r.entries_spec() =~= Seq::<(Seq<char>, ValV)>::empty());
        }
        r
    }

    fn find(&self, key: &str) -> (r: Option<usize>)
        requires
            self.wf(),
        ensures
            match r {
                Some(i) => i < self.entries@.len() && has_key(self.entries_spec(), key@)
                    && key_index(self.entries_spec(), key@) == i as int,
                None => !has_key(self.entries_spec(), key@),
            },
    {
        let n = self.entries.len();
        let mut i: usize = 0;
        while i < n
            invariant
                i <= n,
                n == self.entries@.len(),
                self.wf(),
                forall|j: int| 0 <= j < i ==> self.entries_spec()[j].0 != key@,
            decreases n - i,
        {
            if str_equal(self.entries[i].0.as_str(), key) {
                proof {
                    let s = self.entries_spec();
                    assert(s[i as int].0 == key@);
                    assert(has_key(s, key@));
                    let j = key_index(s, key@);
                    assert(0 <= j < s.len() && s[j].0 == key@);
                    if j != i as int {
                        assert(s[j].0 != s[i as int].0);
                    }
                }
                return Some(i);
            }
            i = i + 1;
        }
        None
    }

    /// Looks a key up.
    pub fn get(&self, key: &str) -> (r: Option<&Value>)
        requires
            self.wf(),
        ensures
            match r {
                Some(v) => self.spec_has(key@) && v@ == self.spec_value(key@),
                None => !self.spec_has(key@),
            },
    {
        match self.find(key) {
            Some(i) => Some(&self.entries[i].1),
            None => None,
        }
    }

    /// An indexed read: the value, or `KeyNotFound` exactly when the key is
    /// not there.
    pub fn get_required(&self, key: &str) -> (r: Result<&Value, PropsError>)
        requires
            self.wf(),
        ensures
            match r {
                Ok(v) => self.spec_has(key@) && v@ == self.spec_value(key@),
                Err(e) => !self.spec_has(key@) && e == PropsError::KeyNotFound,
            },
    {
        match self.find(key) {
            Some(i) => Ok(&self.entries[i].1),
            None => Err(PropsError::KeyNotFound),
        }
    }

    /// Inserts or overwrites a key.
    pub fn set(&mut self, key: &str, value: Value)
        requires
            old(self).wf(),
        ensures
            final(self).wf(),
            final(self).entries_spec() == set_entry(old(self).entries_spec(), key@, value@),
    {
        let ghost s0 = self.entries_spec();
        proof {
            lemma_set_entry(s0, key@, value@);
        }
        match self.find(key) {
            Some(i) => {
                let _ = self.entries.remove(i);
                self.entries.insert(i, (key.to_owned(), value));
                proof {
                    assert(self.entries_spec() =~= set_entry(s0, key@, value@));
                }
            },
            None => {
                self.entries.push((key.to_owned(), value));
                proof {
                    assert(self.entries_spec() =~= set_entry(s0, key@, value@));
                }
            },
        }
    }

    /// An indexed write's entry step: a missing key is auto-created
    /// holding the "none" value before any assignment; a present key is
    /// left as it is.
    pub fn ensure_key(&mut self, key: &str)
        requires
            old(self).wf(),
        ensures
            final(self).wf(),
            final(self).entries_spec() == if has_key(old(self).entries_spec(), key@) {
                old(self).entries_spec()
            } else {
                set_entry(old(self).entries_spec(), key@, ValV::Nothing)
            },
    {
        proof {
            lemma_set_entry(self.entries_spec(), key@, ValV::Nothing);
        }
        match self.find(key) {
            Some(_) => {},
            None => {
                self.set(key, Value::Nothing);
            },
        }
    }

    /// Deletes a key if present; does nothing otherwise.
    pub fn remove(&mut self, key: &str)
        requires
            old(self).wf(),
        ensures
            final(self).wf(),
            final(self).entries_spec() == remove_entry(old(self).entries_spec(), key@),
    {
        let ghost s0 = self.entries_spec();
        proof {
            lemma_remove_entry(s0, key@);
        }
        match self.find(key) {
            Some(i) => {
                let _ = self.entries.remove(i);
                proof {
                    assert(self.entries_spec() =~= remove_entry(s0, key@));
                }
            },
            None => {},
        }
    }

    /// A new map holding this map's entries overwritten by the other's.
    pub fn join(&self, other: &Properties) -> (r: Properties)
        requires
            self.wf(),
            other.wf(),
        ensures
            r.wf(),
            r.entries_spec() == merge_entries(self.entries_spec(), other.entries_spec()),
    {
        let mut result = Properties { entries: Vec::new() };
        let n = self.entries.len();
        let mut i: usize = 0;
        proof {
            assert(result.entries_spec() =~= self.entries_spec().take(0));
        }
        while i < n
            invariant
                i <= n,
                n == self.entries@.len(),
                self.wf(),
                result.entries_spec() == self.entries_spec().take(i as int),
            decreases n - i,
        {
            let ghost before = result.entries_spec();
            let key_copy = self.entries[i].0.clone();
            let val_copy = self.entries[i].1.duplicate();
            proof {
                assert(key_copy@ == self.entries@[i as int].0@);
                assert(val_copy@ == self.entries@[i as int].1@);
            }
            result.entries.push((key_copy, val_copy));
            i = i + 1;
            proof {
                assert(result.entries_spec() =~= before.push(
                    (self.entries@[i - 1].0@, self.entries@[i - 1].1@),
                ));
                assert(result.entries_spec() =~= self.entries_spec().take(i as int));
            }
        }
        proof {
            assert(self.entries_spec().take(n as int) =~= self.entries_spec());
            assert(result.entries_spec() == self.entries_spec());
        }
        let ghost total = merge_entries(self.entries_spec(), other.entries_spec());
        let m = other.entries.len();
        let mut j: usize = 0;
        proof {
            assert(other.entries_spec().skip(0) =~= other.entries_spec());
        }
        while j < m
            invariant
                j <= m,
                m == other.entries@.len(),
                other.wf(),
                result.wf(),
                merge_entries(result.entries_spec(), other.entries_spec().skip(j as int))
                    == total,
            decreases m - j,
        {
            let ghost before = result.entries_spec();
            let ghost rem = other.entries_spec().skip(j as int);
            let v = other.entries[j].1.duplicate();
            result.set(other.entries[j].0.as_str(), v);
            j = j + 1;
            proof {
                assert(rem[0] == other.entries_spec()[j - 1]);
                assert(rem.drop_first() =~= other.entries_spec().skip(j as int));
                assert(merge_entries(before, rem) == merge_entries(
                    set_entry(before, rem[0].0, rem[0].1),
                    rem.drop_first(),
                ));
            }
        }
        proof {
            assert(other.entries_spec().skip(m as int) =~= Seq::<(Seq<char>, ValV)>::empty());
        }
        result
    }

    /// Moves every entry of `other` into this map, overwriting shared keys;
    /// `other` is left empty.
    pub fn append(&mut self, other: &mut Properties)
        requires
            old(self).wf(),
            old(other).wf(),
        ensures
            final(self).wf(),
            final(self).entries_spec() == merge_entries(
                old(self).entries_spec(),
                old(other).entries_spec(),
            ),
            final(other).entries_spec() == Seq::<(Seq<char>, ValV)>::empty(),
    {
        let ghost total = merge_entries(old(self).entries_spec(), old(other).entries_spec());
        while other.entries.len() > 0
            invariant
                self.wf(),
                merge_entries(self.entries_spec(), other.entries_spec()) == total,
            decreases other.entries@.len(),
        {
            let ghost before_self = self.entries_spec();
            let ghost before_other = other.entries_spec();
            let e = other.entries.remove(0);
            let (k, v) = e;
            self.set(k.as_str(), v);
            proof {
                assert(other.entries_spec() =~= before_other.drop_first());
                assert(before_other[0] == (k@, v@));
                assert(merge_entries(before_self, before_other) == merge_entries(
                    set_entry(before_self, k@, v@),
                    before_other.drop_first(),
                ));
            }
        }
        proof {
            assert(other.entries_spec() =~= Seq::<(Seq<char>, ValV)>::empty());
        }
    }

    /// Inserts every pair in order, overwriting shared keys.
    pub fn extend(&mut self, pairs: Vec<(String, Value)>)
        requires
            old(self).wf(),
        ensures
            final(self).wf(),
            final(self).entries_spec() == merge_entries(
                old(self).entries_spec(),
                pairs_view(pairs@),
            ),
    {
        let ghost total = merge_entries(old(self).entries_spec(), pairs_view(pairs@));
        let mut rest = pairs;
        while rest.len() > 0
            invariant
                self.wf(),
                merge_entries(self.entries_spec(), pairs_view(rest@)) == total,
            decreases rest@.len(),
        {
            let ghost before_self = self.entries_spec();
            let ghost before_rest = pairs_view(rest@);
            let e = rest.remove(0);
            let (k, v) = e;
            self.set(k.as_str(), v);
            proof {
                assert(pairs_view(rest@) =~= before_rest.drop_first());
                assert(before_rest[0] == (k@, v@));
                assert(merge_entries(before_self, before_rest) == merge_entries(
                    set_entry(before_self, k@, v@),
                    before_rest.drop_first(),
                ));
            }
        }
        proof {
            assert(pairs_view(rest@) =~= Seq::<(Seq<char>, ValV)>::empty());
        }
    }

    /// Renders the map as `[k1=v1, k2=v2, ]`.
    pub fn render(&self) -> (r: String)
        ensures
            r@ == props_str(self.entries_spec()),
    {
        let mut out = String::from_str("[");
        let n = self.entries.len();
        let mut i: usize = 0;
        proof {
            assert(out@ =~= "["@ + entries_body(self.entries_spec().take(0)));
        }
        while i < n
            invariant
                i <= n,
                n == self.entries@.len(),
                out@ == "["@ + entries_body(self.entries_spec().take(i as int)),
            decreases n - i,
        {
            let ghost s = self.entries_spec();
            out.append(self.entries[i].0.as_str());
            out.append("=");
            let rendered = self.entries[i].1.render();
            out.append(rendered.as_str());
            out.append(", ");
            i = i + 1;
            proof {
                assert(s.take(i as int).drop_last() =~= s.take(i - 1));
                assert(s.take(i as int).last() == s[i - 1]);
                assert(out@ =~= "["@ + entries_body(s.take(i as int)));
            }
        }
        out.append("]");
        proof {
            assert(self.entries_spec().take(n as int) =~= self.entries_spec());
            assert(out@ =~= props_str(self.entries_spec()));
        }
        out
    }
}

/// Owned pairs as plain data.
pub open spec fn pairs_view(s: Seq<(String, Value)>) -> EntriesV {
    Seq::new(s.len(), |i: int| (s[i].0@, s[i].1@))
}

impl Default for Properties {
    /// An empty property map.
    fn default() -> (r: Properties)
        ensures
            r.wf(),
            r.entries_spec() == Seq::<(Seq<char>, ValV)>::empty(),
    {
        Properties::new()
    }
}

} // verus!
