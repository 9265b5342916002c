//! The key-value store that owns all persisted state of the probe. It
//! offers typed string, list and hash-field operations with per-key
//! time-to-live bookkeeping, the semantics the pipeline relies on.
//!
//! The store is a sequence of entries with pairwise distinct keys; every
//! operation is specified through `at_key`, the observable state of one
//! key.
use vstd::prelude::*;

verus! {

/// Error of a store operation.
#[derive(Debug, Clone, Copy, PartialEq, Eq, Structural)]
pub enum StoreError {
    /// The instance was used before being connected.
    NotInitialized,
    /// The key (or hash field) is not present.
    Absent,
    /// The key holds a value of another kind than the operation expects.
    WrongKind,
    /// A list write carried no values.
    Empty,
}

/// One field of a hash value.
#[derive(Debug, Clone)]
pub struct HashField {
    pub field: String,
    pub value: String,
}

/// The value kinds a key can hold.
#[derive(Debug, Clone)]
pub enum StoreValue {
    StrVal(String),
    ListVal(Vec<String>),
    HashVal(Vec<HashField>),
}

/// One key of the store with its value and optional time-to-live.
#[derive(Debug, Clone)]
pub struct Entry {
    key: String,
    value: StoreValue,
    ttl: Option<i64>,
}

/// The observable state of one key.
#[verifier::ext_equal]
pub struct KeyState {
    pub present: bool,
    pub str_val: Option<Seq<char>>,
    pub list_val: Option<Seq<Seq<char>>>,
    pub hash_val: Option<Seq<(Seq<char>, Seq<char>)>>,
    pub ttl: Option<i64>,
}

/// The state of a key that is not in the store.
pub open spec fn absent_key_state() -> KeyState {
    KeyState { present: false, str_val: None, list_val: None, hash_val: None, ttl: None }
}

/// The state a string key holds.
pub open spec fn str_key_state(v: Seq<char>, ttl: Option<i64>) -> KeyState {
    KeyState { present: true, str_val: Some(v), list_val: None, hash_val: None, ttl }
}

/// The state a list key holds.
pub open spec fn list_key_state(l: Seq<Seq<char>>, ttl: Option<i64>) -> KeyState {
    KeyState { present: true, str_val: None, list_val: Some(l), hash_val: None, ttl }
}

/// The state a hash key holds.
pub open spec fn hash_key_state(h: Seq<(Seq<char>, Seq<char>)>, ttl: Option<i64>) -> KeyState {
    KeyState { present: true, str_val: None, list_val: None, hash_val: Some(h), ttl }
}

/// First-match lookup of a field in a hash.
pub open spec fn hash_lookup(fs: Seq<(Seq<char>, Seq<char>)>, f: Seq<char>) -> Option<Seq<char>>
    decreases fs.len(),
{
    if fs.len() == 0 {
        None
    } else if fs[0].0 == f {
        Some(fs[0].1)
    } else {
        hash_lookup(fs.drop_first(), f)
    }
}

spec fn state_of_value(v: StoreValue, ttl: Option<i64>) -> KeyState {
    match v {
        StoreValue::StrVal(s) => str_key_state(s@, ttl),
        StoreValue::ListVal(l) => list_key_state(l.deep_view(), ttl),
        StoreValue::HashVal(h) => hash_key_state(
            h@.map_values(|hf: HashField| (hf.field@, hf.value@)),
            ttl,
        ),
    }
}

spec fn state_of_entry(e: Entry) -> KeyState {
    state_of_value(e.value, e.ttl)
}

/// First-match lookup of a key in an entry sequence.
spec fn seq_at_key(s: Seq<Entry>, k: Seq<char>) -> KeyState
    decreases s.len(),
{
    if s.len() == 0 {
        absent_key_state()
    } else if s[0].key@ == k {
        state_of_entry(s[0])
    } else {
        seq_at_key(s.drop_first(), k)
    }
}

spec fn hash_fields_unique(h: Seq<HashField>) -> bool {
    forall|i: int, j: int| 0 <= i < j < h.len() ==> h[i].field@ != h[j].field@
}

spec fn entry_wf(e: Entry) -> bool {
    match e.value {
        StoreValue::HashVal(h) => hash_fields_unique(h@),
        _ => true,
    }
}

spec fn wf_entries(s: Seq<Entry>) -> bool {
    &&& forall|i: int, j: int| 0 <= i < j < s.len() ==> s[i].key@ != s[j].key@
    &&& forall|i: int| 0 <= i < s.len() ==> entry_wf(#[trigger] s[i])
}

proof fn lemma_present_exists(s: Seq<Entry>, k: Seq<char>)
    ensures
        seq_at_key(s, k).present <==> exists|i: int| 0 <= i < s.len() && s[i].key@ == k,
    decreases s.len(),
{
    if s.len() > 0 {
        lemma_present_exists(s.drop_first(), k);
        if s[0].key@ != k {
            if seq_at_key(s, k).present {
                let i = choose|i: int|
                    0 <= i < s.drop_first().len() && s.drop_first()[i].key@ == k;
                assert(s[i + 1].key@ == k);
            }
            if exists|i: int| 0 <= i < s.len() && s[i].key@ == k {
                let i = choose|i: int| 0 <= i < s.len() && s[i].key@ == k;
                assert(s.drop_first()[i - 1].key@ == k);
            }
        }
    }
}

proof fn lemma_at_key_push(s: Seq<Entry>, e: Entry)
    requires
        !seq_at_key(s, e.key@).present,
    ensures
        seq_at_key(s.push(e), e.key@) == state_of_entry(e),
        forall|k2: Seq<char>|
            k2 != e.key@ ==> #[trigger] seq_at_key(s.push(e), k2) == seq_at_key(s, k2),
    decreases s.len(),
{
    let t = s.push(e);
    if s.len() == 0 {
        assert(t[0] == e);
        assert(t.drop_first() =~= Seq::<Entry>::empty());
        assert forall|k2: Seq<char>| k2 != e.key@ implies #[trigger] seq_at_key(t, k2)
            == seq_at_key(s, k2) by {
            assert(seq_at_key(t, k2) == seq_at_key(t.drop_first(), k2));
            assert(seq_at_key(t.drop_first(), k2) == absent_key_state());
            assert(seq_at_key(s, k2) == absent_key_state());
        }
    } else {
        assert(t.drop_first() =~= s.drop_first().push(e));
        assert(t[0] == s[0]);
        lemma_at_key_push(s.drop_first(), e);
        assert forall|k2: Seq<char>| k2 != e.key@ implies #[trigger] seq_at_key(t, k2)
            == seq_at_key(s, k2) by {
            if s[0].key@ == k2 {
                assert(seq_at_key(t, k2) == state_of_entry(s[0]));
            } else {
                assert(seq_at_key(t, k2) == seq_at_key(s.drop_first().push(e), k2));
                assert(seq_at_key(s, k2) == seq_at_key(s.drop_first(), k2));
            }
        }
        if s[0].key@ == e.key@ {
            assert(seq_at_key(s, e.key@).present);
        }
        assert(seq_at_key(t, e.key@) == state_of_entry(e));
    }
}

proof fn lemma_at_key_update(s: Seq<Entry>, i: int, e: Entry)
    requires
        0 <= i < s.len(),
        e.key@ == s[i].key@,
        forall|j: int| 0 <= j < i ==> s[j].key@ != e.key@,
    ensures
        seq_at_key(s.update(i, e), e.key@) == state_of_entry(e),
        forall|k2: Seq<char>|
            k2 != e.key@ ==> #[trigger] seq_at_key(s.update(i, e), k2) == seq_at_key(s, k2),
    decreases s.len(),
{
    let t = s.update(i, e);
    if i == 0 {
        assert(t[0] == e);
        assert(t.drop_first() =~= s.drop_first());
        assert forall|k2: Seq<char>| k2 != e.key@ implies #[trigger] seq_at_key(t, k2)
            == seq_at_key(s, k2) by {
            assert(seq_at_key(t, k2) == seq_at_key(t.drop_first(), k2));
            assert(seq_at_key(s, k2) == seq_at_key(s.drop_first(), k2));
        }
    } else {
        assert(t[0] == s[0]);
        assert(t.drop_first() =~= s.drop_first().update(i - 1, e));
        lemma_at_key_update(s.drop_first(), i - 1, e);
        assert(s[0].key@ != e.key@);
        assert(seq_at_key(t, e.key@) == seq_at_key(s.drop_first().update(i - 1, e), e.key@));
        assert forall|k2: Seq<char>| k2 != e.key@ implies #[trigger] seq_at_key(t, k2)
            == seq_at_key(s, k2) by {
            if s[0].key@ == k2 {
                assert(seq_at_key(t, k2) == state_of_entry(s[0]));
            } else {
                assert(seq_at_key(t, k2) == seq_at_key(s.drop_first().update(i - 1, e), k2));
                assert(seq_at_key(s, k2) == seq_at_key(s.drop_first(), k2));
            }
        }
    }
}

proof fn lemma_at_key_remove(s: Seq<Entry>, i: int)
    requires
        0 <= i < s.len(),
        forall|j: int| 0 <= j < s.len() && j != i ==> s[j].key@ != s[i].key@,
    ensures
        seq_at_key(s.remove(i), s[i].key@) == absent_key_state(),
        forall|k2: Seq<char>|
            k2 != s[i].key@ ==> #[trigger] seq_at_key(s.remove(i), k2) == seq_at_key(s, k2),
    decreases s.len(),
{
    let t = s.remove(i);
    if i == 0 {
        assert(t =~= s.drop_first());
        assert forall|j: int| 0 <= j < s.drop_first().len() implies s.drop_first()[j].key@
            != s[0].key@ by {
            assert(s.drop_first()[j] == s[j + 1]);
        }
        lemma_seq_at_key_no_match(s.drop_first(), s[0].key@);
        assert forall|k2: Seq<char>| k2 != s[0].key@ implies #[trigger] seq_at_key(t, k2)
            == seq_at_key(s, k2) by {
            assert(seq_at_key(s, k2) == seq_at_key(s.drop_first(), k2));
        }
    } else {
        assert(t[0] == s[0]);
        assert(t.drop_first() =~= s.drop_first().remove(i - 1));
        assert(s.drop_first()[i - 1] == s[i]);
        assert forall|j: int| 0 <= j < s.drop_first().len() && j != i - 1 implies (
        #[trigger] s.drop_first()[j]).key@ != s.drop_first()[i - 1].key@ by {
            assert(s.drop_first()[j] == s[j + 1]);
        }
        lemma_at_key_remove(s.drop_first(), i - 1);
        assert(s[0].key@ != s[i].key@);
        assert(seq_at_key(t, s[i].key@) == seq_at_key(s.drop_first().remove(i - 1), s[i].key@));
        assert forall|k2: Seq<char>| k2 != s[i].key@ implies #[trigger] seq_at_key(t, k2)
            == seq_at_key(s, k2) by {
            if s[0].key@ == k2 {
                assert(seq_at_key(t, k2) == state_of_entry(s[0]));
            } else {
                assert(seq_at_key(t, k2) == seq_at_key(s.drop_first().remove(i - 1), k2));
                assert(seq_at_key(s, k2) == seq_at_key(s.drop_first(), k2));
            }
        }
    }
}

/// The shared key-value store instance.
#[derive(Debug, Clone)]
pub struct RedisInstance {
    entries: Vec<Entry>,
    init: bool,
    pub profile: String,
}

impl RedisInstance {
    /// A well-formed store: connected, keys pairwise distinct, hash fields
    /// pairwise distinct.
    pub closed spec fn wf(self) -> bool {
        &&& self.init
        &&& wf_entries(self.entries@)
    }

    /// The configuration profile this instance was connected with.
    pub closed spec fn profile_view(self) -> Seq<char> {
        self.profile@
    }

    /// The observable state of one key.
    pub closed spec fn at_key(self, k: Seq<char>) -> KeyState {
        seq_at_key(self.entries@, k)
    }

    /// Is the key present, of any kind?
    pub open spec fn has_key(self, k: Seq<char>) -> bool {
        self.at_key(k).present
    }

    /// The string value a key holds, if it holds one.
    pub open spec fn str_at(self, k: Seq<char>) -> Option<Seq<char>> {
        self.at_key(k).str_val
    }

    /// The list a key holds, if it holds one.
    pub open spec fn list_at(self, k: Seq<char>) -> Option<Seq<Seq<char>>> {
        self.at_key(k).list_val
    }

    /// The hash fields a key holds, if it holds a hash.
    pub open spec fn hash_fields_at(self, k: Seq<char>) -> Option<Seq<(Seq<char>, Seq<char>)>> {
        self.at_key(k).hash_val
    }

    /// The value of one hash field.
    pub open spec fn hash_at(self, k: Seq<char>, f: Seq<char>) -> Option<Seq<char>> {
        match self.hash_fields_at(k) {
            Some(fs) => hash_lookup(fs, f),
            None => None,
        }
    }

    /// The time-to-live recorded for a key.
    pub open spec fn ttl_at(self, k: Seq<char>) -> Option<i64> {
        self.at_key(k).ttl
    }

    /// Membership of a value in the list a key holds; false when the key
    /// holds no list.
    pub open spec fn list_contains(self, k: Seq<char>, v: Seq<char>) -> bool {
        match self.list_at(k) {
            Some(l) => l.contains(v),
            None => false,
        }
    }

    /// The keys of the store, in insertion order.
    pub closed spec fn keys(self) -> Seq<Seq<char>> {
        self.entries@.map_values(|e: Entry| e.key@)
    }

    /// Every key but `k` is in the same state in `pre` and `post`.
    pub open spec fn unchanged_except(pre: Self, post: Self, k: Seq<char>) -> bool {
        forall|k2: Seq<char>| k2 != k ==> #[trigger] post.at_key(k2) == pre.at_key(k2)
    }

    /// Every key but `ka` and `kb` is in the same state in `pre` and
    /// `post`.
    pub open spec fn unchanged_except2(pre: Self, post: Self, ka: Seq<char>, kb: Seq<char>) -> bool {
        forall|k2: Seq<char>|
            k2 != ka && k2 != kb ==> #[trigger] post.at_key(k2) == pre.at_key(k2)
    }

    /// Connect a fresh store instance; it holds no keys.
    pub fn new(profile: &str) -> (r: RedisInstance)
        ensures
            r.wf(),
            r.profile_view() == profile@,
            forall|k: Seq<char>| #[trigger] r.at_key(k) == absent_key_state(),
            r.keys() =~= Seq::<Seq<char>>::empty(),
    {
        let r = RedisInstance {
            entries: Vec::new(),
            init: true,
            profile: String::from_str(profile),
        };
        proof {
            assert(r.keys() =~= Seq::<Seq<char>>::empty());
        }
        r
    }

    /// Guard used by every operation: the instance must be connected.
    fn check_init(&self) -> (r: Result<bool, StoreError>)
        requires
            self.wf(),
        ensures
            r == Ok::<bool, StoreError>(true),
    {
        if self.init {
            Ok(true)
        } else {
            Err(StoreError::NotInitialized)
        }
    }

    /// Index of the entry holding `key`, when present; the first-match
    /// witness of `at_key`.
    fn find_index(&self, key: &str) -> (r: Option<usize>)
        requires
            self.wf(),
        ensures
            match r {
                Some(i) => i < self.entries@.len() && self.entries@[i as int].key@ == key@
                    && self.at_key(key@) == state_of_entry(self.entries@[i as int]) && (forall|
                    j: int,
                |
                    0 <= j < i ==> self.entries@[j].key@ != key@),
                None => self.at_key(key@) == absent_key_state(),
            },
    {
        let n = self.entries.len();
        let mut i: usize = 0;
        while i < n
            invariant
                i <= n,
                n == self.entries@.len(),
                forall|j: int| 0 <= j < i ==> self.entries@[j].key@ != key@,
            decreases n - i,
        {
            if crate::strutil::str_eq(self.entries[i].key.as_str(), key) {
                proof {
                    lemma_seq_at_key_first_match(self.entries@, key@, i as int);
                }
                return Some(i);
            }
            i += 1;
        }
        proof {
            lemma_seq_at_key_no_match(self.entries@, key@);
        }
        None
    }

    /// Install `e` as the one entry for its key, replacing any present
    /// entry wholesale.
    fn put_entry(&mut self, e: Entry)
        requires
            old(self).wf(),
            entry_wf(e),
        ensures
            final(self).wf(),
            final(self).at_key(e.key@) == state_of_entry(e),
            Self::unchanged_except(*old(self), *final(self), e.key@),
            final(self).keys() == (if old(self).has_key(e.key@) {
                old(self).keys()
            } else {
                old(self).keys().push(e.key@)
            }),
    {
        let ghost s0 = self.entries@;
        match self.find_index(e.key.as_str()) {
            Some(i) => {
                let ghost ek = e.key@;
                let _replaced = self.entries.remove(i);
                self.entries.insert(i, e);
                proof {
                    assert(self.entries@ =~= s0.update(i as int, e));
                    lemma_wf_update(s0, i as int, e);
                    lemma_at_key_update(s0, i as int, e);
                    lemma_keys_of_update(s0, i as int, e);
                }
            },
            None => {
                self.entries.push(e);
                proof {
                    lemma_wf_push(s0, e);
                    lemma_at_key_push(s0, e);
                    lemma_keys_of_push(s0, e);
                }
            },
        }
    }

    /// Read the string a key holds.
    pub fn get(&mut self, key: &str) -> (r: Result<String, StoreError>)
        requires
            old(self).wf(),
        ensures
            *final(self) == *old(self),
            match r {
                Ok(v) => old(self).str_at(key@) == Some(v@),
                Err(e) => old(self).str_at(key@) is None && (e == StoreError::Absent <==> !old(
                    self,
                ).has_key(key@)),
            },
    {
        match self.check_init() {
            Err(e) => {
                return Err(e);
            },
            Ok(_) => {},
        }
        match self.find_index(key) {
            None => Err(StoreError::Absent),
            Some(i) => match &self.entries[i].value {
                StoreValue::StrVal(s) => Ok(s.clone()),
                _ => Err(StoreError::WrongKind),
            },
        }
    }

    /// Store a string under a key; any previous value and time-to-live of
    /// the key are dropped.
    pub fn set(&mut self, key: &str, value: &str) -> (r: Result<(), StoreError>)
        requires
            old(self).wf(),
        ensures
            final(self).wf(),
            r is Ok,
            final(self).at_key(key@) == str_key_state(value@, None),
            Self::unchanged_except(*old(self), *final(self), key@),
            final(self).keys() == (if old(self).has_key(key@) {
                old(self).keys()
            } else {
                old(self).keys().push(key@)
            }),
    {
        match self.check_init() {
            Err(e) => {
                return Err(e);
            },
            Ok(_) => {},
        }
        let e = Entry {
            key: String::from_str(key),
            value: StoreValue::StrVal(String::from_str(value)),
            ttl: None,
        };
        self.put_entry(e);
        Ok(())
    }

    /// Store a string under a key with a time-to-live.
    pub fn set_with_expire(&mut self, key: &str, value: &str, expire: u64) -> (r: Result<
        (),
        StoreError,
    >)
        requires
            old(self).wf(),
            expire <= i64::MAX as u64,
        ensures
            final(self).wf(),
            r is Ok,
            final(self).at_key(key@) == str_key_state(value@, Some(expire as i64)),
            Self::unchanged_except(*old(self), *final(self), key@),
            final(self).keys() == (if old(self).has_key(key@) {
                old(self).keys()
            } else {
                old(self).keys().push(key@)
            }),
    {
        match self.check_init() {
            Err(e) => {
                return Err(e);
            },
            Ok(_) => {},
        }
        let e = Entry {
            key: String::from_str(key),
            value: StoreValue::StrVal(String::from_str(value)),
            ttl: Some(expire as i64),
        };
        self.put_entry(e);
        Ok(())
    }

    /// Record a time-to-live on a present key; a missing key is left
    /// alone.
    pub fn set_expire(&mut self, key: &str, expire: i64) -> (r: Result<(), StoreError>)
        requires
            old(self).wf(),
        ensures
            final(self).wf(),
            r is Ok,
            old(self).has_key(key@) ==> final(self).at_key(key@) == (KeyState {
                ttl: Some(expire),
                ..old(self).at_key(key@)
            }),
            !old(self).has_key(key@) ==> *final(self) == *old(self),
            Self::unchanged_except(*old(self), *final(self), key@),
            final(self).keys() == old(self).keys(),
    {
        match self.check_init() {
            Err(e) => {
                return Err(e);
            },
            Ok(_) => {},
        }
        let ghost s0 = self.entries@;
        match self.find_index(key) {
            None => Ok(()),
            Some(i) => {
                let mut ent = self.entries.remove(i);
                ent.ttl = Some(expire);
                self.entries.insert(i, ent);
                proof {
                    assert(self.entries@ =~= s0.update(i as int, self.entries@[i as int]));
                    let e2 = self.entries@[i as int];
                    assert(entry_wf(e2)) by {
                        assert(entry_wf(s0[i as int]));
                    }
                    lemma_wf_update(s0, i as int, e2);
                    lemma_at_key_update(s0, i as int, e2);
                    lemma_keys_of_update(s0, i as int, e2);
                    assert(state_of_entry(e2) =~= (KeyState {
                        ttl: Some(expire),
                        ..old(self).at_key(key@)
                    }));
                }
                Ok(())
            },
        }
    }

    /// Remove a key and whatever it holds.
    pub fn delete(&mut self, key: &str) -> (r: Result<(), StoreError>)
        requires
            old(self).wf(),
        ensures
            final(self).wf(),
            r is Ok,
            final(self).at_key(key@) == absent_key_state(),
            Self::unchanged_except(*old(self), *final(self), key@),
            final(self).keys() == (if old(self).has_key(key@) {
                old(self).keys().remove_value(key@)
            } else {
                old(self).keys()
            }),
    {
        match self.check_init() {
            Err(e) => {
                return Err(e);
            },
            Ok(_) => {},
        }
        let ghost s0 = self.entries@;
        match self.find_index(key) {
            None => Ok(()),
            Some(i) => {
                let _removed = self.entries.remove(i);
                proof {
                    lemma_wf_remove(s0, i as int);
                    lemma_at_key_remove(s0, i as int);
                    lemma_keys_of_remove(s0, i as int);
                    let ks = s0.map_values(|en: Entry| en.key@);
                    assert(ks[i as int] == key@);
                    assert forall|j: int| 0 <= j < i implies ks[j] != ks[i as int] by {
                        assert(s0[j].key@ != key@);
                    }
                    lemma_keys_remove_value(ks, i as int);
                }
                Ok(())
            },
        }
    }

    /// Is a key present, of any kind?
    pub fn key_exists(&mut self, key: &str) -> (r: Result<bool, StoreError>)
        requires
            old(self).wf(),
        ensures
            *final(self) == *old(self),
            r == Ok::<bool, StoreError>(old(self).has_key(key@)),
    {
        match self.check_init() {
            Err(e) => {
                return Err(e);
            },
            Ok(_) => {},
        }
        match self.find_index(key) {
            None => Ok(false),
            Some(_) => Ok(true),
        }
    }

    /// Append values to the list a key holds, creating the list when the
    /// key is absent.
    fn rpush(&mut self, key: &str, values: Vec<String>) -> (r: Result<(), StoreError>)
        requires
            old(self).wf(),
            values@.len() >= 1,
        ensures
            final(self).wf(),
            Self::unchanged_except(*old(self), *final(self), key@),
            match old(self).list_at(key@) {
                Some(l) => r is Ok && final(self).at_key(key@) == list_key_state(
                    l + values.deep_view(),
                    old(self).ttl_at(key@),
                ),
                None => {
                    if old(self).has_key(key@) {
                        r == Err::<(), StoreError>(StoreError::WrongKind) && final(self).at_key(
                            key@,
                        ) == old(self).at_key(key@)
                    } else {
                        r is Ok && final(self).at_key(key@) == list_key_state(
                            values.deep_view(),
                            None,
                        )
                    }
                },
            },
            final(self).keys() == (if old(self).has_key(key@) {
                old(self).keys()
            } else {
                old(self).keys().push(key@)
            }),
    {
        let ghost s0 = self.entries@;
        let ghost vdeep = values.deep_view();
        match self.find_index(key) {
            None => {
                let e = Entry {
                    key: String::from_str(key),
                    value: StoreValue::ListVal(values),
                    ttl: None,
                };
                self.entries.push(e);
                proof {
                    lemma_wf_push(s0, e);
                    lemma_at_key_push(s0, e);
                    lemma_keys_of_push(s0, e);
                }
                Ok(())
            },
            Some(i) => {
                let ent = self.entries.remove(i);
                let Entry { key: k0, value, ttl } = ent;
                match value {
                    StoreValue::ListVal(mut l) => {
                        let ghost l0 = l.deep_view();
                        let mut values = values;
                        l.append(&mut values);
                        proof {
                            assert(l.deep_view() =~= l0 + vdeep);
                        }
                        let e = Entry { key: k0, value: StoreValue::ListVal(l), ttl };
                        self.entries.insert(i, e);
                        proof {
                            assert(self.entries@ =~= s0.update(i as int, e));
                            lemma_wf_update(s0, i as int, e);
                            lemma_at_key_update(s0, i as int, e);
                            lemma_keys_of_update(s0, i as int, e);
                        }
                        Ok(())
                    },
                    other => {
                        let e = Entry { key: k0, value: other, ttl };
                        self.entries.insert(i, e);
                        proof {
                            assert(e == s0[i as int]);
                            assert(self.entries@ =~= s0);
                        }
                        Err(StoreError::WrongKind)
                    },
                }
            },
        }
    }

    /// Append the given values to a key's list.
    pub fn set_list(&mut self, key: &str, value: &Vec<String>) -> (r: Result<(), StoreError>)
        requires
            old(self).wf(),
        ensures
            final(self).wf(),
            Self::unchanged_except(*old(self), *final(self), key@),
            value@.len() == 0 ==> r == Err::<(), StoreError>(StoreError::Empty) && *final(self)
                == *old(self),
            value@.len() >= 1 ==> match old(self).list_at(key@) {
                Some(l) => r is Ok && final(self).at_key(key@) == list_key_state(
                    l + value.deep_view(),
                    old(self).ttl_at(key@),
                ),
                None => {
                    if old(self).has_key(key@) {
                        r == Err::<(), StoreError>(StoreError::WrongKind) && final(self).at_key(
                            key@,
                        ) == old(self).at_key(key@)
                    } else {
                        r is Ok && final(self).at_key(key@) == list_key_state(
                            value.deep_view(),
                            None,
                        )
                    }
                },
            },
            final(self).keys() == (if value@.len() == 0 || old(self).has_key(key@) {
                old(self).keys()
            } else {
                old(self).keys().push(key@)
            }),
    {
        match self.check_init() {
            Err(e) => {
                return Err(e);
            },
            Ok(_) => {},
        }
        if value.len() == 0 {
            return Err(StoreError::Empty);
        }
        self.rpush(key, crate::strutil::clone_string_vec(value))
    }

    /// Replace a key's list with the given values and record a
    /// time-to-live: delete-then-set semantics, so a previous value of any
    /// kind is dropped and an empty replacement leaves the key absent.
    pub fn set_list_expire(&mut self, key: &str, value: &Vec<String>, expire: i64) -> (r: Result<
        (),
        StoreError,
    >)
        requires
            old(self).wf(),
        ensures
            final(self).wf(),
            r is Ok,
            Self::unchanged_except(*old(self), *final(self), key@),
            final(self).at_key(key@) == (if value@.len() == 0 {
                absent_key_state()
            } else {
                list_key_state(value.deep_view(), Some(expire))
            }),
            final(self).keys() == ({
                let base = if old(self).has_key(key@) {
                    old(self).keys().remove_value(key@)
                } else {
                    old(self).keys()
                };
                if value@.len() == 0 {
                    base
                } else {
                    base.push(key@)
                }
            }),
    {
        match self.delete(key) {
            Err(e) => {
                return Err(e);
            },
            Ok(_) => {},
        }
        if value.len() == 0 {
            return Ok(());
        }
        let ghost mid = *self;
        match self.set_list(key, value) {
            Err(e) => {
                proof {
                    assert(false);
                }
                return Err(e);
            },
            Ok(_) => {},
        }
        let ghost mid2 = *self;
        let r = self.set_expire(key, expire);
        proof {
            assert(final(self).at_key(key@) =~= list_key_state(value.deep_view(), Some(expire)));
            assert forall|k2: Seq<char>| k2 != key@ implies #[trigger] final(self).at_key(k2)
                == old(self).at_key(k2) by {
                assert(mid.at_key(k2) == old(self).at_key(k2));
                assert(mid2.at_key(k2) == mid.at_key(k2));
                assert(final(self).at_key(k2) == mid2.at_key(k2));
            }
        }
        r
    }

    /// Append one value to a key's list.
    pub fn push_list(&mut self, key: &str, value: &str) -> (r: Result<(), StoreError>)
        requires
            old(self).wf(),
        ensures
            final(self).wf(),
            Self::unchanged_except(*old(self), *final(self), key@),
            match old(self).list_at(key@) {
                Some(l) => r is Ok && final(self).at_key(key@) == list_key_state(
                    l.push(value@),
                    old(self).ttl_at(key@),
                ),
                None => {
                    if old(self).has_key(key@) {
                        r == Err::<(), StoreError>(StoreError::WrongKind) && final(self).at_key(
                            key@,
                        ) == old(self).at_key(key@)
                    } else {
                        r is Ok && final(self).at_key(key@) == list_key_state(
                            seq![value@],
                            None,
                        )
                    }
                },
            },
            final(self).keys() == (if old(self).has_key(key@) {
                old(self).keys()
            } else {
                old(self).keys().push(key@)
            }),
    {
        match self.check_init() {
            Err(e) => {
                return Err(e);
            },
            Ok(_) => {},
        }
        let mut values: Vec<String> = Vec::new();
        values.push(String::from_str(value));
        proof {
            assert(values.deep_view() =~= seq![value@]);
            if old(self).list_at(key@) is Some {
                assert(old(self).list_at(key@).unwrap() + values.deep_view() =~= old(
                    self,
                ).list_at(key@).unwrap().push(value@));
            }
        }
        self.rpush(key, values)
    }

    /// Remove every occurrence of a value from a key's list; the key is
    /// dropped when the list becomes empty.
    pub fn remove_list(&mut self, key: &str, value: &str) -> (r: Result<(), StoreError>)
        requires
            old(self).wf(),
        ensures
            final(self).wf(),
            Self::unchanged_except(*old(self), *final(self), key@),
            match old(self).list_at(key@) {
                Some(l) => r is Ok && (if spec_remove_all(l, value@).len() == 0 {
                    final(self).at_key(key@) == absent_key_state()
                } else {
                    final(self).at_key(key@) == list_key_state(
                        spec_remove_all(l, value@),
                        old(self).ttl_at(key@),
                    )
                }),
                None => {
                    if old(self).has_key(key@) {
                        r == Err::<(), StoreError>(StoreError::WrongKind) && final(self).at_key(
                            key@,
                        ) == old(self).at_key(key@)
                    } else {
                        r is Ok && *final(self) == *old(self)
                    }
                },
            },
            final(self).keys() == (if old(self).list_at(key@) is Some && spec_remove_all(
                old(self).list_at(key@).unwrap(),
                value@,
            ).len() == 0 {
                old(self).keys().remove_value(key@)
            } else {
                old(self).keys()
            }),
    {
        match self.check_init() {
            Err(e) => {
                return Err(e);
            },
            Ok(_) => {},
        }
        let ghost s0 = self.entries@;
        match self.find_index(key) {
            None => Ok(()),
            Some(i) => {
                let ent = self.entries.remove(i);
                let Entry { key: k0, value: v0, ttl } = ent;
                match v0 {
                    StoreValue::ListVal(l) => {
                        let ghost l0 = l.deep_view();
                        let n = l.len();
                        let mut kept: Vec<String> = Vec::new();
                        let mut j: usize = 0;
                        while j < n
                            invariant
                                j <= n,
                                n == l@.len(),
                                kept.deep_view() =~= spec_remove_all(
                                    l.deep_view().subrange(0, j as int),
                                    value@,
                                ),
                            decreases n - j,
                        {
                            let ghost before = kept.deep_view();
                            let ghost pre = l.deep_view().subrange(0, j as int);
                            let ghost cur = l.deep_view().subrange(0, j + 1 as int);
                            proof {
                                assert(cur.drop_last() =~= pre);
                                assert(cur.last() == l@[j as int]@);
                            }
                            if !crate::strutil::str_eq(l[j].as_str(), value) {
                                kept.push(l[j].clone());
                                proof {
                                    assert(kept.deep_view() =~= before.push(l@[j as int]@));
                                    assert(spec_remove_all(cur, value@) =~= spec_remove_all(
                                        pre,
                                        value@,
                                    ).push(l@[j as int]@));
                                }
                            } else {
                                proof {
                                    assert(spec_remove_all(cur, value@) =~= spec_remove_all(
                                        pre,
                                        value@,
                                    ));
                                }
                            }
                            j += 1;
                        }
                        proof {
                            assert(l.deep_view().subrange(0, n as int) =~= l.deep_view());
                        }
                        if kept.len() == 0 {
                            proof {
                                lemma_wf_remove(s0, i as int);
                                lemma_at_key_remove(s0, i as int);
                                lemma_keys_of_remove(s0, i as int);
                                let ks = s0.map_values(|en: Entry| en.key@);
                                assert(ks[i as int] == key@);
                                assert forall|j2: int| 0 <= j2 < i implies ks[j2]
                                    != ks[i as int] by {
                                    assert(s0[j2].key@ != key@);
                                }
                                lemma_keys_remove_value(ks, i as int);
                            }
                            Ok(())
                        } else {
                            let e = Entry { key: k0, value: StoreValue::ListVal(kept), ttl };
                            self.entries.insert(i, e);
                            proof {
                                assert(self.entries@ =~= s0.update(i as int, e));
                                lemma_wf_update(s0, i as int, e);
                                lemma_at_key_update(s0, i as int, e);
                                lemma_keys_of_update(s0, i as int, e);
                            }
                            Ok(())
                        }
                    },
                    other => {
                        let e = Entry { key: k0, value: other, ttl };
                        self.entries.insert(i, e);
                        proof {
                            assert(e == s0[i as int]);
                            assert(self.entries@ =~= s0);
                        }
                        Err(StoreError::WrongKind)
                    },
                }
            },
        }
    }

    /// Read the whole list a key holds; an absent key reads as the empty
    /// list.
    pub fn get_list(&mut self, key: &str) -> (r: Result<Vec<String>, StoreError>)
        requires
            old(self).wf(),
        ensures
            *final(self) == *old(self),
            match old(self).list_at(key@) {
                Some(l) => r is Ok && r.unwrap().deep_view() == l,
                None => {
                    if old(self).has_key(key@) {
                        r == Err::<Vec<String>, StoreError>(StoreError::WrongKind)
                    } else {
                        r is Ok && r.unwrap().deep_view() == Seq::<Seq<char>>::empty()
                    }
                },
            },
    {
        match self.check_init() {
            Err(e) => {
                return Err(e);
            },
            Ok(_) => {},
        }
        match self.find_index(key) {
            None => {
                let r: Vec<String> = Vec::new();
                proof {
                    assert(r.deep_view() =~= Seq::<Seq<char>>::empty());
                }
                Ok(r)
            },
            Some(i) => match &self.entries[i].value {
                StoreValue::ListVal(l) => Ok(crate::strutil::clone_string_vec(l)),
                _ => Err(StoreError::WrongKind),
            },
        }
    }

    /// Is a value an element of a key's list? A key that holds no list
    /// reads as an empty one.
    pub fn exist_in_list(&mut self, key: &str, value: &str) -> (r: Result<bool, StoreError>)
        requires
            old(self).wf(),
        ensures
            *final(self) == *old(self),
            r == Ok::<bool, StoreError>(old(self).list_contains(key@, value@)),
    {
        match self.check_init() {
            Err(e) => {
                return Err(e);
            },
            Ok(_) => {},
        }
        match self.find_index(key) {
            None => Ok(false),
            Some(i) => match &self.entries[i].value {
                StoreValue::ListVal(l) => {
                    let ghost ld = l.deep_view();
                    let n = l.len();
                    let mut j: usize = 0;
                    while j < n
                        invariant
                            j <= n,
                            n == l@.len(),
                            ld == l.deep_view(),
                            forall|j2: int| 0 <= j2 < j ==> ld[j2] != value@,
                        decreases n - j,
                    {
                        if crate::strutil::str_eq(l[j].as_str(), value) {
                            proof {
                                assert(ld[j as int] == value@);
                            }
                            return Ok(true);
                        }
                        j += 1;
                    }
                    proof {
                        if ld.contains(value@) {
                            let w = choose|w: int| 0 <= w < ld.len() && ld[w] == value@;
                            assert(ld[w] != value@);
                        }
                    }
                    Ok(false)
                },
                _ => Ok(false),
            },
        }
    }

    /// All keys that match a glob pattern, in insertion order.
    pub fn get_all_keys(&mut self, key: &str) -> (r: Result<Vec<String>, StoreError>)
        requires
            old(self).wf(),
        ensures
            *final(self) == *old(self),
            r is Ok,
            r.unwrap().deep_view() == spec_matching_keys(old(self).keys(), key@),
    {
        match self.check_init() {
            Err(e) => {
                return Err(e);
            },
            Ok(_) => {},
        }
        let n = self.entries.len();
        let mut out: Vec<String> = Vec::new();
        let mut i: usize = 0;
        while i < n
            invariant
                i <= n,
                n == self.entries@.len(),
                out.deep_view() =~= spec_matching_keys(self.keys().subrange(0, i as int), key@),
            decreases n - i,
        {
            let ghost pre = self.keys().subrange(0, i as int);
            let ghost cur = self.keys().subrange(0, i + 1 as int);
            proof {
                assert(cur.drop_last() =~= pre);
                assert(cur.last() == self.entries@[i as int].key@);
            }
            if matches_pattern(key, self.entries[i].key.as_str()) {
                let ghost before = out.deep_view();
                out.push(self.entries[i].key.clone());
                proof {
                    assert(out.deep_view() =~= before.push(self.entries@[i as int].key@));
                }
            }
            i += 1;
        }
        proof {
            assert(self.keys().subrange(0, n as int) =~= self.keys());
        }
        Ok(out)
    }

    /// Of every key matching a glob pattern, the segment at the pattern's
    /// own depth: the scan used to discover tracked categories.
    pub fn get_all_keys_name(&mut self, key: &str) -> (r: Result<Vec<String>, StoreError>)
        requires
            old(self).wf(),
        ensures
            *final(self) == *old(self),
            r is Ok,
            r.unwrap().deep_view() == spec_keys_names(old(self).keys(), key@),
    {
        match self.check_init() {
            Err(e) => {
                return Err(e);
            },
            Ok(_) => {},
        }
        let pat_parts = crate::strutil::str_split(key, ':');
        let layer = pat_parts.len();
        let keys = match self.get_all_keys(key) {
            Ok(ks) => ks,
            Err(e) => {
                return Err(e);
            },
        };
        let ghost kd = keys.deep_view();
        let n = keys.len();
        let mut names: Vec<String> = Vec::new();
        let mut i: usize = 0;
        while i < n
            invariant
                i <= n,
                n == keys@.len(),
                kd == keys.deep_view(),
                layer as int == crate::strutil::spec_split(key@, ':').len(),
                names.deep_view() =~= spec_segment_names(kd.subrange(0, i as int), layer as int),
            decreases n - i,
        {
            let ghost pre = kd.subrange(0, i as int);
            let ghost cur = kd.subrange(0, i + 1 as int);
            proof {
                assert(cur.drop_last() =~= pre);
                assert(cur.last() == keys@[i as int]@);
            }
            let segs = crate::strutil::str_split(keys[i].as_str(), ':');
            if segs.len() >= layer {
                let ghost before = names.deep_view();
                names.push(segs[layer - 1].clone());
                proof {
                    assert(segs.deep_view()[layer - 1] == segs@[layer - 1]@);
                    assert(names.deep_view() =~= before.push(
                        crate::strutil::spec_split(keys@[i as int]@, ':')[layer - 1],
                    ));
                }
            }
            i += 1;
        }
        proof {
            assert(kd.subrange(0, n as int) =~= kd);
        }
        Ok(names)
    }

    /// Write one field of a key's hash and record a time-to-live,
    /// creating the hash when the key is absent.
    pub fn push_hash_expire(&mut self, key: &str, field: &str, value: &str, expire: i64) -> (r:
        Result<(), StoreError>)
        requires
            old(self).wf(),
        ensures
            final(self).wf(),
            Self::unchanged_except(*old(self), *final(self), key@),
            if old(self).hash_fields_at(key@) is Some || !old(self).has_key(key@) {
                &&& r is Ok
                &&& final(self).hash_at(key@, field@) == Some(value@)
                &&& (forall|f2: Seq<char>|
                    f2 != field@ ==> #[trigger] final(self).hash_at(key@, f2) == old(self).hash_at(
                        key@,
                        f2,
                    ))
                &&& final(self).hash_fields_at(key@) is Some
                &&& final(self).str_at(key@) is None
                &&& final(self).list_at(key@) is None
                &&& final(self).has_key(key@)
                &&& final(self).ttl_at(key@) == Some(expire)
            } else {
                r == Err::<(), StoreError>(StoreError::WrongKind) && final(self).at_key(key@)
                    == old(self).at_key(key@)
            },
            final(self).keys() == (if old(self).has_key(key@) {
                old(self).keys()
            } else {
                old(self).keys().push(key@)
            }),
    {
        match self.check_init() {
            Err(e) => {
                return Err(e);
            },
            Ok(_) => {},
        }
        let ghost s0 = self.entries@;
        match self.find_index(key) {
            None => {
                let mut h: Vec<HashField> = Vec::new();
                h.push(HashField { field: String::from_str(field), value: String::from_str(value) });
                let e = Entry {
                    key: String::from_str(key),
                    value: StoreValue::HashVal(h),
                    ttl: Some(expire),
                };
                self.entries.push(e);
                proof {
                    lemma_wf_push(s0, e);
                    lemma_at_key_push(s0, e);
                    lemma_keys_of_push(s0, e);
                    let fs = state_of_entry(e).hash_val.unwrap();
                    assert(fs =~= seq![(field@, value@)]);
                    assert(hash_lookup(fs, field@) == Some(value@));
                    assert forall|f2: Seq<char>|
                        f2 != field@ implies #[trigger] final(self).hash_at(key@, f2) == old(
                        self,
                    ).hash_at(key@, f2) by {
                        assert(hash_lookup(fs, f2) == hash_lookup(fs.drop_first(), f2));
                    }
                }
                Ok(())
            },
            Some(i) => {
                let ent = self.entries.remove(i);
                let Entry { key: k0, value: v0, ttl: _t0 } = ent;
                match v0 {
                    StoreValue::HashVal(mut h) => {
                        let ghost h0 = h@;
                        let ghost fs0 = h@.map_values(|hf: HashField| (hf.field@, hf.value@));
                        proof {
                            assert(entry_wf(s0[i as int]));
                        }
                        match Self::hash_find_index(&h, field) {
                            Some(j) => {
                                let old_f = h.remove(j);
                                h.insert(
                                    j,
                                    HashField {
                                        field: old_f.field,
                                        value: String::from_str(value),
                                    },
                                );
                                proof {
                                    assert(h@ =~= h0.update(
                                        j as int,
                                        HashField { field: old_f.field, value: h@[j as int].value },
                                    ));
                                    let fs1 = h@.map_values(
                                        |hf: HashField| (hf.field@, hf.value@),
                                    );
                                    assert(fs1 =~= fs0.update(j as int, (fs0[j as int].0, value@)));
                                    assert forall|j2: int| 0 <= j2 < j implies (
                                    #[trigger] fs0[j2]).0 != fs0[j as int].0 by {
                                        assert(h0[j2].field@ != field@);
                                    }
                                    lemma_hash_lookup_update(fs0, j as int, value@);
                                    assert(hash_fields_unique(h@)) by {
                                        assert forall|a: int, b: int|
                                            0 <= a < b < h@.len() implies h@[a].field@
                                            != h@[b].field@ by {
                                            assert(h0[a].field@ != h0[b].field@);
                                            assert(h@[a].field@ == h0[a].field@);
                                            assert(h@[b].field@ == h0[b].field@);
                                        }
                                    }
                                }
                            },
                            None => {
                                h.push(
                                    HashField {
                                        field: String::from_str(field),
                                        value: String::from_str(value),
                                    },
                                );
                                proof {
                                    let fs1 = h@.map_values(
                                        |hf: HashField| (hf.field@, hf.value@),
                                    );
                                    assert(fs1 =~= fs0.push((field@, value@)));
                                    assert forall|j2: int| 0 <= j2 < fs0.len() implies (
                                    #[trigger] fs0[j2]).0 != field@ by {
                                        assert(h0[j2].field@ != field@);
                                    }
                                    lemma_hash_lookup_push(fs0, field@, value@);
                                    assert(hash_fields_unique(h@)) by {
                                        assert forall|a: int, b: int|
                                            0 <= a < b < h@.len() implies h@[a].field@
                                            != h@[b].field@ by {
                                            if b < h0.len() {
                                                assert(h0[a].field@ != h0[b].field@);
                                            } else {
                                                assert(h@[b].field@ == field@);
                                                assert(h0[a].field@ != field@);
                                            }
                                        }
                                    }
                                }
                            },
                        }
                        let e = Entry { key: k0, value: StoreValue::HashVal(h), ttl: Some(expire) };
                        self.entries.insert(i, e);
                        proof {
                            assert(self.entries@ =~= s0.update(i as int, e));
                            lemma_wf_update(s0, i as int, e);
                            lemma_at_key_update(s0, i as int, e);
                            lemma_keys_of_update(s0, i as int, e);
                        }
                        Ok(())
                    },
                    other => {
                        let e = Entry { key: k0, value: other, ttl: _t0 };
                        self.entries.insert(i, e);
                        proof {
                            assert(e == s0[i as int]);
                            assert(self.entries@ =~= s0);
                        }
                        Err(StoreError::WrongKind)
                    },
                }
            },
        }
    }

    /// Index of the first field named `field` in a hash.
    fn hash_find_index(h: &Vec<HashField>, field: &str) -> (r: Option<usize>)
        ensures
            match r {
                Some(j) => j < h@.len() && h@[j as int].field@ == field@ && (forall|j2: int|
                    0 <= j2 < j ==> h@[j2].field@ != field@),
                None => forall|j2: int| 0 <= j2 < h@.len() ==> h@[j2].field@ != field@,
            },
    {
        let n = h.len();
        let mut j: usize = 0;
        while j < n
            invariant
                j <= n,
                n == h@.len(),
                forall|j2: int| 0 <= j2 < j ==> h@[j2].field@ != field@,
            decreases n - j,
        {
            if crate::strutil::str_eq(h[j].field.as_str(), field) {
                return Some(j);
            }
            j += 1;
        }
        None
    }

    /// Read one field of a key's hash.
    pub fn get_hash(&mut self, key: &str, field: &str) -> (r: Result<String, StoreError>)
        requires
            old(self).wf(),
        ensures
            *final(self) == *old(self),
            match r {
                Ok(v) => old(self).hash_at(key@, field@) == Some(v@),
                Err(_) => old(self).hash_at(key@, field@) is None,
            },
    {
        match self.check_init() {
            Err(e) => {
                return Err(e);
            },
            Ok(_) => {},
        }
        match self.find_index(key) {
            None => Err(StoreError::Absent),
            Some(i) => match &self.entries[i].value {
                StoreValue::HashVal(h) => {
                    let ghost fs = h@.map_values(|hf: HashField| (hf.field@, hf.value@));
                    match Self::hash_find_index(h, field) {
                        Some(j) => {
                            proof {
                                assert forall|j2: int| 0 <= j2 < j implies (
                                #[trigger] fs[j2]).0 != field@ by {
                                    assert(h@[j2].field@ != field@);
                                }
                                lemma_hash_lookup_at(fs, field@, j as int);
                            }
                            Ok(h[j].value.clone())
                        },
                        None => {
                            proof {
                                assert forall|j2: int| 0 <= j2 < fs.len() implies (
                                #[trigger] fs[j2]).0 != field@ by {
                                    assert(h@[j2].field@ != field@);
                                }
                                lemma_hash_lookup_none(fs, field@);
                            }
                            Err(StoreError::Absent)
                        },
                    }
                },
                _ => Err(StoreError::WrongKind),
            },
        }
    }

    /// Remove one field of a key's hash; the key is dropped when its last
    /// field goes.
    pub fn remove_hash(&mut self, key: &str, field: &str) -> (r: Result<(), StoreError>)
        requires
            old(self).wf(),
        ensures
            final(self).wf(),
            Self::unchanged_except(*old(self), *final(self), key@),
            match old(self).hash_fields_at(key@) {
                Some(fs) => r is Ok && final(self).hash_at(key@, field@) is None && (forall|
                    f2: Seq<char>,
                |
                    f2 != field@ ==> #[trigger] final(self).hash_at(key@, f2) == hash_lookup(
                        fs,
                        f2,
                    )) && (if fs.len() == 1 && fs[0].0 == field@ {
                    final(self).at_key(key@) == absent_key_state()
                } else {
                    final(self).has_key(key@) && final(self).hash_fields_at(key@) is Some
                        && final(self).ttl_at(key@) == old(self).ttl_at(key@)
                }),
                None => {
                    if old(self).has_key(key@) {
                        r == Err::<(), StoreError>(StoreError::WrongKind) && final(self).at_key(
                            key@,
                        ) == old(self).at_key(key@)
                    } else {
                        r is Ok && *final(self) == *old(self)
                    }
                },
            },
            final(self).keys() == (if old(self).hash_fields_at(key@) is Some && old(
                self,
            ).hash_fields_at(key@).unwrap().len() == 1 && old(self).hash_fields_at(
                key@,
            ).unwrap()[0].0 == field@ {
                old(self).keys().remove_value(key@)
            } else {
                old(self).keys()
            }),
    {
        match self.check_init() {
            Err(e) => {
                return Err(e);
            },
            Ok(_) => {},
        }
        let ghost s0 = self.entries@;
        match self.find_index(key) {
            None => Ok(()),
            Some(i) => {
                let ent = self.entries.remove(i);
                let Entry { key: k0, value: v0, ttl } = ent;
                match v0 {
                    StoreValue::HashVal(mut h) => {
                        let ghost h0 = h@;
                        let ghost fs0 = h@.map_values(|hf: HashField| (hf.field@, hf.value@));
                        proof {
                            assert(entry_wf(s0[i as int]));
                        }
                        match Self::hash_find_index(&h, field) {
                            None => {
                                proof {
                                    assert forall|j2: int| 0 <= j2 < fs0.len() implies (
                                    #[trigger] fs0[j2]).0 != field@ by {
                                        assert(h0[j2].field@ != field@);
                                    }
                                    lemma_hash_lookup_none(fs0, field@);
                                }
                                let e = Entry { key: k0, value: StoreValue::HashVal(h), ttl };
                                self.entries.insert(i, e);
                                proof {
                                    assert(e == s0[i as int]);
                                    assert(self.entries@ =~= s0);
                                    if fs0.len() == 1 {
                                        assert(fs0[0] == (h0[0].field@, h0[0].value@));
                                        assert(fs0[0].0 != field@);
                                    }
                                }
                                Ok(())
                            },
                            Some(j) => {
                                proof {
                                    assert forall|j2: int|
                                        0 <= j2 < fs0.len() && j2 != j implies (
                                    #[trigger] fs0[j2]).0 != fs0[j as int].0 by {
                                        if j2 < j {
                                            assert(h0[j2].field@ != h0[j as int].field@);
                                        } else {
                                            assert(h0[j as int].field@ != h0[j2].field@);
                                        }
                                    }
                                    lemma_hash_lookup_remove(fs0, j as int);
                                }
                                let _gone = h.remove(j);
                                proof {
                                    let fs1 = h@.map_values(
                                        |hf: HashField| (hf.field@, hf.value@),
                                    );
                                    assert(fs1 =~= fs0.remove(j as int));
                                }
                                if h.len() == 0 {
                                    proof {
                                        lemma_wf_remove(s0, i as int);
                                        lemma_at_key_remove(s0, i as int);
                                        lemma_keys_of_remove(s0, i as int);
                                        let ks = s0.map_values(|en: Entry| en.key@);
                                        assert(ks[i as int] == key@);
                                        assert forall|j2: int| 0 <= j2 < i implies ks[j2]
                                            != ks[i as int] by {
                                            assert(s0[j2].key@ != key@);
                                        }
                                        lemma_keys_remove_value(ks, i as int);
                                        assert(fs0.len() == 1);
                                        assert(j == 0);
                                        assert(fs0[0] == (h0[0].field@, h0[0].value@));
                                        assert(fs0[0].0 == field@);
                                        assert forall|f2: Seq<char>| f2 != field@ implies
                                            hash_lookup(fs0, f2) is None by {
                                            assert(hash_lookup(fs0, f2) == hash_lookup(
                                                fs0.drop_first(),
                                                f2,
                                            ));
                                            assert(fs0.drop_first().len() == 0);
                                        }
                                    }
                                    Ok(())
                                } else {
                                    proof {
                                        assert(hash_fields_unique(h@)) by {
                                            assert forall|a: int, b: int|
                                                0 <= a < b < h@.len() implies h@[a].field@
                                                != h@[b].field@ by {
                                                let oa = if a < j {
                                                    a
                                                } else {
                                                    a + 1
                                                };
                                                let ob = if b < j {
                                                    b
                                                } else {
                                                    b + 1
                                                };
                                                assert(h@[a] == h0[oa]);
                                                assert(h@[b] == h0[ob]);
                                                assert(h0[oa].field@ != h0[ob].field@);
                                            }
                                        }
                                    }
                                    let e = Entry { key: k0, value: StoreValue::HashVal(h), ttl };
                                    self.entries.insert(i, e);
                                    proof {
                                        assert(self.entries@ =~= s0.update(i as int, e));
                                        lemma_wf_update(s0, i as int, e);
                                        lemma_at_key_update(s0, i as int, e);
                                        lemma_keys_of_update(s0, i as int, e);
                                        assert(fs0[j as int] == (
                                            h0[j as int].field@,
                                            h0[j as int].value@,
                                        ));
                                        assert(fs0[j as int].0 == field@);
                                        if fs0.len() == 1 && fs0[0].0 == field@ {
                                            assert(false);
                                        }
                                    }
                                    Ok(())
                                }
                            },
                        }
                    },
                    other => {
                        let e = Entry { key: k0, value: other, ttl };
                        self.entries.insert(i, e);
                        proof {
                            assert(e == s0[i as int]);
                            assert(self.entries@ =~= s0);
                        }
                        Err(StoreError::WrongKind)
                    },
                }
            },
        }
    }
}


/// Does a key match a glob pattern? A trailing `*` matches any suffix;
/// any other pattern only matches itself.
pub open spec fn spec_matches_pattern(pat: Seq<char>, k: Seq<char>) -> bool {
    if pat.len() > 0 && pat.last() == '*' {
        k.len() >= pat.len() - 1 && k.subrange(0, pat.len() - 1) == pat.drop_last()
    } else {
        k == pat
    }
}

/// The keys among `keys` that match `pat`, in order.
pub open spec fn spec_matching_keys(keys: Seq<Seq<char>>, pat: Seq<char>) -> Seq<Seq<char>>
    decreases keys.len(),
{
    if keys.len() == 0 {
        Seq::empty()
    } else if spec_matches_pattern(pat, keys.last()) {
        spec_matching_keys(keys.drop_last(), pat).push(keys.last())
    } else {
        spec_matching_keys(keys.drop_last(), pat)
    }
}

/// For each key with at least `layer` colon-separated segments, its
/// segment number `layer`.
pub open spec fn spec_segment_names(keys: Seq<Seq<char>>, layer: int) -> Seq<Seq<char>>
    decreases keys.len(),
{
    if keys.len() == 0 {
        Seq::empty()
    } else if crate::strutil::spec_split(keys.last(), ':').len() >= layer {
        spec_segment_names(keys.drop_last(), layer).push(
            crate::strutil::spec_split(keys.last(), ':')[layer - 1],
        )
    } else {
        spec_segment_names(keys.drop_last(), layer)
    }
}

/// The names that a pattern scan reports: of every matching key, the
/// segment at the pattern's own depth.
pub open spec fn spec_keys_names(keys: Seq<Seq<char>>, pat: Seq<char>) -> Seq<Seq<char>> {
    spec_segment_names(
        spec_matching_keys(keys, pat),
        crate::strutil::spec_split(pat, ':').len() as int,
    )
}

/// Does `key` match the glob pattern `pat`?
pub fn matches_pattern(pat: &str, key: &str) -> (r: bool)
    ensures
        r == spec_matches_pattern(pat@, key@),
{
    let plen = pat.unicode_len();
    if plen > 0 && pat.get_char(plen - 1) == '*' {
        let prefix = pat.substring_char(0, plen - 1);
        proof {
            assert(prefix@ =~= pat@.drop_last());
        }
        crate::strutil::str_starts_with(key, prefix)
    } else {
        crate::strutil::str_eq(key, pat)
    }
}

/// What remains of a list after every occurrence of `v` is removed.
pub open spec fn spec_remove_all(l: Seq<Seq<char>>, v: Seq<char>) -> Seq<Seq<char>>
    decreases l.len(),
{
    if l.len() == 0 {
        Seq::empty()
    } else if l.last() == v {
        spec_remove_all(l.drop_last(), v)
    } else {
        spec_remove_all(l.drop_last(), v).push(l.last())
    }
}

proof fn lemma_wf_update(s: Seq<Entry>, i: int, e: Entry)
    requires
        wf_entries(s),
        0 <= i < s.len(),
        e.key@ == s[i].key@,
        entry_wf(e),
    ensures
        wf_entries(s.update(i, e)),
{
    let t = s.update(i, e);
    assert forall|i2: int, j2: int| 0 <= i2 < j2 < t.len() implies t[i2].key@ != t[j2].key@ by {
        assert(s[i2].key@ != s[j2].key@);
    }
    assert forall|i2: int| 0 <= i2 < t.len() implies entry_wf(#[trigger] t[i2]) by {
        if i2 != i {
            assert(t[i2] == s[i2]);
        }
    }
}

proof fn lemma_wf_push(s: Seq<Entry>, e: Entry)
    requires
        wf_entries(s),
        !seq_at_key(s, e.key@).present,
        entry_wf(e),
    ensures
        wf_entries(s.push(e)),
{
    lemma_present_exists(s, e.key@);
    let t = s.push(e);
    assert forall|i2: int, j2: int| 0 <= i2 < j2 < t.len() implies t[i2].key@ != t[j2].key@ by {
        if j2 < s.len() {
            assert(s[i2].key@ != s[j2].key@);
        } else {
            assert(t[j2] == e);
            assert(t[i2] == s[i2]);
        }
    }
    assert forall|i2: int| 0 <= i2 < t.len() implies entry_wf(#[trigger] t[i2]) by {
        if i2 < s.len() {
            assert(t[i2] == s[i2]);
        } else {
            assert(t[i2] == e);
        }
    }
}

proof fn lemma_wf_remove(s: Seq<Entry>, i: int)
    requires
        wf_entries(s),
        0 <= i < s.len(),
    ensures
        wf_entries(s.remove(i)),
        forall|j: int| 0 <= j < s.len() && j != i ==> (#[trigger] s[j]).key@ != s[i].key@,
{
    let t = s.remove(i);
    assert forall|j: int| 0 <= j < s.len() && j != i implies (#[trigger] s[j]).key@
        != s[i].key@ by {
        if j < i {
            assert(s[j].key@ != s[i].key@);
        } else {
            assert(s[i].key@ != s[j].key@);
        }
    }
    assert forall|i2: int, j2: int| 0 <= i2 < j2 < t.len() implies t[i2].key@ != t[j2].key@ by {
        let oi = if i2 < i {
            i2
        } else {
            i2 + 1
        };
        let oj = if j2 < i {
            j2
        } else {
            j2 + 1
        };
        assert(t[i2] == s[oi]);
        assert(t[j2] == s[oj]);
        assert(s[oi].key@ != s[oj].key@);
    }
    assert forall|i2: int| 0 <= i2 < t.len() implies entry_wf(#[trigger] t[i2]) by {
        let oi = if i2 < i {
            i2
        } else {
            i2 + 1
        };
        assert(t[i2] == s[oi]);
        assert(entry_wf(s[oi]));
    }
}

proof fn lemma_keys_of_update(s: Seq<Entry>, i: int, e: Entry)
    requires
        0 <= i < s.len(),
        e.key@ == s[i].key@,
    ensures
        s.update(i, e).map_values(|en: Entry| en.key@) == s.map_values(|en: Entry| en.key@),
{
    assert(s.update(i, e).map_values(|en: Entry| en.key@) =~= s.map_values(
        |en: Entry| en.key@,
    ));
}

proof fn lemma_keys_of_push(s: Seq<Entry>, e: Entry)
    ensures
        s.push(e).map_values(|en: Entry| en.key@) == s.map_values(|en: Entry| en.key@).push(
            e.key@,
        ),
{
    assert(s.push(e).map_values(|en: Entry| en.key@) =~= s.map_values(|en: Entry| en.key@).push(
        e.key@,
    ));
}

proof fn lemma_keys_of_remove(s: Seq<Entry>, i: int)
    requires
        0 <= i < s.len(),
    ensures
        s.remove(i).map_values(|en: Entry| en.key@) == s.map_values(|en: Entry| en.key@).remove(
            i,
        ),
{
    s.remove_ensures(i);
    s.map_values(|en: Entry| en.key@).remove_ensures(i);
    assert(s.remove(i).map_values(|en: Entry| en.key@) =~= s.map_values(
        |en: Entry| en.key@,
    ).remove(i));
}

/// Removing the first occurrence of a key from the key list is
/// `remove_value`.
proof fn lemma_keys_remove_value(ks: Seq<Seq<char>>, i: int)
    requires
        0 <= i < ks.len(),
        forall|j: int| 0 <= j < i ==> ks[j] != ks[i],
    ensures
        ks.remove_value(ks[i]) == ks.remove(i),
{
    ks.index_of_first_ensures(ks[i]);
    assert(ks.contains(ks[i]));
    let w = ks.index_of_first(ks[i]).unwrap();
    if w < i {
        assert(ks[w] != ks[i]);
    }
    if i < w {
        assert(ks[i] != ks[i]);
    }
}

/// `hash_lookup` reads the first matching field.
proof fn lemma_hash_lookup_at(fs: Seq<(Seq<char>, Seq<char>)>, f: Seq<char>, i: int)
    requires
        0 <= i < fs.len(),
        fs[i].0 == f,
        forall|j: int| 0 <= j < i ==> (#[trigger] fs[j]).0 != f,
    ensures
        hash_lookup(fs, f) == Some(fs[i].1),
    decreases i,
{
    if i > 0 {
        lemma_hash_lookup_at(fs.drop_first(), f, i - 1);
    }
}

/// A field matched by no entry is absent from the hash.
proof fn lemma_hash_lookup_none(fs: Seq<(Seq<char>, Seq<char>)>, f: Seq<char>)
    requires
        forall|j: int| 0 <= j < fs.len() ==> (#[trigger] fs[j]).0 != f,
    ensures
        hash_lookup(fs, f) is None,
    decreases fs.len(),
{
    if fs.len() > 0 {
        lemma_hash_lookup_none(fs.drop_first(), f);
    }
}

proof fn lemma_hash_lookup_update(fs: Seq<(Seq<char>, Seq<char>)>, i: int, nv: Seq<char>)
    requires
        0 <= i < fs.len(),
        forall|j: int| 0 <= j < i ==> (#[trigger] fs[j]).0 != fs[i].0,
    ensures
        hash_lookup(fs.update(i, (fs[i].0, nv)), fs[i].0) == Some(nv),
        forall|f2: Seq<char>|
            f2 != fs[i].0 ==> #[trigger] hash_lookup(fs.update(i, (fs[i].0, nv)), f2)
                == hash_lookup(fs, f2),
    decreases fs.len(),
{
    let t = fs.update(i, (fs[i].0, nv));
    if i == 0 {
        assert(t[0] == (fs[0].0, nv));
        assert(t.drop_first() =~= fs.drop_first());
        assert forall|f2: Seq<char>| f2 != fs[i].0 implies #[trigger] hash_lookup(t, f2)
            == hash_lookup(fs, f2) by {
            assert(hash_lookup(t, f2) == hash_lookup(t.drop_first(), f2));
            assert(hash_lookup(fs, f2) == hash_lookup(fs.drop_first(), f2));
        }
    } else {
        assert(t[0] == fs[0]);
        assert(t.drop_first() =~= fs.drop_first().update(i - 1, (fs[i].0, nv)));
        assert(fs.drop_first()[i - 1] == fs[i]);
        lemma_hash_lookup_update(fs.drop_first(), i - 1, nv);
        assert(hash_lookup(t, fs[i].0) == hash_lookup(
            fs.drop_first().update(i - 1, (fs[i].0, nv)),
            fs[i].0,
        ));
        assert forall|f2: Seq<char>| f2 != fs[i].0 implies #[trigger] hash_lookup(t, f2)
            == hash_lookup(fs, f2) by {
            if fs[0].0 != f2 {
                assert(hash_lookup(t, f2) == hash_lookup(
                    fs.drop_first().update(i - 1, (fs[i].0, nv)),
                    f2,
                ));
                assert(hash_lookup(fs, f2) == hash_lookup(fs.drop_first(), f2));
            }
        }
    }
}

proof fn lemma_hash_lookup_push(fs: Seq<(Seq<char>, Seq<char>)>, f: Seq<char>, v: Seq<char>)
    requires
        forall|j: int| 0 <= j < fs.len() ==> (#[trigger] fs[j]).0 != f,
    ensures
        hash_lookup(fs.push((f, v)), f) == Some(v),
        forall|f2: Seq<char>|
            f2 != f ==> #[trigger] hash_lookup(fs.push((f, v)), f2) == hash_lookup(fs, f2),
    decreases fs.len(),
{
    let t = fs.push((f, v));
    if fs.len() == 0 {
        assert(t[0] == (f, v));
        assert(t.drop_first() =~= Seq::<(Seq<char>, Seq<char>)>::empty());
        assert forall|f2: Seq<char>| f2 != f implies #[trigger] hash_lookup(t, f2) == hash_lookup(
            fs,
            f2,
        ) by {
            assert(hash_lookup(t, f2) == hash_lookup(t.drop_first(), f2));
        }
    } else {
        assert(t[0] == fs[0]);
        assert(t.drop_first() =~= fs.drop_first().push((f, v)));
        lemma_hash_lookup_push(fs.drop_first(), f, v);
        assert forall|f2: Seq<char>| f2 != f implies #[trigger] hash_lookup(t, f2) == hash_lookup(
            fs,
            f2,
        ) by {
            if fs[0].0 != f2 {
                assert(hash_lookup(t, f2) == hash_lookup(fs.drop_first().push((f, v)), f2));
                assert(hash_lookup(fs, f2) == hash_lookup(fs.drop_first(), f2));
            }
        }
    }
}

proof fn lemma_hash_lookup_remove(fs: Seq<(Seq<char>, Seq<char>)>, i: int)
    requires
        0 <= i < fs.len(),
        forall|j: int| 0 <= j < fs.len() && j != i ==> (#[trigger] fs[j]).0 != fs[i].0,
    ensures
        hash_lookup(fs.remove(i), fs[i].0) is None,
        forall|f2: Seq<char>|
            f2 != fs[i].0 ==> #[trigger] hash_lookup(fs.remove(i), f2) == hash_lookup(fs, f2),
    decreases fs.len(),
{
    let t = fs.remove(i);
    if i == 0 {
        assert(t =~= fs.drop_first());
        assert forall|j: int| 0 <= j < t.len() implies (#[trigger] t[j]).0 != fs[0].0 by {
            assert(t[j] == fs[j + 1]);
        }
        lemma_hash_lookup_none(t, fs[0].0);
        assert forall|f2: Seq<char>| f2 != fs[i].0 implies #[trigger] hash_lookup(t, f2)
            == hash_lookup(fs, f2) by {
            assert(hash_lookup(fs, f2) == hash_lookup(fs.drop_first(), f2));
        }
    } else {
        assert(t[0] == fs[0]);
        assert(t.drop_first() =~= fs.drop_first().remove(i - 1));
        assert(fs.drop_first()[i - 1] == fs[i]);
        assert forall|j: int| 0 <= j < fs.drop_first().len() && j != i - 1 implies (
        #[trigger] fs.drop_first()[j]).0 != fs.drop_first()[i - 1].0 by {
            assert(fs.drop_first()[j] == fs[j + 1]);
        }
        lemma_hash_lookup_remove(fs.drop_first(), i - 1);
        assert(fs[0].0 != fs[i].0);
        assert(hash_lookup(t, fs[i].0) == hash_lookup(fs.drop_first().remove(i - 1), fs[i].0));
        assert forall|f2: Seq<char>| f2 != fs[i].0 implies #[trigger] hash_lookup(t, f2)
            == hash_lookup(fs, f2) by {
            if fs[0].0 != f2 {
                assert(hash_lookup(t, f2) == hash_lookup(fs.drop_first().remove(i - 1), f2));
                assert(hash_lookup(fs, f2) == hash_lookup(fs.drop_first(), f2));
            }
        }
    }
}

proof fn lemma_seq_at_key_shape(s: Seq<Entry>, k: Seq<char>)
    ensures
        ({
            let ks = seq_at_key(s, k);
            &&& (!ks.present ==> ks == absent_key_state())
            &&& (ks.present ==> (ks == str_key_state(ks.str_val.unwrap(), ks.ttl) || ks
                == list_key_state(ks.list_val.unwrap(), ks.ttl) || ks == hash_key_state(
                ks.hash_val.unwrap(),
                ks.ttl,
            )))
        }),
    decreases s.len(),
{
    if s.len() > 0 && s[0].key@ != k {
        lemma_seq_at_key_shape(s.drop_first(), k);
    }
}

impl RedisInstance {
    /// The state of a key is one of four shapes: absent, a string, a list
    /// or a hash; an absent key holds nothing.
    pub proof fn lemma_key_state_shape(self, k: Seq<char>)
        ensures
            ({
                let ks = self.at_key(k);
                &&& (!ks.present ==> ks == absent_key_state())
                &&& (ks.present ==> (ks == str_key_state(ks.str_val.unwrap(), ks.ttl) || ks
                    == list_key_state(ks.list_val.unwrap(), ks.ttl) || ks == hash_key_state(
                    ks.hash_val.unwrap(),
                    ks.ttl,
                )))
            }),
    {
        lemma_seq_at_key_shape(self.entries@, k);
    }
}

/// `at_key` reads the first matching entry.
proof fn lemma_seq_at_key_first_match(s: Seq<Entry>, k: Seq<char>, i: int)
    requires
        0 <= i < s.len(),
        s[i].key@ == k,
        forall|j: int| 0 <= j < i ==> s[j].key@ != k,
    ensures
        seq_at_key(s, k) == state_of_entry(s[i]),
    decreases i,
{
    if i > 0 {
        lemma_seq_at_key_first_match(s.drop_first(), k, i - 1);
    }
}

/// A key matched by no entry is absent.
proof fn lemma_seq_at_key_no_match(s: Seq<Entry>, k: Seq<char>)
    requires
        forall|j: int| 0 <= j < s.len() ==> s[j].key@ != k,
    ensures
        seq_at_key(s, k) == absent_key_state(),
    decreases s.len(),
{
    if s.len() > 0 {
        lemma_seq_at_key_no_match(s.drop_first(), k);
    }
}

} // verus!
