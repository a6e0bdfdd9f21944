//! The validated data model: key and value syntax, and the key-value mapping.

use vstd::prelude::*;

verus! {

/// A character that may begin a key: an ASCII letter or an underscore.
pub open spec fn key_start_char(c: char) -> bool {
    c == '_' || ('a' <= c && c <= 'z') || ('A' <= c && c <= 'Z')
}

/// A character that may continue a key: a start character or an ASCII digit.
pub open spec fn key_char(c: char) -> bool {
    key_start_char(c) || ('0' <= c && c <= '9')
}

/// A valid key is nonempty, begins with a letter or an underscore, and goes on
/// with ASCII letters, digits and underscores only.
pub open spec fn valid_key(s: Seq<char>) -> bool {
    &&& s.len() > 0
    &&& key_start_char(s[0])
    &&& forall|i: int| 1 <= i < s.len() ==> key_char(#[trigger] s[i])
}

/// A valid value holds no newline character; any other text is acceptable.
pub open spec fn valid_value(s: Seq<char>) -> bool {
    forall|i: int| 0 <= i < s.len() ==> #[trigger] s[i] != '\n'
}

/// Every key of the mapping is a valid key, and every value a valid value.
pub open spec fn map_valid(m: Map<Seq<char>, Seq<char>>) -> bool {
    forall|k: Seq<char>| #[trigger] m.dom().contains(k) ==> valid_key(k) && valid_value(m[k])
}

/// A failure reported by a driver: the backing medium could not be read or
/// written. The text is the backend's own description of what went wrong.
#[derive(Debug)]
pub struct IoError {
    pub message: String,
}

/// What `load` can report: a driver failure passed on verbatim, or the first
/// entry of the fetched mapping that failed validation, named by its key.
#[derive(Debug)]
pub enum StoreError {
    Io(IoError),
    InvalidKey(String),
    InvalidValue(String),
}

/// Decides key syntax, exactly as `valid_key` states it.
pub(crate) fn key_ok(k: &str) -> (r: bool)
    ensures
        r == valid_key(k@),
{
    let n = k.unicode_len();
    if n == 0 {
        return false;
    }
    let c0 = k.get_char(0);
    if !(c0 == '_' || ('a' <= c0 && c0 <= 'z') || ('A' <= c0 && c0 <= 'Z')) {
        return false;
    }
    let mut i: usize = 1;
    while i < n
        invariant
            1 <= i <= n,
            n == k@.len(),
            key_start_char(k@[0]),
            forall|j: int| 1 <= j < i ==> key_char(#[trigger] k@[j]),
        decreases n - i,
    {
        let c = k.get_char(i);
        if !(c == '_' || ('a' <= c && c <= 'z') || ('A' <= c && c <= 'Z') || ('0' <= c && c
            <= '9')) {
            return false;
        }
        i += 1;
    }
    true
}

/// Decides value syntax, exactly as `valid_value` states it.
pub(crate) fn value_ok(v: &str) -> (r: bool)
    ensures
        r == valid_value(v@),
{
    let n = v.unicode_len();
    let mut i: usize = 0;
    while i < n
        invariant
            0 <= i <= n,
            n == v@.len(),
            forall|j: int| 0 <= j < i ==> #[trigger] v@[j] != '\n',
        decreases n - i,
    {
        if v.get_char(i) == '\n' {
            return false;
        }
        i += 1;
    }
    true
}

/// No two entries of the sequence carry the same key.
spec fn keys_unique(s: Seq<(String, String)>) -> bool {
    forall|i: int, j: int|
        0 <= i < j < s.len() ==> (#[trigger] s[i]).0@ != (#[trigger] s[j]).0@
}

/// Some entry of the sequence carries the key `k`.
spec fn has_key(s: Seq<(String, String)>, k: Seq<char>) -> bool {
    exists|i: int| 0 <= i < s.len() && (#[trigger] s[i]).0@ == k
}

/// The position of the entry carrying `k`, when there is one.
spec fn index_of(s: Seq<(String, String)>, k: Seq<char>) -> int {
    choose|i: int| 0 <= i < s.len() && (#[trigger] s[i]).0@ == k
}

/// The mapping that a sequence of entries denotes.
spec fn map_of(s: Seq<(String, String)>) -> Map<Seq<char>, Seq<char>> {
    Map::new(|k: Seq<char>| has_key(s, k), |k: Seq<char>| s[index_of(s, k)].1@)
}

/// With unique keys, the entry carrying a key sits at one position only.
proof fn lemma_index_of_unique(s: Seq<(String, String)>, i: int)
    requires
        keys_unique(s),
        0 <= i < s.len(),
    ensures
        index_of(s, s[i].0@) == i,
{
    let k = s[i].0@;
    assert(has_key(s, k));
    let j = index_of(s, k);
    assert(0 <= j < s.len() && s[j].0@ == k);
    if j < i {
        assert(s[j].0@ != s[i].0@);
    }
    if i < j {
        assert(s[i].0@ != s[j].0@);
    }
}

/// Appending an entry with a fresh key adds exactly that pair to the mapping.
proof fn lemma_push_view(s0: Seq<(String, String)>, k: String, v: String)
    requires
        keys_unique(s0),
        !has_key(s0, k@),
    ensures
        keys_unique(s0.push((k, v))),
        map_of(s0.push((k, v))) == map_of(s0).insert(k@, v@),
{
    let s1 = s0.push((k, v));
    let n = s0.len() as int;
    assert forall|i: int, j: int| 0 <= i < j < s1.len() implies (#[trigger] s1[i]).0@ != (
    #[trigger] s1[j]).0@ by {
        assert(s1[i] == s0[i]);
        if j < n {
            assert(s1[j] == s0[j]);
        } else {
            assert(s1[j] == (k, v));
            if s1[i].0@ == k@ {
                assert(has_key(s0, k@));
            }
        }
    }
    assert forall|x: Seq<char>| #[trigger] has_key(s1, x) <==> (has_key(s0, x) || x == k@) by {
        if has_key(s1, x) {
            let i = choose|i: int| 0 <= i < s1.len() && (#[trigger] s1[i]).0@ == x;
            if i < n {
                assert(s1[i] == s0[i]);
                assert(has_key(s0, x));
            } else {
                assert(s1[i] == (k, v));
            }
        }
        if has_key(s0, x) {
            let i = choose|i: int| 0 <= i < s0.len() && (#[trigger] s0[i]).0@ == x;
            assert(s1[i] == s0[i]);
            assert(has_key(s1, x));
        }
        if x == k@ {
            assert(s1[n] == (k, v));
            assert(has_key(s1, x));
        }
    }
    assert forall|x: Seq<char>| #[trigger] has_key(s1, x) implies map_of(s1)[x] == map_of(
        s0,
    ).insert(k@, v@)[x] by {
        if x == k@ {
            assert(s1[n] == (k, v));
            lemma_index_of_unique(s1, n);
        } else {
            let i = index_of(s1, x);
            assert(0 <= i < s1.len() && s1[i].0@ == x);
            assert(s1[n] == (k, v));
            assert(i != n);
            assert(s1[i] == s0[i]);
            lemma_index_of_unique(s0, i);
            lemma_index_of_unique(s1, i);
        }
    }
    assert(map_of(s1) =~= map_of(s0).insert(k@, v@));
}

/// Removing the entry at a position takes exactly its key out of the mapping.
proof fn lemma_remove_view(s0: Seq<(String, String)>, i: int)
    requires
        keys_unique(s0),
        0 <= i < s0.len(),
    ensures
        keys_unique(s0.remove(i)),
        !has_key(s0.remove(i), s0[i].0@),
        map_of(s0.remove(i)) == map_of(s0).remove(s0[i].0@),
{
    let sr = s0.remove(i);
    s0.remove_ensures(i);
    let k = s0[i].0@;
    assert forall|a: int, b: int| 0 <= a < b < sr.len() implies (#[trigger] sr[a]).0@ != (
    #[trigger] sr[b]).0@ by {
        let a0 = if a < i { a } else { a + 1 };
        let b0 = if b < i { b } else { b + 1 };
        assert(sr[a] == s0[a0]);
        assert(sr[b] == s0[b0]);
    }
    assert forall|a: int| 0 <= a < sr.len() implies (#[trigger] sr[a]).0@ != k by {
        let a0 = if a < i { a } else { a + 1 };
        assert(sr[a] == s0[a0]);
        if a0 < i {
            assert(s0[a0].0@ != s0[i].0@);
        } else {
            assert(s0[i].0@ != s0[a0].0@);
        }
    }
    assert forall|x: Seq<char>| #[trigger] has_key(sr, x) <==> (has_key(s0, x) && x != k) by {
        if has_key(sr, x) {
            let a = choose|a: int| 0 <= a < sr.len() && (#[trigger] sr[a]).0@ == x;
            let a0 = if a < i { a } else { a + 1 };
            assert(sr[a] == s0[a0]);
            assert(has_key(s0, x));
        }
        if has_key(s0, x) && x != k {
            let a0 = choose|a0: int| 0 <= a0 < s0.len() && (#[trigger] s0[a0]).0@ == x;
            let a = if a0 < i { a0 } else { a0 - 1 };
            assert(sr[a] == s0[a0]);
            assert(has_key(sr, x));
        }
    }
    assert forall|x: Seq<char>| #[trigger] has_key(sr, x) implies map_of(sr)[x] == map_of(s0).remove(
        k,
    )[x] by {
        let a = index_of(sr, x);
        assert(0 <= a < sr.len() && sr[a].0@ == x);
        let a0 = if a < i { a } else { a + 1 };
        assert(sr[a] == s0[a0]);
        lemma_index_of_unique(sr, a);
        lemma_index_of_unique(s0, a0);
    }
    assert(map_of(sr) =~= map_of(s0).remove(k));
}

/// The position of the entry carrying `k`, scanned left to right.
fn position_in(entries: &Vec<(String, String)>, k: &String) -> (r: Option<usize>)
    ensures
        match r {
            Some(i) => i < entries@.len() && entries@[i as int].0@ == k@,
            None => !has_key(entries@, k@),
        },
{
    let n = entries.len();
    let mut i: usize = 0;
    while i < n
        invariant
            0 <= i <= n,
            n == entries@.len(),
            forall|j: int| 0 <= j < i ==> (#[trigger] entries@[j]).0@ != k@,
        decreases n - i,
    {
        if entries[i].0 == *k {
            return Some(i);
        }
        i += 1;
    }
    None
}

/// The key-value mapping: string keys to string values, keys unique, no
/// ordering promised. It is the table a `Store` holds and the unit a driver
/// loads and saves whole.
pub struct KvMap {
    entries: Vec<(String, String)>,
}

impl View for KvMap {
    type V = Map<Seq<char>, Seq<char>>;

    closed spec fn view(&self) -> Map<Seq<char>, Seq<char>> {
        map_of(self.entries@)
    }
}

impl KvMap {
    /// Keys never repeat among the entries.
    #[verifier::type_invariant]
    spec fn wf(self) -> bool {
        keys_unique(self.entries@)
    }

    /// Creates an empty mapping.
    pub fn new() -> (r: KvMap)
        ensures
            r@ == Map::<Seq<char>, Seq<char>>::empty(),
    {
        let r = KvMap { entries: Vec::new() };
        proof {
            assert(r@ =~= Map::<Seq<char>, Seq<char>>::empty());
        }
        r
    }

    /// Binds `k` to `v`, replacing any earlier binding of the same key.
    pub fn insert(&mut self, k: String, v: String)
        ensures
            final(self)@ == old(self)@.insert(k@, v@),
    {
        proof {
            use_type_invariant(&*self);
        }
        let ghost s0 = self.entries@;
        let mut entries: Vec<(String, String)> = Vec::new();
        core::mem::swap(&mut entries, &mut self.entries);
        match position_in(&entries, &k) {
            Some(i) => {
                proof {
                    lemma_remove_view(s0, i as int);
                    assert(s0[i as int].0@ == k@);
                    lemma_push_view(s0.remove(i as int), k, v);
                    assert(map_of(s0).remove(k@).insert(k@, v@) =~= map_of(s0).insert(k@, v@));
                }
                entries.remove(i);
                entries.push((k, v));
            },
            None => {
                proof {
                    lemma_push_view(s0, k, v);
                }
                entries.push((k, v));
            },
        }
        self.entries = entries;
    }

    /// The value bound to `k`, when there is one.
    pub fn get(&self, k: &String) -> (r: Option<&String>)
        ensures
            match r {
                Some(v) => self@.dom().contains(k@) && v@ == self@[k@],
                None => !self@.dom().contains(k@),
            },
    {
        proof {
            use_type_invariant(&*self);
        }
        match position_in(&self.entries, k) {
            Some(i) => {
                proof {
                    assert(has_key(self.entries@, k@));
                    lemma_index_of_unique(self.entries@, i as int);
                }
                Some(&self.entries[i].1)
            },
            None => None,
        }
    }

    /// Checks every entry: `Ok` exactly when the whole mapping is valid, else
    /// the first offending entry met, its key checked before its value.
    pub fn validate(&self) -> (r: Result<(), StoreError>)
        ensures
            r is Ok <==> map_valid(self@),
            r matches Err(StoreError::InvalidKey(k)) ==> self@.dom().contains(k@) && !valid_key(
                k@,
            ),
            r matches Err(StoreError::InvalidValue(k)) ==> self@.dom().contains(k@) && valid_key(k@)
                && !valid_value(self@[k@]),
            r is Err ==> (r matches Err(StoreError::InvalidKey(_)) || r matches Err(
                StoreError::InvalidValue(_),
            )),
    {
        proof {
            use_type_invariant(&*self);
        }
        let n = self.entries.len();
        let mut i: usize = 0;
        while i < n
            invariant
                0 <= i <= n,
                n == self.entries@.len(),
                keys_unique(self.entries@),
                forall|j: int|
                    0 <= j < i ==> valid_key((#[trigger] self.entries@[j]).0@) && valid_value(
                        self.entries@[j].1@,
                    ),
            decreases n - i,
        {
            let e = &self.entries[i];
            if !key_ok(e.0.as_str()) {
                proof {
                    assert(has_key(self.entries@, e.0@));
                    assert(self@.dom().contains(e.0@));
                }
                return Err(StoreError::InvalidKey(e.0.clone()));
            }
            if !value_ok(e.1.as_str()) {
                proof {
                    assert(has_key(self.entries@, e.0@));
                    assert(self@.dom().contains(e.0@));
                    lemma_index_of_unique(self.entries@, i as int);
                    assert(self@[e.0@] == self.entries@[i as int].1@);
                }
                return Err(StoreError::InvalidValue(e.0.clone()));
            }
            i += 1;
        }
        proof {
            assert forall|k: Seq<char>| #[trigger] self@.dom().contains(k) implies valid_key(k)
                && valid_value(self@[k]) by {
                assert(has_key(self.entries@, k));
                let j = index_of(self.entries@, k);
                assert(0 <= j < self.entries@.len() && self.entries@[j].0@ == k);
            }
        }
        Ok(())
    }
}

impl Clone for KvMap {
    /// A deep copy that denotes the same mapping.
    fn clone(&self) -> (r: Self)
        ensures
            r@ == self@,
    {
        proof {
            use_type_invariant(&*self);
        }
        let n = self.entries.len();
        let mut out: Vec<(String, String)> = Vec::new();
        let mut i: usize = 0;
        while i < n
            invariant
                0 <= i <= n,
                n == self.entries@.len(),
                out@.len() == i,
                forall|j: int| 0 <= j < i ==> #[trigger] out@[j] == self.entries@[j],
            decreases n - i,
        {
            let e = &self.entries[i];
            let k = e.0.clone();
            let v = e.1.clone();
            out.push((k, v));
            i += 1;
        }
        proof {
            assert(out@ =~= self.entries@);
        }
        KvMap { entries: out }
    }
}

} // verus!
