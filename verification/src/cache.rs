//! The cache store: the writer of record for cached blobs.
//!
//! The store maps byte-exact keys to opaque byte values. Its contents are
//! modelled as a `Map<Seq<u8>, Seq<u8>>`; every operation's contract is
//! stated against that map. Entries are held with unique keys for the
//! process lifetime; the profile and path the store was opened with are
//! kept so the surrounding process knows how its on-disk root would be
//! managed.

use vstd::prelude::*;
use vstd::string::StringSliceAdditionalSpecFns;
use vstd::string::StrSliceExecFns;
use vstd::string::StringExecFns;
use vstd::utf8::{encode_utf8, valid_utf8};

use crate::config::{recommended_profile, StoreProfile};

verus! {

/// An operation the engine could not complete; surfaced, never retried.
#[derive(Debug)]
pub struct EngineError {
    /// The engine's own description of the failure.
    pub message: String,
}

/// The three outcomes of a read: a miss is a normal outcome, an engine
/// failure is exceptional and must stay distinguishable from it.
pub enum GetResult {
    /// The key is present; the stored bytes, in full.
    Found(Vec<u8>),
    /// The key is absent.
    NotFound,
    /// The engine failed the read.
    EngineError(EngineError),
}

/// The contents map described by a sequence of (key, value) entries.
pub open spec fn entries_map(s: Seq<(Vec<u8>, Vec<u8>)>) -> Map<Seq<u8>, Seq<u8>>
    decreases s.len(),
{
    if s.len() == 0 {
        Map::empty()
    } else {
        entries_map(s.drop_last()).insert(s.last().0@, s.last().1@)
    }
}

/// No two entries share a key.
pub open spec fn keys_unique(s: Seq<(Vec<u8>, Vec<u8>)>) -> bool {
    forall|i: int, j: int| 0 <= i < j < s.len() ==> (#[trigger] s[i]).0@ != (#[trigger] s[j]).0@
}

proof fn lemma_entries_map_contains(s: Seq<(Vec<u8>, Vec<u8>)>, k: Seq<u8>)
    ensures
        entries_map(s).contains_key(k) <==> exists|i: int|
            0 <= i < s.len() && (#[trigger] s[i]).0@ == k,
    decreases s.len(),
{
    if s.len() > 0 {
        lemma_entries_map_contains(s.drop_last(), k);
        if s.last().0@ == k {
            assert(s[s.len() - 1].0@ == k);
        } else if entries_map(s).contains_key(k) {
            let i = choose|i: int| 0 <= i < s.len() - 1 && (#[trigger] s.drop_last()[i]).0@ == k;
            assert(s[i].0@ == k);
        } else if exists|i: int| 0 <= i < s.len() && (#[trigger] s[i]).0@ == k {
            let i = choose|i: int| 0 <= i < s.len() && (#[trigger] s[i]).0@ == k;
            assert(s.drop_last()[i].0@ == k);
        }
    }
}

proof fn lemma_entries_map_index(s: Seq<(Vec<u8>, Vec<u8>)>, i: int)
    requires
        keys_unique(s),
        0 <= i < s.len(),
    ensures
        entries_map(s).contains_key(s[i].0@),
        entries_map(s)[s[i].0@] == s[i].1@,
    decreases s.len(),
{
    if i < s.len() - 1 {
        assert(keys_unique(s.drop_last())) by {
            assert(forall|p: int, q: int|
                0 <= p < q < s.len() - 1 ==> (#[trigger] s.drop_last()[p]).0@
                    != (#[trigger] s.drop_last()[q]).0@);
        }
        lemma_entries_map_index(s.drop_last(), i);
        assert(s.drop_last()[i] == s[i]);
        assert(s[i].0@ != s.last().0@);
    }
}

proof fn lemma_entries_map_push(s: Seq<(Vec<u8>, Vec<u8>)>, p: (Vec<u8>, Vec<u8>))
    ensures
        entries_map(s.push(p)) == entries_map(s).insert(p.0@, p.1@),
{
    assert(s.push(p).drop_last() =~= s);
    assert(s.push(p).last() == p);
}

proof fn lemma_entries_map_remove(s: Seq<(Vec<u8>, Vec<u8>)>, i: int)
    requires
        keys_unique(s),
        0 <= i < s.len(),
    ensures
        keys_unique(s.remove(i)),
        entries_map(s.remove(i)) == entries_map(s).remove(s[i].0@),
        forall|j: int| 0 <= j < s.remove(i).len() ==> (#[trigger] s.remove(i)[j]).0@ != s[i].0@,
    decreases s.len(),
{
    let r = s.remove(i);
    assert(keys_unique(r)) by {
        assert(forall|p: int, q: int|
            0 <= p < q < r.len() ==> (#[trigger] r[p]).0@ != (#[trigger] r[q]).0@) by {
            assert(forall|p: int| 0 <= p < i ==> r[p] == s[p]);
            assert(forall|p: int| i <= p < r.len() ==> r[p] == s[p + 1]);
        }
    }
    assert(forall|j: int| 0 <= j < r.len() ==> (#[trigger] r[j]).0@ != s[i].0@) by {
        assert(forall|p: int| 0 <= p < i ==> r[p] == s[p]);
        assert(forall|p: int| i <= p < r.len() ==> r[p] == s[p + 1]);
    }
    if i == s.len() - 1 {
        assert(r =~= s.drop_last());
        lemma_entries_map_contains(s.drop_last(), s[i].0@);
        assert(!entries_map(s.drop_last()).contains_key(s[i].0@)) by {
            assert(forall|j: int|
                0 <= j < s.len() - 1 ==> (#[trigger] s.drop_last()[j]).0@ != s[i].0@);
        }
        assert(entries_map(r) =~= entries_map(s).remove(s[i].0@));
    } else {
        assert(keys_unique(s.drop_last())) by {
            assert(forall|p: int, q: int|
                0 <= p < q < s.len() - 1 ==> (#[trigger] s.drop_last()[p]).0@
                    != (#[trigger] s.drop_last()[q]).0@);
        }
        lemma_entries_map_remove(s.drop_last(), i);
        assert(s.drop_last()[i] == s[i]);
        assert(r.drop_last() =~= s.drop_last().remove(i));
        assert(r.last() == s.last());
        assert(entries_map(r) == entries_map(s.drop_last().remove(i)).insert(
            s.last().0@,
            s.last().1@,
        ));
        assert(s[i].0@ != s.last().0@);
        assert(entries_map(r) =~= entries_map(s).remove(s[i].0@));
    }
}

/// Byte-exact comparison of two byte vectors.
fn bytes_eq(a: &Vec<u8>, b: &Vec<u8>) -> (r: bool)
    ensures
        r == (a@ == b@),
{
    if a.len() != b.len() {
        return false;
    }
    let mut i: usize = 0;
    while i < a.len()
        invariant
            a@.len() == b@.len(),
            i <= a@.len(),
            forall|j: int| 0 <= j < i ==> a@[j] == b@[j],
        decreases a@.len() - i,
    {
        if a[i] != b[i] {
            return false;
        }
        i += 1;
    }
    proof {
        assert(a@ =~= b@);
    }
    true
}

/// A fresh copy of a byte vector.
fn copy_bytes(v: &Vec<u8>) -> (r: Vec<u8>)
    ensures
        r@ == v@,
{
    let mut r: Vec<u8> = Vec::new();
    let mut i: usize = 0;
    while i < v.len()
        invariant
            i <= v@.len(),
            r@ == v@.take(i as int),
        decreases v@.len() - i,
    {
        r.push(v[i]);
        proof {
            assert(r@ =~= v@.take(i + 1));
        }
        i += 1;
    }
    proof {
        assert(v@.take(v@.len() as int) =~= v@);
    }
    r
}

/// The index of the entry holding `key`, if one does.
fn find_index(entries: &Vec<(Vec<u8>, Vec<u8>)>, key: &Vec<u8>) -> (r: Option<usize>)
    ensures
        r matches Some(i) ==> i < entries@.len() && entries@[i as int].0@ == key@,
        r is None ==> forall|j: int| 0 <= j < entries@.len() ==> (#[trigger] entries@[j]).0@
            != key@,
{
    let mut i: usize = 0;
    while i < entries.len()
        invariant
            i <= entries@.len(),
            forall|j: int| 0 <= j < i ==> (#[trigger] entries@[j]).0@ != key@,
        decreases entries@.len() - i,
    {
        if bytes_eq(&entries[i].0, key) {
            return Some(i);
        }
        i += 1;
    }
    None
}

/// The cache store. It owns the cached entries, keyed byte-exactly, and is
/// the sole writer of record for cache state. Reads, writes and removals of
/// one key are independent of every other key.
pub struct Database {
    entries: Vec<(Vec<u8>, Vec<u8>)>,
    profile: StoreProfile,
    path: String,
}

impl View for Database {
    type V = Map<Seq<u8>, Seq<u8>>;

    /// The store's contents: stored key bytes mapped to stored value bytes.
    closed spec fn view(&self) -> Map<Seq<u8>, Seq<u8>> {
        entries_map(self.entries@)
    }
}

impl Database {
    #[verifier::type_invariant]
    spec fn inv(&self) -> bool {
        keys_unique(self.entries@)
    }

    /// The path the store was opened at.
    pub closed spec fn spec_path(&self) -> Seq<char> {
        self.path@
    }

    /// The profile the store was opened with.
    pub closed spec fn spec_profile(&self) -> StoreProfile {
        self.profile
    }

    /// Open an empty store rooted at `path`, configured by `profile`.
    pub fn open(path: &str, profile: StoreProfile) -> (db: Database)
        ensures
            db@ == Map::<Seq<u8>, Seq<u8>>::empty(),
            db.spec_path() == path@,
            db.spec_profile() == profile,
    {
        Database { entries: Vec::new(), profile, path: String::from_str(path) }
    }

    /// Where the store's on-disk root would live.
    pub fn path(&self) -> (p: &String)
        ensures
            p@ == self.spec_path(),
    {
        &self.path
    }

    /// The configuration the store was opened with.
    pub fn profile(&self) -> (p: &StoreProfile)
        ensures
            *p == self.spec_profile(),
    {
        &self.profile
    }

    /// Associate `key` with `value`, replacing any prior value.
    /// The new association is visible to every subsequent read.
    pub fn put(&mut self, key: &Vec<u8>, value: &Vec<u8>) -> (r: Result<(), EngineError>)
        ensures
            r is Ok,
            final(self)@ == old(self)@.insert(key@, value@),
            final(self).spec_path() == old(self).spec_path(),
            final(self).spec_profile() == old(self).spec_profile(),
    {
        proof {
            use_type_invariant(&*self);
        }
        let kcopy = copy_bytes(key);
        let vcopy = copy_bytes(value);
        let mut entries: Vec<(Vec<u8>, Vec<u8>)> = Vec::new();
        std::mem::swap(&mut entries, &mut self.entries);
        let ghost s0 = entries@;
        match find_index(&entries, key) {
            Some(i) => {
                proof {
                    lemma_entries_map_remove(s0, i as int);
                }
                entries.remove(i);
                let ghost s1 = entries@;
                proof {
                    lemma_entries_map_push(s1, (kcopy, vcopy));
                }
                entries.push((kcopy, vcopy));
                proof {
                    assert(entries_map(s1.push((kcopy, vcopy))) =~= entries_map(s0).insert(
                        key@,
                        value@,
                    ));
                }
            },
            None => {
                proof {
                    lemma_entries_map_push(s0, (kcopy, vcopy));
                }
                entries.push((kcopy, vcopy));
            },
        }
        self.entries = entries;
        Ok(())
    }

    /// Read the current value under `key`: the stored bytes when present,
    /// an explicit miss when absent. This store completes every read, so a
    /// read of an absent key is always the miss, never an engine failure.
    pub fn get(&self, key: &Vec<u8>) -> (r: GetResult)
        ensures
            self@.contains_key(key@) ==> (r matches GetResult::Found(v) && v@ == self@[key@]),
            !self@.contains_key(key@) ==> r is NotFound,
    {
        proof {
            use_type_invariant(&*self);
        }
        match find_index(&self.entries, key) {
            Some(i) => {
                proof {
                    lemma_entries_map_index(self.entries@, i as int);
                }
                GetResult::Found(copy_bytes(&self.entries[i].1))
            },
            None => {
                proof {
                    lemma_entries_map_contains(self.entries@, key@);
                }
                GetResult::NotFound
            },
        }
    }

    /// Remove the entry under `key`, if any. Removing an absent key is not
    /// an error: the store is simply left as it is.
    pub fn delete(&mut self, key: &Vec<u8>) -> (r: Result<(), EngineError>)
        ensures
            r is Ok,
            final(self)@ == old(self)@.remove(key@),
            final(self).spec_path() == old(self).spec_path(),
            final(self).spec_profile() == old(self).spec_profile(),
    {
        proof {
            use_type_invariant(&*self);
        }
        let mut entries: Vec<(Vec<u8>, Vec<u8>)> = Vec::new();
        std::mem::swap(&mut entries, &mut self.entries);
        let ghost s0 = entries@;
        match find_index(&entries, key) {
            Some(i) => {
                proof {
                    lemma_entries_map_remove(s0, i as int);
                }
                entries.remove(i);
            },
            None => {
                proof {
                    lemma_entries_map_contains(s0, key@);
                    assert(entries_map(s0).remove(key@) =~= entries_map(s0));
                }
            },
        }
        self.entries = entries;
        Ok(())
    }

    /// Existence probe: exact, and cheaper than copying the value out.
    /// A `false` is definitive; a `true` still stands for "read to confirm"
    /// in callers that treat the probe as a pre-filter.
    pub fn contains_key(&self, key: &Vec<u8>) -> (r: bool)
        ensures
            r == self@.contains_key(key@),
    {
        proof {
            use_type_invariant(&*self);
        }
        let found = find_index(&self.entries, key);
        proof {
            lemma_entries_map_contains(self.entries@, key@);
        }
        found.is_some()
    }
}

/// Relies on `String::from_utf8`: decoding succeeds exactly on valid UTF-8
/// input, and the returned string's UTF-8 encoding is the input itself.
#[verifier::external_body]
fn bytes_to_string(b: Vec<u8>) -> (r: Option<String>)
    ensures
        r matches Some(s) ==> encode_utf8(s@) == b@,
        valid_utf8(b@) ==> r is Some,
{
    String::from_utf8(b).ok()
}

/// The string-keyed face of the store: keys and values carried as UTF-8
/// text, stored by their byte encoding.
pub trait DBOperations: Sized {
    /// The abstract contents: stored key bytes mapped to stored value bytes.
    spec fn contents(&self) -> Map<Seq<u8>, Seq<u8>>;

    /// Where the store's on-disk root would live.
    spec fn opened_path(&self) -> Seq<char>;

    /// The engine configuration the store was opened with; fixed at
    /// initialization, immutable thereafter.
    spec fn opened_profile(&self) -> StoreProfile;

    /// Open the store rooted at `file_path`, with nothing cached yet, under
    /// the recommended engine profile.
    fn init(file_path: &str) -> (db: Self)
        ensures
            db.contents() == Map::<Seq<u8>, Seq<u8>>::empty(),
            db.opened_path() == file_path@,
            db.opened_profile() == recommended_profile(),
    ;

    /// Associate `k` with `v`; `true` reports that the write took effect,
    /// which in this store it always does.
    fn save(&mut self, k: &str, v: &str) -> (ok: bool)
        ensures
            ok,
            final(self).contents() == old(self).contents().insert(
                encode_utf8(k@),
                encode_utf8(v@),
            ),
            final(self).opened_path() == old(self).opened_path(),
            final(self).opened_profile() == old(self).opened_profile(),
    ;

    /// The value stored under `k`: present and decodable as text gives the
    /// text, absent gives nothing; a stored value that is not UTF-8 has no
    /// text to give.
    fn find(&self, k: &str) -> (r: Option<String>)
        ensures
            r matches Some(s) ==> self.contents().contains_key(encode_utf8(k@))
                && encode_utf8(s@) == self.contents()[encode_utf8(k@)],
            !self.contents().contains_key(encode_utf8(k@)) ==> r is None,
            self.contents().contains_key(encode_utf8(k@)) && valid_utf8(
                self.contents()[encode_utf8(k@)],
            ) ==> r is Some,
    ;

    /// Remove the entry under `k`, if any; `true` reports that `k` is now
    /// absent, which in this store it always is.
    fn delete(&mut self, k: &str) -> (ok: bool)
        ensures
            ok,
            final(self).contents() == old(self).contents().remove(encode_utf8(k@)),
            final(self).opened_path() == old(self).opened_path(),
            final(self).opened_profile() == old(self).opened_profile(),
    ;
}

impl DBOperations for Database {
    open spec fn contents(&self) -> Map<Seq<u8>, Seq<u8>> {
        self@
    }

    open spec fn opened_path(&self) -> Seq<char> {
        self.spec_path()
    }

    open spec fn opened_profile(&self) -> StoreProfile {
        self.spec_profile()
    }

    fn init(file_path: &str) -> (db: Self) {
        Database::open(file_path, StoreProfile::recommended())
    }

    fn save(&mut self, k: &str, v: &str) -> (ok: bool) {
        let kb = k.as_bytes_vec();
        let vb = v.as_bytes_vec();
        self.put(&kb, &vb).is_ok()
    }

    fn find(&self, k: &str) -> (r: Option<String>) {
        let kb = k.as_bytes_vec();
        match self.get(&kb) {
            GetResult::Found(v) => bytes_to_string(v),
            GetResult::NotFound => None,
            GetResult::EngineError(_) => None,
        }
    }

    fn delete(&mut self, k: &str) -> (ok: bool) {
        let kb = k.as_bytes_vec();
        Database::delete(self, &kb).is_ok()
    }
}

/// A write followed by a read of the same key: once `put(k, v)` has taken
/// effect, the contents map `k` to exactly `v`, whatever was stored before,
/// so a read of `k` returns `v` byte for byte — also when `v` is empty or
/// larger than one transfer chunk.
pub proof fn lemma_put_then_get(m: Map<Seq<u8>, Seq<u8>>, k: Seq<u8>, v: Seq<u8>)
    ensures
        m.insert(k, v).contains_key(k),
        m.insert(k, v)[k] == v,
{
}

/// Deletion is idempotent and definitive: after a delete of `k` a read of
/// `k` misses; deleting an absent key leaves the contents untouched; and
/// deleting twice is the same as deleting once.
pub proof fn lemma_delete_idempotent(m: Map<Seq<u8>, Seq<u8>>, k: Seq<u8>)
    ensures
        !m.remove(k).contains_key(k),
        m.remove(k).remove(k) == m.remove(k),
        !m.contains_key(k) ==> m.remove(k) == m,
{
    assert(m.remove(k).remove(k) =~= m.remove(k));
    if !m.contains_key(k) {
        assert(m.remove(k) =~= m);
    }
}

/// Reads with no interposed write agree: a found value is a function of
/// the contents alone, so across two store states between which no write
/// touched `k`, every read that finds a value for `k` finds the same bytes.
pub proof fn lemma_stable_reads_agree(
    m1: Map<Seq<u8>, Seq<u8>>,
    m2: Map<Seq<u8>, Seq<u8>>,
    k: Seq<u8>,
    v1: Seq<u8>,
    v2: Seq<u8>,
)
    requires
        m1.contains_key(k) ==> m2.contains_key(k) && m1[k] == m2[k],
        m1.contains_key(k) && v1 == m1[k],
        m2.contains_key(k) && v2 == m2[k],
    ensures
        v1 == v2,
{
}

/// Last writer wins: after `k` is overwritten with `v2`, a read that starts
/// after that write observes `v2`, never the value it replaced.
pub proof fn lemma_last_writer_wins(
    m: Map<Seq<u8>, Seq<u8>>,
    k: Seq<u8>,
    v1: Seq<u8>,
    v2: Seq<u8>,
)
    ensures
        m.insert(k, v1).insert(k, v2)[k] == v2,
        m.insert(k, v1).insert(k, v2) == m.insert(k, v2),
{
    assert(m.insert(k, v1).insert(k, v2) =~= m.insert(k, v2));
}

} // verus!
