//! An in-memory object store: the flat key-to-bytes namespace that the
//! object-store contract describes, held entirely in plain values. It backs
//! the round-trip and idempotence checks and substitutes for a remote
//! backend wherever one is not wanted.

use vstd::prelude::*;
use crate::providers::s3::RawListEntry;

verus! {

/// A flat namespace from keys to object bodies. Its mathematical content is
/// the map from key characters to byte contents; later writes of a key
/// override earlier ones.
pub struct MemoryObjectStore {
    objects: Vec<(String, Vec<u8>)>,
}

/// The map a journal of writes denotes: each pair in order, later pairs
/// overriding earlier ones.
pub open spec fn store_map(s: Seq<(String, Vec<u8>)>) -> Map<Seq<char>, Seq<u8>>
    decreases s.len(),
{
    if s.len() == 0 {
        Map::empty()
    } else {
        store_map(s.drop_last()).insert(s.last().0@, s.last().1@)
    }
}

/// The journal with every write of `k` struck out.
pub open spec fn remove_key(s: Seq<(String, Vec<u8>)>, k: Seq<char>) -> Seq<(String, Vec<u8>)>
    decreases s.len(),
{
    if s.len() == 0 {
        s
    } else {
        let r = remove_key(s.drop_last(), k);
        if s.last().0@ == k {
            r
        } else {
            r.push(s.last())
        }
    }
}

proof fn lemma_store_map_remove(s: Seq<(String, Vec<u8>)>, k: Seq<char>)
    ensures
        store_map(remove_key(s, k)) == store_map(s).remove(k),
    decreases s.len(),
{
    if s.len() == 0 {
        assert(store_map(remove_key(s, k)) =~= store_map(s).remove(k));
    } else {
        let t = s.drop_last();
        lemma_store_map_remove(t, k);
        if s.last().0@ == k {
            assert(store_map(s).remove(k) =~= store_map(t).remove(k));
        } else {
            let r = remove_key(t, k);
            assert(r.push(s.last()).drop_last() =~= r);
            assert(store_map(remove_key(s, k)) == store_map(t).remove(k).insert(
                s.last().0@,
                s.last().1@,
            ));
            assert(store_map(t).remove(k).insert(s.last().0@, s.last().1@) =~= store_map(t).insert(
                s.last().0@,
                s.last().1@,
            ).remove(k));
        }
    }
}

proof fn lemma_occurrence_implies_contains(s: Seq<(String, Vec<u8>)>, i: int)
    requires
        0 <= i < s.len(),
    ensures
        store_map(s).contains_key(s[i].0@),
    decreases s.len(),
{
    if i < s.len() - 1 {
        lemma_occurrence_implies_contains(s.drop_last(), i);
    }
}

proof fn lemma_contains_implies_occurrence(s: Seq<(String, Vec<u8>)>, k: Seq<char>)
    requires
        store_map(s).contains_key(k),
    ensures
        exists|i: int| 0 <= i < s.len() && (#[trigger] s[i]).0@ == k,
    decreases s.len(),
{
    if s.len() > 0 && s.last().0@ != k {
        lemma_contains_implies_occurrence(s.drop_last(), k);
        let i = choose|i: int|
            0 <= i < s.drop_last().len() && (#[trigger] s.drop_last()[i]).0@ == k;
        assert(s[i].0@ == k);
    }
}

proof fn lemma_store_map_at(s: Seq<(String, Vec<u8>)>, i: int, k: Seq<char>)
    requires
        0 <= i < s.len(),
        s[i].0@ == k,
        forall|j: int| i < j < s.len() ==> (#[trigger] s[j]).0@ != k,
    ensures
        store_map(s).contains_key(k),
        store_map(s)[k] == s[i].1@,
    decreases s.len(),
{
    let t = s.drop_last();
    if i == s.len() - 1 {
    } else {
        assert(forall|j: int| i < j < t.len() ==> (#[trigger] t[j]).0@ != k);
        lemma_store_map_at(t, i, k);
        assert(s.last().0@ != k);
    }
}

proof fn lemma_store_map_absent(s: Seq<(String, Vec<u8>)>, k: Seq<char>)
    requires
        forall|i: int| 0 <= i < s.len() ==> (#[trigger] s[i]).0@ != k,
    ensures
        !store_map(s).contains_key(k),
    decreases s.len(),
{
    if s.len() == 0 {
    } else {
        let t = s.drop_last();
        assert(forall|i: int| 0 <= i < t.len() ==> (#[trigger] t[i]).0@ != k);
        lemma_store_map_absent(t, k);
        assert(s.last().0@ != k);
    }
}

/// Round trip: after an upload, a download of the same key yields exactly
/// the uploaded bytes, whatever the store held before.
pub proof fn lemma_upload_download_round_trip(
    m: Map<Seq<char>, Seq<u8>>,
    k: Seq<char>,
    v: Seq<u8>,
)
    ensures
        m.insert(k, v).contains_key(k),
        m.insert(k, v)[k] == v,
{
}

/// Whether `prefix` leads `key`, character for character.
fn has_char_prefix(key: &String, prefix: &String) -> (b: bool)
    ensures
        b == (key@.len() >= prefix@.len() && key@.take(prefix@.len() as int) == prefix@),
{
    let klen: usize = key.as_str().unicode_len();
    let plen: usize = prefix.as_str().unicode_len();
    if klen < plen {
        return false;
    }
    let head = key.as_str().substring_char(0, plen).to_owned();
    proof {
        assert(head@ =~= key@.take(plen as int));
    }
    head.eq(prefix)
}

/// Whether a raw record for this key was already collected.
fn raws_contain_key(raws: &Vec<RawListEntry>, key: &String) -> (b: bool)
    ensures
        b == exists|j: int| 0 <= j < raws@.len() && (#[trigger] raws@[j])@.key == key@,
{
    let n: usize = raws.len();
    let mut i: usize = 0;
    while i < n
        invariant
            n == raws@.len(),
            i <= n,
            forall|j: int| 0 <= j < i ==> (#[trigger] raws@[j])@.key != key@,
        decreases n - i,
    {
        if raws[i].key.eq(key) {
            assert((#[trigger] raws@[i as int])@.key == key@);
            return true;
        }
        i = i + 1;
    }
    false
}

impl View for MemoryObjectStore {
    type V = Map<Seq<char>, Seq<u8>>;

    closed spec fn view(&self) -> Map<Seq<char>, Seq<u8>> {
        store_map(self.objects@)
    }
}

impl MemoryObjectStore {
    /// A fresh store holding nothing.
    pub fn new() -> (s: MemoryObjectStore)
        ensures
            s@ == Map::<Seq<char>, Seq<u8>>::empty(),
    {
        MemoryObjectStore { objects: Vec::new() }
    }

    /// Uploads an object body under a key, creating or replacing it.
    pub fn put(&mut self, key: String, data: Vec<u8>)
        ensures
            final(self)@ == old(self)@.insert(key@, data@),
    {
        let ghost s0 = self.objects@;
        let ghost kv = (key@, data@);
        self.objects.push((key, data));
        proof {
            assert(self.objects@.drop_last() =~= s0);
            assert(self.objects@.last().0@ == kv.0 && self.objects@.last().1@ == kv.1);
        }
    }

    /// Downloads the body stored under a key, or reports that the key holds
    /// nothing.
    pub fn get(&self, key: &String) -> (r: Option<&Vec<u8>>)
        ensures
            match r {
                Option::Some(d) => self@.contains_key(key@) && d@ == self@[key@],
                Option::None => !self@.contains_key(key@),
            },
    {
        let n: usize = self.objects.len();
        let mut i: usize = n;
        while i > 0
            invariant
                i <= n,
                n == self.objects@.len(),
                forall|j: int| i <= j < n ==> (#[trigger] self.objects@[j]).0@ != key@,
            decreases i,
        {
            i = i - 1;
            if self.objects[i].0.eq(key) {
                proof {
                    lemma_store_map_at(self.objects@, i as int, key@);
                }
                return Some(&self.objects[i].1);
            }
        }
        proof {
            lemma_store_map_absent(self.objects@, key@);
        }
        None
    }

    /// Lists every key held under a prefix, once each, as raw listing
    /// records ready for the virtualization. The in-memory store keeps
    /// bodies only, so the records carry no object metadata.
    pub fn list_raw(&self, prefix: &String) -> (raws: Vec<RawListEntry>)
        ensures
            forall|t: int|
                0 <= t < raws@.len() ==> {
                    let r = (#[trigger] raws@[t])@;
                    self@.contains_key(r.key) && r.key.len() >= prefix@.len() && r.key.take(
                        prefix@.len() as int,
                    ) == prefix@ && r.size is None && r.last_modified is None
                        && r.storage_class is None && r.owner is None
                },
            forall|t: int, u: int|
                0 <= t < u < raws@.len() ==> (#[trigger] raws@[t])@.key != (
                #[trigger] raws@[u])@.key,
            forall|k: Seq<char>|
                #[trigger] self@.contains_key(k) && k.len() >= prefix@.len() && k.take(
                    prefix@.len() as int,
                ) == prefix@ ==> exists|t: int|
                    0 <= t < raws@.len() && (#[trigger] raws@[t])@.key == k,
    {
        let n: usize = self.objects.len();
        let mut raws: Vec<RawListEntry> = Vec::new();
        let mut i: usize = 0;
        while i < n
            invariant
                n == self.objects@.len(),
                i <= n,
                forall|t: int|
                    0 <= t < raws@.len() ==> {
                        let r = (#[trigger] raws@[t])@;
                        (exists|j: int|
                            0 <= j < self.objects@.len() && (#[trigger] self.objects@[j]).0@
                                == r.key) && r.key.len() >= prefix@.len() && r.key.take(
                            prefix@.len() as int,
                        ) == prefix@ && r.size is None && r.last_modified is None
                            && r.storage_class is None && r.owner is None
                    },
                forall|t: int, u: int|
                    0 <= t < u < raws@.len() ==> (#[trigger] raws@[t])@.key != (
                    #[trigger] raws@[u])@.key,
                forall|j: int|
                    0 <= j < i && (#[trigger] self.objects@[j]).0@.len() >= prefix@.len()
                        && self.objects@[j].0@.take(prefix@.len() as int) == prefix@
                        ==> exists|t: int|
                        0 <= t < raws@.len() && (#[trigger] raws@[t])@.key
                            == self.objects@[j].0@,
            decreases n - i,
        {
            if has_char_prefix(&self.objects[i].0, prefix) {
                if !raws_contain_key(&raws, &self.objects[i].0) {
                    let ghost before = raws@;
                    raws.push(
                        RawListEntry {
                            key: self.objects[i].0.clone(),
                            size: None,
                            last_modified: None,
                            storage_class: None,
                            owner: None,
                        },
                    );
                    proof {
                        assert(forall|t: int|
                            0 <= t < before.len() ==> raws@[t] == #[trigger] before[t]);
                        assert((#[trigger] raws@[before.len() as int])@.key
                            == self.objects@[i as int].0@);
                    }
                }
            }
            i = i + 1;
        }
        proof {
            assert forall|t: int| 0 <= t < raws@.len() implies self@.contains_key(
                (#[trigger] raws@[t])@.key,
            ) by {
                let r = raws@[t]@;
                let j = choose|j: int|
                    0 <= j < self.objects@.len() && (#[trigger] self.objects@[j]).0@ == r.key;
                lemma_occurrence_implies_contains(self.objects@, j);
            }
            assert forall|k: Seq<char>|
                #[trigger] self@.contains_key(k) && k.len() >= prefix@.len() && k.take(
                    prefix@.len() as int,
                ) == prefix@ implies exists|t: int|
                0 <= t < raws@.len() && (#[trigger] raws@[t])@.key == k by {
                lemma_contains_implies_occurrence(self.objects@, k);
                let j = choose|j: int|
                    0 <= j < self.objects@.len() && (#[trigger] self.objects@[j]).0@ == k;
                assert(self.objects@[j].0@.take(prefix@.len() as int) == prefix@);
            }
        }
        raws
    }

    /// Deletes exactly the object under a key. Deletion is idempotent: on a
    /// key that holds nothing it succeeds and changes nothing.
    pub fn delete(&mut self, key: &String)
        ensures
            final(self)@ == old(self)@.remove(key@),
            !old(self)@.contains_key(key@) ==> final(self)@ == old(self)@,
    {
        let ghost s0 = self.objects@;
        let n0: usize = self.objects.len();
        let mut kept: Vec<(String, Vec<u8>)> = Vec::new();
        let mut idx: usize = 0;
        proof {
            assert(s0.skip(0) =~= s0);
        }
        while self.objects.len() > 0
            invariant
                n0 == s0.len(),
                idx <= n0,
                self.objects@ == s0.skip(idx as int),
                kept@ == remove_key(s0.take(idx as int), key@),
            decreases s0.len() - idx,
        {
            let pair = self.objects.remove(0);
            proof {
                assert(pair == s0[idx as int]);
                assert(self.objects@ =~= s0.skip(idx + 1));
                assert(s0.take(idx + 1).drop_last() =~= s0.take(idx as int));
                assert(s0.take(idx + 1).last() == s0[idx as int]);
            }
            if !pair.0.eq(key) {
                kept.push(pair);
            }
            proof {
                assert(kept@ =~= remove_key(s0.take(idx + 1), key@));
            }
            idx = idx + 1;
        }
        proof {
            assert(s0.take(idx as int) =~= s0);
        }
        self.objects = kept;
        proof {
            lemma_store_map_remove(s0, key@);
            if !store_map(s0).contains_key(key@) {
                assert(store_map(s0).remove(key@) =~= store_map(s0));
            }
        }
    }
}

} // verus!
