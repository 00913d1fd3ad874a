//! Object-store provider logic: the prefix-to-hierarchy virtualization
//! algorithm that turns one flat key listing into a single level of a
//! synthetic directory tree.
//!
//! The network calls themselves (list/get/put/delete against the object
//! store) are I/O and live outside the library; they hand the raw listing in
//! as plain values and receive the virtualized entries back.

use vstd::prelude::*;
use crate::Kind;

verus! {

/// One raw listing record as the backend reports it, reduced to plain values:
/// the full flat-namespace key plus the optional metadata the service sent.
/// Metadata fields are `None` when the service omitted them.
#[derive(Clone, Debug)]
pub struct RawListEntry {
    pub key: String,
    pub size: Option<i64>,
    pub last_modified: Option<String>,
    pub storage_class: Option<String>,
    pub owner: Option<String>,
}

/// One virtualized entry of the object store, relative to the prefix under
/// which it was discovered. `last_mod` is seconds since the Unix epoch.
#[derive(Clone, Debug)]
pub struct S3Object {
    pub name: String,
    pub prefix: String,
    pub kind: Kind,
    pub size: Option<i64>,
    pub last_mod: Option<i64>,
    pub storage_class: Option<String>,
    pub owner: Option<String>,
}

/// Mathematical model of a raw listing record.
#[verifier::ext_equal]
pub struct RawModel {
    pub key: Seq<char>,
    pub size: Option<i64>,
    pub last_modified: Option<Seq<char>>,
    pub storage_class: Option<Seq<char>>,
    pub owner: Option<Seq<char>>,
}

/// Mathematical model of a virtualized entry.
#[verifier::ext_equal]
pub struct EntryModel {
    pub name: Seq<char>,
    pub prefix: Seq<char>,
    pub kind: Kind,
    pub size: Option<i64>,
    pub last_mod: Option<i64>,
    pub storage_class: Option<Seq<char>>,
    pub owner: Option<Seq<char>>,
}

pub open spec fn opt_str_view(o: Option<String>) -> Option<Seq<char>> {
    match o {
        Option::Some(s) => Option::Some(s@),
        Option::None => Option::None,
    }
}

impl View for RawListEntry {
    type V = RawModel;

    open spec fn view(&self) -> RawModel {
        RawModel {
            key: self.key@,
            size: self.size,
            last_modified: opt_str_view(self.last_modified),
            storage_class: opt_str_view(self.storage_class),
            owner: opt_str_view(self.owner),
        }
    }
}

impl View for S3Object {
    type V = EntryModel;

    open spec fn view(&self) -> EntryModel {
        EntryModel {
            name: self.name@,
            prefix: self.prefix@,
            kind: self.kind,
            size: self.size,
            last_mod: self.last_mod,
            storage_class: opt_str_view(self.storage_class),
            owner: opt_str_view(self.owner),
        }
    }
}

pub open spec fn raw_views(v: Seq<RawListEntry>) -> Seq<RawModel> {
    v.map_values(|r: RawListEntry| r@)
}

pub open spec fn entry_views(v: Seq<S3Object>) -> Seq<EntryModel> {
    v.map_values(|e: S3Object| e@)
}

/// The number of seconds since the Unix epoch that an RFC 3339 date-and-time
/// string denotes, or `None` when the string is not a valid RFC 3339 value.
/// The result is a function of the characters alone.
pub uninterp spec fn rfc3339_epoch_of(s: Seq<char>) -> Option<i64>;

/// Relies on chrono's `DateTime::parse_from_rfc3339`, which parses the string
/// into a date-and-time with fixed offset or fails, and on chrono's
/// `DateTime::timestamp`, which converts the parsed value to seconds since the
/// Unix epoch. Both compute from their argument alone.
#[verifier::external_body]
fn parse_rfc3339_epoch(s: &str) -> (r: Option<i64>)
    ensures
        r == rfc3339_epoch_of(s@),
{
    match chrono::DateTime::parse_from_rfc3339(s) {
        Ok(dt) => Some(dt.timestamp()),
        Err(_) => None,
    }
}

pub open spec fn epoch_of_opt(o: Option<Seq<char>>) -> Option<i64> {
    match o {
        Option::Some(s) => rfc3339_epoch_of(s),
        Option::None => Option::None,
    }
}

/// Whether the key separator occurs anywhere in `s`.
pub open spec fn has_sep(s: Seq<char>) -> bool {
    exists|i: int| 0 <= i < s.len() && s[i] == '/'
}

/// Whether `s` is free of the key separator.
pub open spec fn sep_free(s: Seq<char>) -> bool {
    forall|i: int| 0 <= i < s.len() ==> s[i] != '/'
}

/// Index of the first key separator in `s`; `s.len()` when there is none.
pub open spec fn first_sep(s: Seq<char>) -> int
    decreases s.len(),
{
    if s.len() == 0 {
        0
    } else if s[0] == '/' {
        0
    } else {
        1 + first_sep(s.skip(1))
    }
}

pub proof fn lemma_first_sep(s: Seq<char>)
    ensures
        0 <= first_sep(s) <= s.len(),
        has_sep(s) <==> first_sep(s) < s.len(),
        first_sep(s) < s.len() ==> s[first_sep(s)] == '/',
        forall|j: int| 0 <= j < first_sep(s) ==> s[j] != '/',
    decreases s.len(),
{
    if s.len() == 0 {
    } else if s[0] == '/' {
    } else {
        let t = s.skip(1);
        lemma_first_sep(t);
        assert(forall|i: int| 0 <= i < t.len() ==> t[i] == s[i + 1]);
        if has_sep(s) {
            let i = choose|i: int| 0 <= i < s.len() && s[i] == '/';
            assert(t[i - 1] == '/');
            assert(has_sep(t));
        }
        if has_sep(t) {
            let i = choose|i: int| 0 <= i < t.len() && t[i] == '/';
            assert(s[i + 1] == '/');
            assert(has_sep(s));
        }
        assert forall|j: int| 0 <= j < first_sep(s) implies s[j] != '/' by {
            if j >= 1 {
                assert(t[j - 1] == s[j]);
                assert(j - 1 < first_sep(t));
            }
        }
    }
}

/// The remainder of `key` after the leading `p` characters.
pub open spec fn rest_of(p: Seq<char>, key: Seq<char>) -> Seq<char> {
    key.skip(p.len() as int)
}

/// The display name of the directory grouping that a descendant remainder
/// belongs to: everything up to and including the first separator.
pub open spec fn group_name(rest: Seq<char>) -> Seq<char> {
    rest.take(first_sep(rest) + 1)
}

/// The entry that a direct file child maps to: the full remainder is the
/// display name and the record's metadata is carried over.
pub open spec fn file_entry_of(p: Seq<char>, r: RawModel) -> EntryModel {
    EntryModel {
        name: rest_of(p, r.key),
        prefix: p,
        kind: Kind::File,
        size: r.size,
        last_mod: epoch_of_opt(r.last_modified),
        storage_class: r.storage_class,
        owner: r.owner,
    }
}

/// The entry that a directory grouping maps to. A directory here is a derived
/// grouping of keys, not a real object, so it carries no object metadata.
pub open spec fn dir_entry_of(p: Seq<char>, rest: Seq<char>) -> EntryModel {
    EntryModel {
        name: group_name(rest),
        prefix: p,
        kind: Kind::Directory,
        size: Option::None,
        last_mod: Option::None,
        storage_class: Option::None,
        owner: Option::None,
    }
}

/// Whether some already-produced entry carries the given display name.
pub open spec fn contains_name(es: Seq<EntryModel>, n: Seq<char>) -> bool {
    exists|i: int| 0 <= i < es.len() && es[i].name == n
}

/// The virtualized listing for prefix `p` over the raw records `raws`, in
/// order of first appearance: a record whose remainder is empty is the prefix
/// marker and is dropped; a separator-free remainder is a direct file child;
/// any other remainder contributes its directory grouping, deduplicated by
/// display name.
pub open spec fn virt_listing(p: Seq<char>, raws: Seq<RawModel>) -> Seq<EntryModel>
    decreases raws.len(),
{
    if raws.len() == 0 {
        Seq::empty()
    } else {
        let prev = virt_listing(p, raws.drop_last());
        let r = raws.last();
        let rest = rest_of(p, r.key);
        if rest.len() == 0 {
            prev
        } else if !has_sep(rest) {
            if contains_name(prev, rest) {
                prev
            } else {
                prev.push(file_entry_of(p, r))
            }
        } else {
            if contains_name(prev, group_name(rest)) {
                prev
            } else {
                prev.push(dir_entry_of(p, rest))
            }
        }
    }
}

/// Whether no two produced entries share a display name.
pub open spec fn names_unique(es: Seq<EntryModel>) -> bool {
    forall|i: int, j: int|
        0 <= i < j < es.len() ==> (#[trigger] es[i]).name != (#[trigger] es[j]).name
}

/// Whether entry `e`, with its name prefix-prepended, reconstructs one
/// distinct key of `raws` (a file) or one key-prefix group of `raws` (a
/// directory grouping).
pub open spec fn entry_reconstructs(p: Seq<char>, raws: Seq<RawModel>, e: EntryModel) -> bool {
    match e.kind {
        Kind::File => e.name.len() > 0 && sep_free(e.name) && exists|i: int|
            0 <= i < raws.len() && (#[trigger] raws[i]).key == p + e.name,
        Kind::Directory => e.name.len() > 0 && e.name.last() == '/' && sep_free(e.name.drop_last())
            && exists|i: int|
            0 <= i < raws.len() && (p + e.name).is_prefix_of((#[trigger] raws[i]).key),
        Kind::Unknown => false,
    }
}

/// Whether a key of the input is represented in the produced entries: the
/// prefix-marker key by the prefix itself, a separator-free remainder by a
/// file entry of that name, and any deeper key by the directory entry of its
/// immediate grouping.
pub open spec fn key_represented(p: Seq<char>, es: Seq<EntryModel>, key: Seq<char>) -> bool {
    let rest = rest_of(p, key);
    if rest.len() == 0 {
        true
    } else if !has_sep(rest) {
        exists|j: int|
            0 <= j < es.len() && (#[trigger] es[j]).kind == Kind::File && es[j].name == rest
    } else {
        exists|j: int|
            0 <= j < es.len() && (#[trigger] es[j]).kind == Kind::Directory && es[j].name
                == group_name(rest)
    }
}

proof fn lemma_reconstructs_extend(p: Seq<char>, raws: Seq<RawModel>, e: EntryModel)
    requires
        raws.len() > 0,
        entry_reconstructs(p, raws.drop_last(), e),
    ensures
        entry_reconstructs(p, raws, e),
{
    let pr = raws.drop_last();
    assert(forall|i: int| 0 <= i < pr.len() ==> #[trigger] pr[i] == raws[i]);
    match e.kind {
        Kind::File => {
            let j = choose|j: int| 0 <= j < pr.len() && (#[trigger] pr[j]).key == p + e.name;
            assert(raws[j].key == p + e.name);
        },
        Kind::Directory => {
            let j = choose|j: int|
                0 <= j < pr.len() && (p + e.name).is_prefix_of((#[trigger] pr[j]).key);
            assert((p + e.name).is_prefix_of(raws[j].key));
        },
        Kind::Unknown => {},
    }
}

proof fn lemma_represented_push(p: Seq<char>, es: Seq<EntryModel>, x: EntryModel, key: Seq<char>)
    requires
        key_represented(p, es, key),
    ensures
        key_represented(p, es.push(x), key),
{
    let rest = rest_of(p, key);
    if rest.len() == 0 {
    } else if !has_sep(rest) {
        let j = choose|j: int|
            0 <= j < es.len() && (#[trigger] es[j]).kind == Kind::File && es[j].name == rest;
        assert((#[trigger] es.push(x)[j]).kind == Kind::File && es.push(x)[j].name == rest);
    } else {
        let j = choose|j: int|
            0 <= j < es.len() && (#[trigger] es[j]).kind == Kind::Directory && es[j].name
                == group_name(rest);
        assert((#[trigger] es.push(x)[j]).kind == Kind::Directory && es.push(x)[j].name
            == group_name(rest));
    }
}

/// The virtualization partition law: over any raw listing whose keys all
/// begin with the prefix, the produced entries are duplicate-free by name,
/// every entry reconstructs exactly one distinct key or key-prefix group of
/// the input, and every key of the input is represented by exactly one
/// produced entry.
pub proof fn lemma_virtualization_partition(p: Seq<char>, raws: Seq<RawModel>)
    requires
        forall|i: int|
            0 <= i < raws.len() ==> (#[trigger] raws[i]).key.len() >= p.len()
                && raws[i].key.take(p.len() as int) == p,
    ensures
        names_unique(virt_listing(p, raws)),
        forall|i: int|
            0 <= i < virt_listing(p, raws).len() ==> entry_reconstructs(
                p,
                raws,
                #[trigger] virt_listing(p, raws)[i],
            ),
        forall|i: int|
            0 <= i < raws.len() ==> key_represented(
                p,
                virt_listing(p, raws),
                (#[trigger] raws[i]).key,
            ),
    decreases raws.len(),
{
    let out = virt_listing(p, raws);
    if raws.len() == 0 {
    } else {
        let pr = raws.drop_last();
        let prev = virt_listing(p, pr);
        assert(forall|i: int| 0 <= i < pr.len() ==> #[trigger] pr[i] == raws[i]);
        lemma_virtualization_partition(p, pr);
        let r = raws.last();
        let rest = rest_of(p, r.key);
        let lastk = raws.len() - 1;
        assert(r == raws[lastk]);
        assert(r.key =~= p + rest);
        assert forall|i: int| 0 <= i < prev.len() implies entry_reconstructs(
            p,
            raws,
            #[trigger] prev[i],
        ) by {
            lemma_reconstructs_extend(p, raws, prev[i]);
        }
        if rest.len() == 0 {
            assert(out == prev);
        } else if !has_sep(rest) {
            assert(sep_free(rest)) by {
                assert forall|i: int| 0 <= i < rest.len() implies rest[i] != '/' by {
                    if rest[i] == '/' {
                        assert(has_sep(rest));
                    }
                }
            }
            if contains_name(prev, rest) {
                assert(out == prev);
                let j = choose|j: int| 0 <= j < prev.len() && (#[trigger] prev[j]).name == rest;
                assert(entry_reconstructs(p, pr, prev[j]));
                if prev[j].kind == Kind::Directory {
                    assert(rest.last() == '/');
                    assert(false);
                }
                assert(prev[j].kind == Kind::File);
                assert(key_represented(p, out, r.key));
            } else {
                let fe = file_entry_of(p, r);
                assert(out == prev.push(fe));
                assert forall|i: int, j: int| 0 <= i < j < out.len() implies (
                #[trigger] out[i]).name != (#[trigger] out[j]).name by {
                    if j == prev.len() {
                        assert(!contains_name(prev, rest));
                        assert(out[i] == prev[i]);
                    }
                }
                assert(entry_reconstructs(p, raws, fe)) by {
                    assert(raws[lastk].key == p + fe.name);
                }
                assert((#[trigger] out[prev.len() as int]).kind == Kind::File && out[prev.len() as int].name
                    == rest);
                assert(key_represented(p, out, r.key));
            }
        } else {
            lemma_first_sep(rest);
            let fs = first_sep(rest);
            let gname = group_name(rest);
            assert(gname.len() == fs + 1);
            assert(gname.last() == rest[fs]);
            assert(gname.last() == '/');
            assert(sep_free(gname.drop_last())) by {
                assert forall|i: int| 0 <= i < fs implies gname.drop_last()[i] != '/' by {
                    assert(gname.drop_last()[i] == rest[i]);
                }
            }
            if contains_name(prev, gname) {
                assert(out == prev);
                let j = choose|j: int| 0 <= j < prev.len() && (#[trigger] prev[j]).name == gname;
                assert(entry_reconstructs(p, pr, prev[j]));
                if prev[j].kind == Kind::File {
                    assert(sep_free(gname));
                    assert(gname[fs] == '/');
                    assert(false);
                }
                assert(prev[j].kind == Kind::Directory);
                assert(key_represented(p, out, r.key));
            } else {
                let de = dir_entry_of(p, rest);
                assert(out == prev.push(de));
                assert forall|i: int, j: int| 0 <= i < j < out.len() implies (
                #[trigger] out[i]).name != (#[trigger] out[j]).name by {
                    if j == prev.len() {
                        assert(!contains_name(prev, gname));
                        assert(out[i] == prev[i]);
                    }
                }
                assert(entry_reconstructs(p, raws, de)) by {
                    assert((p + gname).len() == p.len() + fs + 1 <= r.key.len());
                    assert(raws[lastk].key.take((p + gname).len() as int) =~= p + gname);
                    assert((p + gname).is_prefix_of(raws[lastk].key));
                }
                assert((#[trigger] out[prev.len() as int]).kind == Kind::Directory
                    && out[prev.len() as int].name == gname);
                assert(key_represented(p, out, r.key));
            }
        }
        assert forall|i: int| 0 <= i < raws.len() implies key_represented(
            p,
            out,
            (#[trigger] raws[i]).key,
        ) by {
            if i < lastk {
                assert(key_represented(p, prev, pr[i].key));
                if out.len() == prev.len() + 1 {
                    lemma_represented_push(p, prev, out.last(), raws[i].key);
                    assert(prev.push(out.last()) == out);
                }
            }
        }
    }
}

/// Index of the first key separator, or `None` when the string has none.
fn find_first_sep(s: &str) -> (r: Option<usize>)
    ensures
        match r {
            Option::Some(j) => has_sep(s@) && j == first_sep(s@) && j < s@.len(),
            Option::None => !has_sep(s@),
        },
{
    let n: usize = s.unicode_len();
    let mut j: usize = 0;
    while j < n
        invariant
            n == s@.len(),
            j <= n,
            forall|m: int| 0 <= m < j ==> s@[m] != '/',
        decreases n - j,
    {
        if s.get_char(j) == '/' {
            proof {
                lemma_first_sep(s@);
            }
            return Some(j);
        }
        j = j + 1;
    }
    proof {
        lemma_first_sep(s@);
    }
    None
}

/// Whether an entry with the given display name was already produced.
fn contains_entry_name(out: &Vec<S3Object>, name: &String) -> (b: bool)
    ensures
        b == contains_name(entry_views(out@), name@),
{
    let n: usize = out.len();
    let mut i: usize = 0;
    while i < n
        invariant
            n == out@.len(),
            i <= n,
            forall|m: int| 0 <= m < i ==> entry_views(out@)[m].name != name@,
        decreases n - i,
    {
        if out[i].name.eq(name) {
            assert(entry_views(out@)[i as int].name == name@);
            return true;
        }
        i = i + 1;
    }
    false
}

/// Converts the metadata of a raw record into the metadata a file entry
/// carries, parsing the last-modified date into epoch seconds.
fn file_metadata(r: &RawListEntry) -> (m: (Option<i64>, Option<String>, Option<String>))
    ensures
        m.0 == epoch_of_opt(r@.last_modified),
        opt_str_view(m.1) == r@.storage_class,
        opt_str_view(m.2) == r@.owner,
{
    let last_mod = match &r.last_modified {
        Some(s) => parse_rfc3339_epoch(s.as_str()),
        None => None,
    };
    let storage_class = match &r.storage_class {
        Some(s) => Some(s.clone()),
        None => None,
    };
    let owner = match &r.owner {
        Some(s) => Some(s.clone()),
        None => None,
    };
    (last_mod, storage_class, owner)
}

/// The virtualization algorithm: one pass over the raw listing for `prefix`
/// produces one level of the synthetic directory tree, exactly as
/// `virt_listing` describes. The backend guarantees that every returned key
/// begins with the queried prefix.
pub fn virtualize_listing(prefix: &str, raws: &Vec<RawListEntry>) -> (out: Vec<S3Object>)
    requires
        forall|i: int|
            0 <= i < raws@.len() ==> (#[trigger] raws@[i])@.key.len() >= prefix@.len()
                && raws@[i]@.key.take(prefix@.len() as int) == prefix@,
    ensures
        entry_views(out@) == virt_listing(prefix@, raw_views(raws@)),
{
    let ghost p = prefix@;
    let ghost rvs = raw_views(raws@);
    let plen: usize = prefix.unicode_len();
    let mut out: Vec<S3Object> = Vec::new();
    let n: usize = raws.len();
    let mut idx: usize = 0;
    assert(entry_views(out@) =~= virt_listing(p, rvs.take(0)));
    while idx < n
        invariant
            n == raws@.len(),
            idx <= n,
            plen == p.len(),
            p == prefix@,
            rvs == raw_views(raws@),
            forall|i: int|
                0 <= i < raws@.len() ==> (#[trigger] raws@[i])@.key.len() >= p.len()
                    && raws@[i]@.key.take(p.len() as int) == p,
            entry_views(out@) == virt_listing(p, rvs.take(idx as int)),
        decreases n - idx,
    {
        let r = &raws[idx];
        let klen: usize = r.key.as_str().unicode_len();
        proof {
            assert(rvs[idx as int] == raws@[idx as int]@);
            assert(rvs.take(idx + 1).drop_last() =~= rvs.take(idx as int));
            assert(rvs.take(idx + 1).last() == rvs[idx as int]);
        }
        if klen > plen {
            let rest = r.key.as_str().substring_char(plen, klen);
            proof {
                assert(rest@ =~= rest_of(p, r@.key));
            }
            match find_first_sep(rest) {
                None => {
                    let name = rest.to_owned();
                    if !contains_entry_name(&out, &name) {
                        let meta = file_metadata(r);
                        let entry = S3Object {
                            name,
                            prefix: prefix.to_owned(),
                            kind: Kind::File,
                            size: r.size,
                            last_mod: meta.0,
                            storage_class: meta.1,
                            owner: meta.2,
                        };
                        proof {
                            assert(entry@ =~= file_entry_of(p, rvs[idx as int]));
                        }
                        let ghost before = entry_views(out@);
                        out.push(entry);
                        proof {
                            assert(entry_views(out@) =~= before.push(entry@));
                        }
                    }
                }
                Some(j) => {
                    proof {
                        assert(rest@.len() == klen - plen);
                    }
                    let dname_str = rest.substring_char(0, j + 1);
                    proof {
                        lemma_first_sep(rest@);
                        assert(dname_str@ =~= group_name(rest_of(p, r@.key)));
                    }
                    let dname = dname_str.to_owned();
                    if !contains_entry_name(&out, &dname) {
                        let entry = S3Object {
                            name: dname,
                            prefix: prefix.to_owned(),
                            kind: Kind::Directory,
                            size: None,
                            last_mod: None,
                            storage_class: None,
                            owner: None,
                        };
                        proof {
                            assert(entry@ =~= dir_entry_of(p, rest_of(p, rvs[idx as int].key)));
                        }
                        let ghost before = entry_views(out@);
                        out.push(entry);
                        proof {
                            assert(entry_views(out@) =~= before.push(entry@));
                        }
                    }
                }
            }
        } else {
            proof {
                assert(rest_of(p, rvs[idx as int].key).len() == 0);
            }
        }
        idx = idx + 1;
    }
    proof {
        assert(rvs.take(n as int) =~= rvs);
    }
    out
}

impl S3Object {
    /// The display name of this entry.
    pub fn get_name(&self) -> (r: &str)
        ensures
            r@ == self.name@,
    {
        self.name.as_str()
    }

    /// The kind of this entry.
    pub fn get_kind(&self) -> (r: &Kind)
        ensures
            *r == self.kind,
    {
        &self.kind
    }
}

} // verus!
