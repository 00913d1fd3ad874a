//! Filesystem provider logic: classification of listed children and the
//! decisions around reading, writing and deleting local entries.
//!
//! The disk operations themselves (walking a directory, probing metadata,
//! opening and removing files) happen outside the library; they hand in each
//! probe's outcome as plain values and act only on the decisions returned.

use vstd::prelude::*;
use crate::{Kind, StorageError};

verus! {

/// One browsable filesystem entry: the display name (with a trailing
/// separator when the entry is a directory), the parent directory it was
/// found in, and its kind.
#[derive(Clone, Debug)]
pub struct FilesystemObject {
    pub name: String,
    pub dir: Option<String>,
    pub kind: Kind,
}

/// One directory child as the disk walk reports it: the plain file name, the
/// parent directory, and the metadata probe's outcome — `None` when the
/// probe failed, otherwise whether the child is itself a directory.
#[derive(Clone, Debug)]
pub struct RawChild {
    pub name: String,
    pub dir: Option<String>,
    pub is_dir: Option<bool>,
}

/// Mathematical model of a classified entry.
#[verifier::ext_equal]
pub struct FsEntryModel {
    pub name: Seq<char>,
    pub dir: Option<Seq<char>>,
    pub kind: Kind,
}

/// Mathematical model of a raw child.
#[verifier::ext_equal]
pub struct RawChildModel {
    pub name: Seq<char>,
    pub dir: Option<Seq<char>>,
    pub is_dir: Option<bool>,
}

impl View for FilesystemObject {
    type V = FsEntryModel;

    open spec fn view(&self) -> FsEntryModel {
        FsEntryModel {
            name: self.name@,
            dir: crate::providers::s3::opt_str_view(self.dir),
            kind: self.kind,
        }
    }
}

impl View for RawChild {
    type V = RawChildModel;

    open spec fn view(&self) -> RawChildModel {
        RawChildModel {
            name: self.name@,
            dir: crate::providers::s3::opt_str_view(self.dir),
            is_dir: self.is_dir,
        }
    }
}

/// How one child is classified: a directory keeps its name with a trailing
/// separator and kind `Directory`; a file keeps its plain name and kind
/// `File`; a child whose metadata probe failed keeps its plain name and
/// degrades to kind `Unknown` — the listing as a whole does not fail.
pub open spec fn classify_child_spec(c: RawChildModel) -> FsEntryModel {
    match c.is_dir {
        Option::Some(true) => FsEntryModel {
            name: c.name.push('/'),
            dir: c.dir,
            kind: Kind::Directory,
        },
        Option::Some(false) => FsEntryModel { name: c.name, dir: c.dir, kind: Kind::File },
        Option::None => FsEntryModel { name: c.name, dir: c.dir, kind: Kind::Unknown },
    }
}

/// Classifies one listed child from its metadata probe.
pub fn classify_child(c: RawChild) -> (o: FilesystemObject)
    ensures
        o@ == classify_child_spec(c@),
{
    match c.is_dir {
        Some(true) => {
            let mut name = c.name;
            name.append("/");
            proof {
                reveal_strlit("/");
                assert(name@ =~= c@.name.push('/'));
            }
            FilesystemObject { name, dir: c.dir, kind: Kind::Directory }
        },
        Some(false) => FilesystemObject { name: c.name, dir: c.dir, kind: Kind::File },
        None => FilesystemObject { name: c.name, dir: c.dir, kind: Kind::Unknown },
    }
}

/// Classifies a whole directory listing, child by child and in order. A
/// failed metadata probe degrades that one child to `Unknown` while every
/// sibling keeps its correct kind.
pub fn classify_children(children: Vec<RawChild>) -> (out: Vec<FilesystemObject>)
    ensures
        out@.len() == children@.len(),
        forall|i: int|
            0 <= i < children@.len() ==> (#[trigger] out@[i])@ == classify_child_spec(
                children@[i]@,
            ),
{
    let ghost cs = children@;
    let mut out: Vec<FilesystemObject> = Vec::new();
    let mut src = children;
    let n: usize = src.len();
    let mut idx: usize = 0;
    while idx < n
        invariant
            n == cs.len(),
            idx <= n,
            src@ == cs.skip(idx as int),
            out@.len() == idx,
            forall|k: int|
                0 <= k < idx ==> (#[trigger] out@[k])@ == classify_child_spec(cs[k]@),
        decreases n - idx,
    {
        let c = src.remove(0);
        proof {
            assert(c == cs[idx as int]);
            assert(src@ =~= cs.skip(idx + 1));
        }
        out.push(classify_child(c));
        idx = idx + 1;
    }
    out
}

/// The deletion guard: given the metadata probe for the target path, decide
/// whether a removal may proceed. A directory is never removed — the caller
/// gets `Unsupported` and must leave the directory and its contents
/// untouched; a failed probe (absent path, denied access) propagates its
/// error, so deleting an already-absent path fails with `NotFound`. Only a
/// plain file yields the go-ahead.
pub fn plan_remove(probe: Result<bool, StorageError>) -> (r: Result<(), StorageError>)
    ensures
        r == (match probe {
            Result::Ok(true) => Result::<(), StorageError>::Err(StorageError::Unsupported),
            Result::Ok(false) => Result::<(), StorageError>::Ok(()),
            Result::Err(e) => Result::<(), StorageError>::Err(e),
        }),
{
    match probe {
        Ok(true) => Err(StorageError::Unsupported),
        Ok(false) => Ok(()),
        Err(e) => Err(e),
    }
}

/// The listing guard: a listing may proceed only on a directory. A probe of
/// a non-directory yields `Unsupported`; a failed probe propagates its
/// error.
pub fn plan_list(probe: Result<bool, StorageError>) -> (r: Result<(), StorageError>)
    ensures
        r == (match probe {
            Result::Ok(true) => Result::<(), StorageError>::Ok(()),
            Result::Ok(false) => Result::<(), StorageError>::Err(StorageError::Unsupported),
            Result::Err(e) => Result::<(), StorageError>::Err(e),
        }),
{
    match probe {
        Ok(true) => Ok(()),
        Ok(false) => Err(StorageError::Unsupported),
        Err(e) => Err(e),
    }
}

} // verus!
